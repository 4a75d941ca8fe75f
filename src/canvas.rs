use crate::grid::{lemma_slot, slot};
use vstd::prelude::*;

verus! {

/// A width × height grid of pixels, stored row by row, top row first.
pub struct Canvas<T> {
    width: usize,
    height: usize,
    pixels: Vec<T>,
}

impl<T> Canvas<T> {
    /// The canvas holds exactly one pixel for each cell.
    #[verifier::type_invariant]
    closed spec fn wf(&self) -> bool {
        self.pixels.len() == self.width * self.height
    }
}

impl<T: Copy> Canvas<T> {
    pub closed spec fn spec_width(&self) -> nat {
        self.width as nat
    }

    pub closed spec fn spec_height(&self) -> nat {
        self.height as nat
    }

    /// The pixel in column `x` of row `y`.
    pub closed spec fn pixel(&self, x: int, y: int) -> T {
        self.pixels@[slot(self.width as int, x, y)]
    }

    /// A canvas of the given size with every pixel set to `fill`.
    pub fn new(width: usize, height: usize, fill: T) -> (c: Self)
        requires
            width * height <= usize::MAX,
        ensures
            c.spec_width() == width,
            c.spec_height() == height,
            forall|x: int, y: int|
                0 <= x < width && 0 <= y < height ==> #[trigger] c.pixel(x, y) == fill,
    {
        let n: usize = width * height;
        let mut pixels: Vec<T> = Vec::new();
        for i in 0..n
            invariant
                pixels.len() == i,
                forall|j: int| 0 <= j < i ==> pixels@[j] == fill,
        {
            pixels.push(fill);
        }
        let c = Canvas { width, height, pixels };
        assert forall|x: int, y: int| 0 <= x < width && 0 <= y < height implies #[trigger] c.pixel(
            x,
            y,
        ) == fill by {
            lemma_slot(width as int, height as int, x, y, x, y);
        }
        c
    }

    pub fn width(&self) -> (w: usize)
        ensures
            w == self.spec_width(),
    {
        self.width
    }

    pub fn height(&self) -> (h: usize)
        ensures
            h == self.spec_height(),
    {
        self.height
    }

    /// The pixel in column `x` of row `y`.
    pub fn get(&self, x: usize, y: usize) -> (p: T)
        requires
            x < self.spec_width(),
            y < self.spec_height(),
        ensures
            p == self.pixel(x as int, y as int),
    {
        proof {
            use_type_invariant(self);
            lemma_slot(self.width as int, self.height as int, x as int, y as int, x as int, y as int);
        }
        self.pixels[x + y * self.width]
    }

    /// Sets the pixel in column `x` of row `y`, leaving every other pixel as it was.
    pub fn set(&mut self, x: usize, y: usize, p: T)
        requires
            x < old(self).spec_width(),
            y < old(self).spec_height(),
        ensures
            final(self).spec_width() == old(self).spec_width(),
            final(self).spec_height() == old(self).spec_height(),
            final(self).pixel(x as int, y as int) == p,
            forall|i: int, j: int|
                0 <= i < old(self).spec_width() && 0 <= j < old(self).spec_height() && !(i == x
                    && j == y) ==> #[trigger] final(self).pixel(i, j) == old(self).pixel(i, j),
    {
        proof {
            use_type_invariant(&*self);
            lemma_slot(self.width as int, self.height as int, x as int, y as int, x as int, y as int);
        }
        let k = x + y * self.width;
        self.pixels[k] = p;
        proof {
            assert forall|i: int, j: int|
                0 <= i < self.width && 0 <= j < self.height && !(i == x && j == y) implies #[trigger] self.pixel(
                i,
                j,
            ) == old(self).pixel(i, j) by {
                lemma_slot(self.width as int, self.height as int, i, j, x as int, y as int);
            }
        }
    }

    /// Assembles a canvas from rows computed separately, each row landing at
    /// its own index whatever order the rows were produced in: pixel `(x, y)`
    /// is `rows[y][x]`.
    pub fn from_rows(width: usize, rows: &Vec<Vec<T>>) -> (c: Self)
        requires
            width * rows.len() <= usize::MAX,
            forall|y: int| 0 <= y < rows.len() ==> #[trigger] rows@[y].len() == width,
        ensures
            c.spec_width() == width,
            c.spec_height() == rows.len(),
            forall|x: int, y: int|
                0 <= x < width && 0 <= y < rows.len() ==> #[trigger] c.pixel(x, y)
                    == rows@[y]@[x],
    {
        let height = rows.len();
        let mut pixels: Vec<T> = Vec::new();
        assert(0 * width == 0);
        for y in 0..height
            invariant
                height == rows.len(),
                width * height <= usize::MAX,
                forall|r: int| 0 <= r < rows.len() ==> #[trigger] rows@[r].len() == width,
                pixels.len() == y * width,
                forall|i: int, j: int|
                    0 <= i < width && 0 <= j < y ==> #[trigger] pixels@[slot(width as int, i, j)]
                        == rows@[j]@[i],
        {
            let row = &rows[y];
            for x in 0..width
                invariant
                    y < height,
                    height == rows.len(),
                    width * height <= usize::MAX,
                    row@ == rows@[y as int]@,
                    row.len() == width,
                    pixels.len() == y * width + x,
                    forall|i: int, j: int|
                        0 <= i < width && 0 <= j < y ==> #[trigger] pixels@[slot(
                            width as int,
                            i,
                            j,
                        )] == rows@[j]@[i],
                    forall|i: int|
                        0 <= i < x ==> #[trigger] pixels@[slot(width as int, i, y as int)]
                            == rows@[y as int]@[i],
            {
                proof {
                    assert forall|i: int, j: int| 0 <= i < width && 0 <= j < y implies slot(
                        width as int,
                        i,
                        j,
                    ) < pixels.len() by {
                        lemma_slot(width as int, height as int, i, j, x as int, y as int);
                    }
                    assert forall|i: int| 0 <= i < x implies slot(width as int, i, y as int)
                        < pixels.len() by {
                        lemma_slot(width as int, height as int, i, y as int, x as int, y as int);
                    }
                }
                pixels.push(row[x]);
            }
            proof {
                assert(pixels.len() == (y + 1) * width) by (nonlinear_arith)
                    requires
                        pixels.len() == y * width + width,
                ;
            }
        }
        assert(height * width == width * height) by (nonlinear_arith);
        Canvas { width, height, pixels }
    }
}

} // verus!
