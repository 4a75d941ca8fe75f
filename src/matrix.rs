use crate::grid::{lemma_slot, slot};
use vstd::prelude::*;

verus! {

/// Entry `(r, c)` of a row-major matrix with `cols` columns.
pub open spec fn entry<T>(data: Seq<T>, cols: int, r: int, c: int) -> T {
    data[slot(cols, c, r)]
}

/// The index in the full matrix of index `k` of a matrix with index
/// `removed` taken out.
pub open spec fn skipping(k: int, removed: int) -> int {
    if k < removed {
        k
    } else {
        k + 1
    }
}

/// The transpose of a `rows` × `cols` row-major matrix: a `cols` × `rows`
/// matrix whose entry `(c, r)` is entry `(r, c)` of `data`.
pub fn transpose<T: Copy>(data: &Vec<T>, rows: usize, cols: usize) -> (t: Vec<T>)
    requires
        data.len() == rows * cols,
    ensures
        t.len() == rows * cols,
        forall|c: int, r: int|
            0 <= c < cols && 0 <= r < rows ==> #[trigger] entry(t@, rows as int, c, r) == entry(
                data@,
                cols as int,
                r,
                c,
            ),
{
    let mut t: Vec<T> = Vec::new();
    assert(0 * rows == 0);
    for c in 0..cols
        invariant
            data.len() == rows * cols,
            t.len() == c * rows,
            forall|i: int, j: int|
                0 <= i < c && 0 <= j < rows ==> #[trigger] entry(t@, rows as int, i, j) == entry(
                    data@,
                    cols as int,
                    j,
                    i,
                ),
    {
        for r in 0..rows
            invariant
                c < cols,
                data.len() == rows * cols,
                t.len() == c * rows + r,
                forall|i: int, j: int|
                    0 <= i < c && 0 <= j < rows ==> #[trigger] entry(t@, rows as int, i, j)
                        == entry(data@, cols as int, j, i),
                forall|j: int|
                    0 <= j < r ==> #[trigger] entry(t@, rows as int, c as int, j) == entry(
                        data@,
                        cols as int,
                        j,
                        c as int,
                    ),
        {
            proof {
                lemma_slot(cols as int, rows as int, c as int, r as int, c as int, r as int);
            }
            let ghost before = t@;
            t.push(data[c + r * cols]);
            proof {
                assert forall|i: int, j: int| 0 <= i < c && 0 <= j < rows implies #[trigger] entry(
                    t@,
                    rows as int,
                    i,
                    j,
                ) == entry(data@, cols as int, j, i) by {
                    lemma_slot(rows as int, cols as int, j, i, r as int, c as int);
                    assert(t@[slot(rows as int, j, i)] == before[slot(rows as int, j, i)]);
                    assert(entry(before, rows as int, i, j) == entry(data@, cols as int, j, i));
                }
                assert forall|j: int| 0 <= j <= r implies #[trigger] entry(
                    t@,
                    rows as int,
                    c as int,
                    j,
                ) == entry(data@, cols as int, j, c as int) by {
                    lemma_slot(rows as int, cols as int, j, c as int, r as int, c as int);
                    if j < r {
                        assert(t@[slot(rows as int, j, c as int)] == before[slot(
                            rows as int,
                            j,
                            c as int,
                        )]);
                        assert(entry(before, rows as int, c as int, j) == entry(
                            data@,
                            cols as int,
                            j,
                            c as int,
                        ));
                    }
                }
            }
        }
        assert(t.len() == (c + 1) * rows) by (nonlinear_arith)
            requires
                t.len() == c * rows + rows,
        ;
    }
    assert(cols * rows == rows * cols) by (nonlinear_arith);
    t
}

/// The `rows - 1` × `cols - 1` matrix left when row `row` and column `col`
/// are taken out of a `rows` × `cols` row-major matrix.
pub fn submatrix<T: Copy>(data: &Vec<T>, rows: usize, cols: usize, row: usize, col: usize) -> (s:
    Vec<T>)
    requires
        data.len() == rows * cols,
        row < rows,
        col < cols,
    ensures
        s.len() == (rows - 1) * (cols - 1),
        forall|i: int, j: int|
            0 <= i < rows - 1 && 0 <= j < cols - 1 ==> #[trigger] entry(s@, cols - 1, i, j)
                == entry(data@, cols as int, skipping(i, row as int), skipping(j, col as int)),
{
    let w: usize = cols - 1;
    let h: usize = rows - 1;
    let mut s: Vec<T> = Vec::new();
    assert(0 * w == 0);
    for i in 0..h
        invariant
            w == cols - 1,
            h == rows - 1,
            data.len() == rows * cols,
            row < rows,
            col < cols,
            s.len() == i * w,
            forall|a: int, b: int|
                0 <= a < i && 0 <= b < w ==> #[trigger] entry(s@, w as int, a, b) == entry(
                    data@,
                    cols as int,
                    skipping(a, row as int),
                    skipping(b, col as int),
                ),
    {
        let r: usize = if i < row {
            i
        } else {
            i + 1
        };
        for j in 0..w
            invariant
                i < h,
                w == cols - 1,
                h == rows - 1,
                data.len() == rows * cols,
                row < rows,
                col < cols,
                r == skipping(i as int, row as int),
                s.len() == i * w + j,
                forall|a: int, b: int|
                    0 <= a < i && 0 <= b < w ==> #[trigger] entry(s@, w as int, a, b) == entry(
                        data@,
                        cols as int,
                        skipping(a, row as int),
                        skipping(b, col as int),
                    ),
                forall|b: int|
                    0 <= b < j ==> #[trigger] entry(s@, w as int, i as int, b) == entry(
                        data@,
                        cols as int,
                        r as int,
                        skipping(b, col as int),
                    ),
        {
            let c: usize = if j < col {
                j
            } else {
                j + 1
            };
            proof {
                lemma_slot(cols as int, rows as int, c as int, r as int, c as int, r as int);
            }
            let ghost before = s@;
            s.push(data[c + r * cols]);
            proof {
                assert forall|a: int, b: int| 0 <= a < i && 0 <= b < w implies #[trigger] entry(
                    s@,
                    w as int,
                    a,
                    b,
                ) == entry(
                    data@,
                    cols as int,
                    skipping(a, row as int),
                    skipping(b, col as int),
                ) by {
                    lemma_slot(w as int, h as int, b, a, j as int, i as int);
                    assert(s@[slot(w as int, b, a)] == before[slot(w as int, b, a)]);
                    assert(entry(before, w as int, a, b) == entry(
                        data@,
                        cols as int,
                        skipping(a, row as int),
                        skipping(b, col as int),
                    ));
                }
                assert forall|b: int| 0 <= b <= j implies #[trigger] entry(
                    s@,
                    w as int,
                    i as int,
                    b,
                ) == entry(data@, cols as int, r as int, skipping(b, col as int)) by {
                    lemma_slot(w as int, h as int, b, i as int, j as int, i as int);
                    if b < j {
                        assert(s@[slot(w as int, b, i as int)] == before[slot(
                            w as int,
                            b,
                            i as int,
                        )]);
                        assert(entry(before, w as int, i as int, b) == entry(
                            data@,
                            cols as int,
                            r as int,
                            skipping(b, col as int),
                        ));
                    }
                }
            }
        }
        assert(s.len() == (i + 1) * w) by (nonlinear_arith)
            requires
                s.len() == i * w + w,
        ;
    }
    s
}

} // verus!
