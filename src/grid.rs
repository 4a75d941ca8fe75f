use vstd::prelude::*;

verus! {

/// Position of `(x, y)` in a row-major grid `width` wide.
pub open spec fn slot(width: int, x: int, y: int) -> int {
    x + y * width
}

/// Slots of distinct cells of a grid differ, and each falls inside the grid.
pub proof fn lemma_slot(width: int, height: int, x1: int, y1: int, x2: int, y2: int)
    requires
        0 <= x1 < width,
        0 <= y1 < height,
        0 <= x2 < width,
        0 <= y2 < height,
    ensures
        0 <= slot(width, x1, y1) < width * height,
        slot(width, x1, y1) < height * width,
        (y1 < y2 || (y1 == y2 && x1 < x2)) ==> slot(width, x1, y1) < slot(width, x2, y2),
        slot(width, x1, y1) == slot(width, x2, y2) ==> x1 == x2 && y1 == y2,
{
    assert(0 <= x1 + y1 * width < width * height) by (nonlinear_arith)
        requires
            0 <= x1 < width,
            0 <= y1 < height,
    ;
    assert(width * height == height * width) by (nonlinear_arith);
    assert(y1 < y2 ==> x1 + y1 * width < x2 + y2 * width) by (nonlinear_arith)
        requires
            0 <= x1 < width,
            0 <= x2 < width,
            0 <= y1,
    ;
    assert(y2 < y1 ==> x2 + y2 * width < x1 + y1 * width) by (nonlinear_arith)
        requires
            0 <= x1 < width,
            0 <= x2 < width,
            0 <= y2,
    ;
}

} // verus!
