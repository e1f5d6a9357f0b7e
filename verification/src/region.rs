//! The regions of the hexagonal grid that a board can cover, and the
//! generator that lists the cells of a region.

use crate::board::Hex;
use crate::seqs::lemma_push_contains;
use vstd::prelude::*;

verus! {

/// The shape of the region that a board covers.
#[derive(Clone, Copy, Debug, PartialEq, Eq, Structural)]
pub enum Shape {
    /// The cells `0 <= q, r < size`. Red joins `q == 0` to `q == size - 1`,
    /// Blue joins `r == 0` to `r == size - 1`.
    Rhombus,
    /// The cells `|q|, |r|, |q + r| <= size`. Red joins `q == -size` to
    /// `q == size`, Blue joins `r == -size` to `r == size`.
    Hexagon,
}

/// Whether `h` is a cell of the region of the given shape and size.
pub open spec fn in_region(shape: Shape, size: int, h: Hex) -> bool {
    match shape {
        Shape::Rhombus => 0 <= h.q < size && 0 <= h.r < size,
        Shape::Hexagon => {
            &&& -size <= h.q <= size
            &&& -size <= h.r <= size
            &&& -size <= h.q + h.r <= size
        },
    }
}

/// The number of cells of the region of the given shape and size.
pub open spec fn region_count(shape: Shape, size: int) -> int {
    if size < 0 {
        0
    } else {
        match shape {
            Shape::Rhombus => size * size,
            Shape::Hexagon => 3 * size * size + 3 * size + 1,
        }
    }
}

/// The least `q` of the region.
pub open spec fn first_row(shape: Shape, size: int) -> int {
    match shape {
        Shape::Rhombus => 0,
        Shape::Hexagon => -size,
    }
}

/// The greatest `q` of the region.
pub open spec fn last_row(shape: Shape, size: int) -> int {
    match shape {
        Shape::Rhombus => size - 1,
        Shape::Hexagon => size,
    }
}

/// The least `r` in row `q` of the region: in the hexagon,
/// `max(-size, -q - size)`.
pub open spec fn row_first(shape: Shape, size: int, q: int) -> int {
    match shape {
        Shape::Rhombus => 0,
        Shape::Hexagon => if q <= 0 {
            -size - q
        } else {
            -size
        },
    }
}

/// The greatest `r` in row `q` of the region: in the hexagon,
/// `min(size, -q + size)`.
pub open spec fn row_last(shape: Shape, size: int, q: int) -> int {
    match shape {
        Shape::Rhombus => size - 1,
        Shape::Hexagon => if q >= 0 {
            size - q
        } else {
            size
        },
    }
}

/// The number of cells of the region in the rows before row `q`.
pub open spec fn rows_before(shape: Shape, size: int, q: int) -> int
    decreases q - first_row(shape, size),
{
    if q <= first_row(shape, size) {
        0
    } else {
        rows_before(shape, size, q - 1) + (row_last(shape, size, q - 1) - row_first(
            shape,
            size,
            q - 1,
        ) + 1)
    }
}

/// `a` comes before `b` in the order of the generator: by `q`, and within
/// one `q` by `r`.
pub open spec fn precedes(a: Hex, b: Hex) -> bool {
    a.q < b.q || (a.q == b.q && a.r < b.r)
}

/// The rows of a rhombus hold `size` cells each.
pub proof fn lemma_rhombus_rows(size: int, q: int)
    requires
        0 <= size,
        0 <= q <= size,
    ensures
        rows_before(Shape::Rhombus, size, q) == q * size,
        q == size ==> rows_before(Shape::Rhombus, size, q) == region_count(Shape::Rhombus, size),
    decreases q,
{
    if q > 0 {
        lemma_rhombus_rows(size, q - 1);
        assert((q - 1) * size + size == q * size) by (nonlinear_arith);
    } else {
        assert(q * size == 0) by (nonlinear_arith)
            requires
                q == 0,
        ;
    }
}

/// The rows of a hexagon grow from `size + 1` cells to the middle row of
/// `2 * size + 1` cells and shrink again; all the rows together hold
/// `3 * size * size + 3 * size + 1` cells.
pub proof fn lemma_hexagon_rows(size: int, q: int)
    requires
        0 <= size,
        -size <= q <= size + 1,
    ensures
        q <= 0 ==> 2 * rows_before(Shape::Hexagon, size, q) == (q + size) * (3 * size + 1 + q),
        q >= 0 ==> 2 * rows_before(Shape::Hexagon, size, q) == size * (3 * size + 1) + 2 * q * (2
            * size + 1) - q * (q - 1),
        q == size + 1 ==> rows_before(Shape::Hexagon, size, q) == region_count(
            Shape::Hexagon,
            size,
        ),
    decreases q + size,
{
    if q > -size {
        lemma_hexagon_rows(size, q - 1);
        let before = rows_before(Shape::Hexagon, size, q - 1);
        if q <= 0 {
            assert(2 * (before + (size - (-size - (q - 1)) + 1)) == (q + size) * (3 * size + 1 + q))
                by (nonlinear_arith)
                requires
                    2 * before == (q - 1 + size) * (3 * size + 1 + (q - 1)),
            ;
        } else {
            assert(2 * (before + ((size - (q - 1)) - (-size) + 1)) == size * (3 * size + 1) + 2 * q
                * (2 * size + 1) - q * (q - 1)) by (nonlinear_arith)
                requires
                    2 * before == size * (3 * size + 1) + 2 * (q - 1) * (2 * size + 1) - (q - 1) * (
                    q - 2),
            ;
        }
    } else {
        assert((q + size) * (3 * size + 1 + q) == 0) by (nonlinear_arith)
            requires
                q + size == 0,
        ;
    }
    if q == size + 1 {
        assert(size * (3 * size + 1) + 2 * q * (2 * size + 1) - q * (q - 1) == 2 * (3 * size * size
            + 3 * size + 1)) by (nonlinear_arith)
            requires
                q == size + 1,
        ;
    }
    if q == 0 {
        assert((q + size) * (3 * size + 1 + q) == size * (3 * size + 1) + 2 * q * (2 * size + 1) - q
            * (q - 1)) by (nonlinear_arith)
            requires
                q == 0,
        ;
    }
}

/// Lists the cells of the region of the given shape and size: each cell
/// once, by rising `q`, and within one `q` by rising `r`. For the rhombus
/// `q` and `r` run from `0` to `size - 1`; for the hexagon `q` runs from
/// `-size` to `size` and `r` from `max(-size, -q - size)` to
/// `min(size, -q + size)`. A negative size gives no cells. The size of a
/// hexagon stays below `i32::MAX`.
pub fn region_cells(shape: Shape, size: i32) -> (out: Vec<Hex>)
    requires
        shape == Shape::Hexagon ==> size < i32::MAX,
    ensures
        forall|h: Hex| #[trigger] out@.contains(h) <==> in_region(shape, size as int, h),
        forall|i: int, j: int|
            0 <= i < j < out@.len() ==> precedes(#[trigger] out@[i], #[trigger] out@[j]),
        out@.len() == region_count(shape, size as int),
{
    let mut out: Vec<Hex> = Vec::new();
    if size < 0 {
        return out;
    }
    let (q_first, q_last): (i32, i32) = match shape {
        Shape::Rhombus => (0, size - 1),
        Shape::Hexagon => (-size, size),
    };
    let mut q: i32 = q_first;
    while q <= q_last
        invariant
            0 <= size,
            q_last < i32::MAX,
            q_first == first_row(shape, size as int),
            q_last == last_row(shape, size as int),
            q_first <= q <= q_last + 1,
            out@.len() == rows_before(shape, size as int, q as int),
            forall|h: Hex| #[trigger] out@.contains(h) <==> in_region(shape, size as int, h) && h.q < q,
            forall|i: int, j: int|
                0 <= i < j < out@.len() ==> precedes(#[trigger] out@[i], #[trigger] out@[j]),
        decreases q_last + 1 - q,
    {
        let (r_first, r_last): (i32, i32) = match shape {
            Shape::Rhombus => (0, size - 1),
            Shape::Hexagon => (
                if q <= 0 {
                    -size - q
                } else {
                    -size
                },
                if q >= 0 {
                    size - q
                } else {
                    size
                },
            ),
        };
        let mut r: i32 = r_first;
        while r <= r_last
            invariant
                0 <= size,
                q_last < i32::MAX,
                q_first == first_row(shape, size as int),
                q_last == last_row(shape, size as int),
                q_first <= q <= q_last,
                r_first == row_first(shape, size as int, q as int),
                r_last == row_last(shape, size as int, q as int),
                r_last < i32::MAX,
                r_first <= r <= r_last + 1,
                out@.len() == rows_before(shape, size as int, q as int) + (r - r_first),
                forall|h: Hex| #[trigger]
                    out@.contains(h) <==> in_region(shape, size as int, h) && (h.q < q || (h.q == q
                        && h.r < r)),
                forall|i: int, j: int|
                    0 <= i < j < out@.len() ==> precedes(#[trigger] out@[i], #[trigger] out@[j]),
            decreases r_last + 1 - r,
        {
            let cell = Hex { q, r };
            proof {
                assert forall|h: Hex| #[trigger]
                    out@.push(cell).contains(h) <==> in_region(shape, size as int, h) && (h.q < q
                        || (h.q == q && h.r < r + 1)) by {
                    lemma_push_contains(out@, cell, h);
                }
                assert forall|i: int, j: int| 0 <= i < j < out@.push(cell).len() implies precedes(
                    #[trigger] out@.push(cell)[i],
                    #[trigger] out@.push(cell)[j],
                ) by {
                    if j == out@.len() {
                        assert(out@.contains(out@[i]));
                    }
                }
            }
            out.push(cell);
            r += 1;
        }
        q += 1;
    }
    proof {
        match shape {
            Shape::Rhombus => lemma_rhombus_rows(size as int, size as int),
            Shape::Hexagon => lemma_hexagon_rows(size as int, size + 1),
        }
    }
    out
}

} // verus!
