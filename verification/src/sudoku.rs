//! A checker for completed sudoku grids.
//!
//! A 9 by 9 grid of digits is a valid solution when every cell holds 1
//! through 9 and no row, column or 3-by-3 box repeats a digit.

use crate::array2::Array2;
use vstd::prelude::*;

verus! {

/// Every cell holds a digit from 1 through 9.
pub open spec fn cells_in_range(grid: Array2<i32>) -> bool {
    forall|i: int, j: int| 0 <= i < 9 && 0 <= j < 9 ==> 1 <= #[trigger] grid.cell(i, j) <= 9
}

/// No row repeats a value.
pub open spec fn rows_distinct(grid: Array2<i32>) -> bool {
    forall|i: int, j1: int, j2: int|
        0 <= i < 9 && 0 <= j1 < j2 < 9 ==> #[trigger] grid.cell(i, j1) != #[trigger] grid.cell(
            i,
            j2,
        )
}

/// No column repeats a value.
pub open spec fn columns_distinct(grid: Array2<i32>) -> bool {
    forall|j: int, i1: int, i2: int|
        0 <= j < 9 && 0 <= i1 < i2 < 9 ==> #[trigger] grid.cell(i1, j) != #[trigger] grid.cell(
            i2,
            j,
        )
}

/// The cell of the box at `bi`, `bj` that sits `k` cells into the box,
/// reading its three rows left to right.
pub open spec fn box_cell(grid: Array2<i32>, bi: int, bj: int, k: int) -> i32 {
    grid.cell(bi * 3 + k / 3, bj * 3 + k % 3)
}

/// No 3-by-3 box repeats a value.
pub open spec fn boxes_distinct(grid: Array2<i32>) -> bool {
    forall|bi: int, bj: int, k1: int, k2: int|
        0 <= bi < 3 && 0 <= bj < 3 && 0 <= k1 < k2 < 9 ==> #[trigger] box_cell(grid, bi, bj, k1)
            != #[trigger] box_cell(grid, bi, bj, k2)
}

/// A valid solution: a 9 by 9 grid of digits 1 through 9 with no repeat
/// in any row, column or box.
pub open spec fn spec_valid_sudoku(grid: Array2<i32>) -> bool {
    &&& grid.spec_num_rows() == 9
    &&& grid.spec_num_columns() == 9
    &&& cells_in_range(grid)
    &&& rows_distinct(grid)
    &&& columns_distinct(grid)
    &&& boxes_distinct(grid)
}

/// The digit at `row`, `column` of a grid known to be 9 by 9.
fn cell_at(grid: &Array2<i32>, row: usize, column: usize) -> (r: i32)
    requires
        grid.wf(),
        row < grid.spec_num_rows(),
        column < grid.spec_num_columns(),
    ensures
        r == grid.cell(row as int, column as int),
{
    match grid.get(row, column) {
        Some(v) => *v,
        None => {
            proof {
                assert(false);
            }
            0
        },
    }
}

/// Whether `grid` is a valid sudoku solution.
pub fn check_sudoku(grid: &Array2<i32>) -> (r: bool)
    requires
        grid.wf(),
    ensures
        r == spec_valid_sudoku(*grid),
{
    if grid.num_rows() != 9 || grid.num_columns() != 9 {
        return false;
    }
    let mut i: usize = 0;
    while i < 9
        invariant
            grid.wf(),
            grid.spec_num_rows() == 9,
            grid.spec_num_columns() == 9,
            i <= 9,
            forall|a: int, b: int| 0 <= a < i && 0 <= b < 9 ==> 1 <= #[trigger] grid.cell(a, b) <= 9,
        decreases 9 - i,
    {
        let mut j: usize = 0;
        while j < 9
            invariant
                grid.wf(),
                grid.spec_num_rows() == 9,
                grid.spec_num_columns() == 9,
                i < 9,
                j <= 9,
                forall|a: int, b: int|
                    0 <= a < i && 0 <= b < 9 ==> 1 <= #[trigger] grid.cell(a, b) <= 9,
                forall|b: int| 0 <= b < j ==> 1 <= #[trigger] grid.cell(i as int, b) <= 9,
            decreases 9 - j,
        {
            let v = cell_at(grid, i, j);
            if v < 1 || v > 9 {
                return false;
            }
            j = j + 1;
        }
        i = i + 1;
    }
    let mut i: usize = 0;
    while i < 9
        invariant
            grid.wf(),
            grid.spec_num_rows() == 9,
            grid.spec_num_columns() == 9,
            i <= 9,
            forall|a: int, b1: int, b2: int|
                0 <= a < i && 0 <= b1 < b2 < 9 ==> #[trigger] grid.cell(a, b1)
                    != #[trigger] grid.cell(a, b2),
        decreases 9 - i,
    {
        let mut j1: usize = 0;
        while j1 < 9
            invariant
                grid.wf(),
                grid.spec_num_rows() == 9,
                grid.spec_num_columns() == 9,
                i < 9,
                j1 <= 9,
                forall|a: int, b1: int, b2: int|
                    0 <= a < i && 0 <= b1 < b2 < 9 ==> #[trigger] grid.cell(a, b1)
                        != #[trigger] grid.cell(a, b2),
                forall|b1: int, b2: int|
                    0 <= b1 < j1 && b1 < b2 < 9 ==> #[trigger] grid.cell(i as int, b1)
                        != #[trigger] grid.cell(i as int, b2),
            decreases 9 - j1,
        {
            let mut j2: usize = j1 + 1;
            while j2 < 9
                invariant
                    grid.wf(),
                    grid.spec_num_rows() == 9,
                    grid.spec_num_columns() == 9,
                    i < 9,
                    j1 < 9,
                    j1 < j2 <= 9,
                    forall|b2: int|
                        j1 < b2 < j2 ==> grid.cell(i as int, j1 as int) != #[trigger] grid.cell(
                            i as int,
                            b2,
                        ),
                decreases 9 - j2,
            {
                if cell_at(grid, i, j1) == cell_at(grid, i, j2) {
                    return false;
                }
                j2 = j2 + 1;
            }
            j1 = j1 + 1;
        }
        i = i + 1;
    }
    let mut j: usize = 0;
    while j < 9
        invariant
            grid.wf(),
            grid.spec_num_rows() == 9,
            grid.spec_num_columns() == 9,
            j <= 9,
            forall|b: int, a1: int, a2: int|
                0 <= b < j && 0 <= a1 < a2 < 9 ==> #[trigger] grid.cell(a1, b)
                    != #[trigger] grid.cell(a2, b),
        decreases 9 - j,
    {
        let mut i1: usize = 0;
        while i1 < 9
            invariant
                grid.wf(),
                grid.spec_num_rows() == 9,
                grid.spec_num_columns() == 9,
                j < 9,
                i1 <= 9,
                forall|b: int, a1: int, a2: int|
                    0 <= b < j && 0 <= a1 < a2 < 9 ==> #[trigger] grid.cell(a1, b)
                        != #[trigger] grid.cell(a2, b),
                forall|a1: int, a2: int|
                    0 <= a1 < i1 && a1 < a2 < 9 ==> #[trigger] grid.cell(a1, j as int)
                        != #[trigger] grid.cell(a2, j as int),
            decreases 9 - i1,
        {
            let mut i2: usize = i1 + 1;
            while i2 < 9
                invariant
                    grid.wf(),
                    grid.spec_num_rows() == 9,
                    grid.spec_num_columns() == 9,
                    j < 9,
                    i1 < 9,
                    i1 < i2 <= 9,
                    forall|a2: int|
                        i1 < a2 < i2 ==> grid.cell(i1 as int, j as int) != #[trigger] grid.cell(
                            a2,
                            j as int,
                        ),
                decreases 9 - i2,
            {
                if cell_at(grid, i1, j) == cell_at(grid, i2, j) {
                    return false;
                }
                i2 = i2 + 1;
            }
            i1 = i1 + 1;
        }
        j = j + 1;
    }
    let mut bx: usize = 0;
    while bx < 9
        invariant
            grid.wf(),
            grid.spec_num_rows() == 9,
            grid.spec_num_columns() == 9,
            bx <= 9,
            forall|b: int, k1: int, k2: int|
                0 <= b < bx && 0 <= k1 < k2 < 9 ==> #[trigger] box_cell(*grid, b / 3, b % 3, k1)
                    != #[trigger] box_cell(*grid, b / 3, b % 3, k2),
        decreases 9 - bx,
    {
        let bi = bx / 3;
        let bj = bx % 3;
        let mut k1: usize = 0;
        while k1 < 9
            invariant
                grid.wf(),
                grid.spec_num_rows() == 9,
                grid.spec_num_columns() == 9,
                bx < 9,
                bi == bx / 3,
                bj == bx % 3,
                k1 <= 9,
                forall|k1p: int, k2: int|
                    0 <= k1p < k1 && k1p < k2 < 9 ==> #[trigger] box_cell(
                        *grid,
                        bi as int,
                        bj as int,
                        k1p,
                    ) != #[trigger] box_cell(*grid, bi as int, bj as int, k2),
            decreases 9 - k1,
        {
            let mut k2: usize = k1 + 1;
            while k2 < 9
                invariant
                    grid.wf(),
                    grid.spec_num_rows() == 9,
                    grid.spec_num_columns() == 9,
                    bx < 9,
                    bi == bx / 3,
                    bj == bx % 3,
                    k1 < 9,
                    k1 < k2 <= 9,
                    forall|k2p: int|
                        k1 < k2p < k2 ==> box_cell(*grid, bi as int, bj as int, k1 as int)
                            != #[trigger] box_cell(*grid, bi as int, bj as int, k2p),
                decreases 9 - k2,
            {
                let v1 = cell_at(grid, bi * 3 + k1 / 3, bj * 3 + k1 % 3);
                let v2 = cell_at(grid, bi * 3 + k2 / 3, bj * 3 + k2 % 3);
                if v1 == v2 {
                    proof {
                        assert(0 <= bi < 3 && 0 <= bj < 3);
                        assert(box_cell(*grid, bi as int, bj as int, k1 as int) == box_cell(
                            *grid,
                            bi as int,
                            bj as int,
                            k2 as int,
                        ));
                        assert(!boxes_distinct(*grid));
                    }
                    return false;
                }
                k2 = k2 + 1;
            }
            k1 = k1 + 1;
        }
        bx = bx + 1;
        proof {
            assert forall|b: int, k1: int, k2: int|
                0 <= b < bx && 0 <= k1 < k2 < 9 implies #[trigger] box_cell(*grid, b / 3, b % 3, k1)
                != #[trigger] box_cell(*grid, b / 3, b % 3, k2) by {
                if b == bx - 1 {
                    assert(b / 3 == (bx - 1) as int / 3 && b % 3 == (bx - 1) as int % 3);
                }
            }
        }
    }
    proof {
        assert forall|bi: int, bj: int, k1: int, k2: int|
            0 <= bi < 3 && 0 <= bj < 3 && 0 <= k1 < k2 < 9 implies #[trigger] box_cell(
            *grid,
            bi,
            bj,
            k1,
        ) != #[trigger] box_cell(*grid, bi, bj, k2) by {
            let b = bi * 3 + bj;
            assert(0 <= b < 9 && b / 3 == bi && b % 3 == bj) by (nonlinear_arith)
                requires
                    0 <= bi < 3,
                    0 <= bj < 3,
                    b == bi * 3 + bj,
            ;
        }
    }
    true
}

} // verus!
