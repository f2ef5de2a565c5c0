//! Laws relating the table operations to one another.
//!
//! Each law is stated over [`TableModel`] values and the same spec functions
//! that the executable operations' contracts use, so it applies to the
//! results of those operations directly.

use vstd::prelude::*;

use crate::model::is_first_match;
use crate::model::lemma_cells_determine_data;
use crate::model::lemma_offset_coords;
use crate::model::lemma_offset_in_range;
use crate::model::pushed_row_model;
use crate::model::removed_row_shape;
use crate::model::set_cell_model;
use crate::model::transposed_model;
use crate::model::TableModel;
use crate::table::Order;

verus! {

/// Writing a cell and reading it back. After `set(row, col, v)` the cell
/// `(row, col)` holds exactly `v` — so a following `get(row, col)` returns
/// `v` — and every other cell is untouched; `set`'s own contract adds that
/// it returned the prior value of that cell.
pub proof fn lemma_set_then_get<T>(m: TableModel<T>, row: int, col: int, v: T)
    requires
        m.grid_wf(),
        m.in_bounds(row, col),
    ensures
        set_cell_model(m, row, col, v).grid_wf(),
        set_cell_model(m, row, col, v).cell(row, col) == v,
        forall|r: int, c: int|
            m.in_bounds(r, c) && !(r == row && c == col) ==> set_cell_model(m, row, col, v).cell(
                r,
                c,
            ) == m.cell(r, c),
{
    lemma_offset_in_range(m, row, col);
    let after = set_cell_model(m, row, col, v);
    assert forall|r: int, c: int|
        m.in_bounds(r, c) && !(r == row && c == col) implies after.cell(r, c) == m.cell(r, c) by {
        lemma_offset_coords(m, r, c);
        lemma_offset_coords(m, row, col);
        lemma_offset_in_range(m, r, c);
    }
}

/// The concrete layout of a three-column, two-row, row-major table: the
/// first logical row is the first three physical elements, the second row
/// the next three, and the first logical column sits at physical offsets 0
/// and 3.
pub proof fn lemma_three_by_two_row_major<T>(m: TableModel<T>)
    requires
        m.grid_wf(),
        m.num_cols == 3,
        m.num_rows == 2,
        m.order == Order::RowMajor,
    ensures
        m.spec_row(0) == m.data.subrange(0, 3),
        m.spec_row(1) == m.data.subrange(3, 6),
        m.spec_col(0) == seq![m.data[0], m.data[3]],
{
    assert(m.spec_row(0) =~= m.data.subrange(0, 3));
    assert(m.spec_row(1) =~= m.data.subrange(3, 6));
    assert(m.spec_col(0) =~= seq![m.data[0], m.data[3]]);
}

/// Transposing twice restores the original table exactly: the same layout
/// tag, the same dimensions, and the identical flat buffer and metadata.
pub proof fn lemma_transpose_involutive<T>(m: TableModel<T>)
    ensures
        transposed_model(transposed_model(m)) == m,
{
    assert(transposed_model(transposed_model(m)) =~= m);
}

/// A transposition moves every cell to the swapped coordinate: the cell
/// read at `(col, row)` afterwards is the cell that sat at `(row, col)`
/// before.
pub proof fn lemma_transpose_cell<T>(m: TableModel<T>, row: int, col: int)
    requires
        m.grid_wf(),
        m.in_bounds(row, col),
    ensures
        transposed_model(m).grid_wf(),
        transposed_model(m).in_bounds(col, row),
        transposed_model(m).cell(col, row) == m.cell(row, col),
{
    assert(m.num_cols * m.num_rows == m.num_rows * m.num_cols) by (nonlinear_arith);
}

/// Appending a row at the tail of a row-major table and then removing the
/// row at that same index restores the table exactly: the row count, the
/// flat buffer, and the metadata are all back to what they were, and the
/// row that the removal hands back is the row that was pushed.
pub proof fn lemma_push_row_then_remove_row<T>(
    m: TableModel<T>,
    row_data: Seq<T>,
    after: TableModel<T>,
)
    requires
        m.grid_wf(),
        m.order == Order::RowMajor,
        row_data.len() == m.num_cols,
        removed_row_shape(pushed_row_model(m, row_data), m.num_rows as int, after),
    ensures
        after == m,
        pushed_row_model(m, row_data).spec_row(m.num_rows as int) == row_data,
{
    let p = pushed_row_model(m, row_data);
    assert(m.num_rows * m.num_cols == m.num_cols * m.num_rows) by (nonlinear_arith);
    assert forall|c: int| 0 <= c < m.num_cols implies p.cell(m.num_rows as int, c)
        == row_data[c] by {
        assert(p.offset(m.num_rows as int, c) == m.num_rows * m.num_cols + c);
    }
    assert(p.spec_row(m.num_rows as int) =~= row_data);
    assert forall|r: int, c: int| m.in_bounds(r, c) implies after.cell(r, c) == m.cell(r, c) by {
        lemma_offset_in_range(m, r, c);
        assert(after.cell(r, c) == p.cell(r, c));
        assert(p.offset(r, c) == m.offset(r, c));
    }
    lemma_cells_determine_data(after, m);
    assert(after =~= m);
}

/// A name resolves to at most one column: the first index at which the name
/// list holds a given name is unique, so every name-based operation acts on
/// one well-defined column.
pub proof fn lemma_first_match_unique(names: Seq<Seq<char>>, name: Seq<char>, i: int, j: int)
    requires
        is_first_match(names, name, i),
        is_first_match(names, name, j),
    ensures
        i == j,
{
    if i < j {
        assert(names[i] == name);
    }
    if j < i {
        assert(names[j] == name);
    }
}

} // verus!
