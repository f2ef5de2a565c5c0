//! Mathematical model of a table.
//!
//! A [`TableModel`] is the specification-level counterpart of
//! [`crate::table::Table`]: a flat sequence of elements together with the two
//! dimensions, the layout tag, and the column metadata. All contracts of the
//! executable operations are stated over this model. The single source of
//! truth for addressing is [`TableModel::offset`], which maps a logical
//! `(row, col)` coordinate to a position in the flat sequence according to
//! the active layout.

use vstd::arithmetic::div_mod::lemma_fundamental_div_mod;
use vstd::arithmetic::div_mod::lemma_fundamental_div_mod_converse;
use vstd::arithmetic::div_mod::lemma_mod_bound;
use vstd::prelude::*;

use crate::table::Order;

verus! {

/// The mathematical content of a table: the flat data sequence, the column
/// names and descriptions as character sequences, the two dimensions, and
/// the layout tag.
#[verifier::ext_equal]
pub struct TableModel<T> {
    /// The flat backing sequence, in physical order.
    pub data: Seq<T>,
    /// Name of each column, by column index.
    pub col_names: Seq<Seq<char>>,
    /// Description of each column, by column index.
    pub descriptions: Seq<Seq<char>>,
    /// Number of logical columns.
    pub num_cols: nat,
    /// Number of logical rows.
    pub num_rows: nat,
    /// The active layout.
    pub order: Order,
}

impl<T> TableModel<T> {
    /// The data is a `num_cols` by `num_rows` rectangle. This is all that
    /// element access needs, and it survives operations that put the column
    /// metadata out of step with the column count (`from_vec_with_order`
    /// with a mismatched name list, or a transposition of a non-square
    /// table).
    pub open spec fn grid_wf(self) -> bool {
        self.data.len() == self.num_cols * self.num_rows
    }

    /// Full well-formedness: the data is a `num_cols` by `num_rows`
    /// rectangle and both metadata lists have one entry per column.
    pub open spec fn wf(self) -> bool {
        &&& self.grid_wf()
        &&& self.col_names.len() == self.num_cols
        &&& self.descriptions.len() == self.num_cols
    }

    /// Physical position of the logical cell `(row, col)` in the flat data:
    /// `row * num_cols + col` under `RowMajor`, `col * num_rows + row` under
    /// `ColumnMajor`.
    pub open spec fn offset(self, row: int, col: int) -> int {
        if self.order == Order::RowMajor {
            row * self.num_cols + col
        } else {
            col * self.num_rows + row
        }
    }

    /// The element at logical coordinate `(row, col)`.
    pub open spec fn cell(self, row: int, col: int) -> T {
        self.data[self.offset(row, col)]
    }

    /// The logical row at the given index, read cell by cell.
    pub open spec fn spec_row(self, row: int) -> Seq<T> {
        Seq::new(self.num_cols, |col: int| self.cell(row, col))
    }

    /// The logical column at the given index, read cell by cell.
    pub open spec fn spec_col(self, col: int) -> Seq<T> {
        Seq::new(self.num_rows, |row: int| self.cell(row, col))
    }

    /// The logical row that the physical position `k` belongs to.
    pub open spec fn row_of_offset(self, k: int) -> int {
        if self.order == Order::RowMajor {
            k / self.num_cols as int
        } else {
            k % self.num_rows as int
        }
    }

    /// The logical column that the physical position `k` belongs to.
    pub open spec fn col_of_offset(self, k: int) -> int {
        if self.order == Order::RowMajor {
            k % self.num_cols as int
        } else {
            k / self.num_rows as int
        }
    }

    /// Whether `(row, col)` is a valid logical coordinate.
    pub open spec fn in_bounds(self, row: int, col: int) -> bool {
        0 <= row < self.num_rows && 0 <= col < self.num_cols
    }
}

/// `n` empty descriptions, the default annotation of `n` fresh columns.
pub open spec fn blank_descriptions(n: nat) -> Seq<Seq<char>> {
    Seq::new(n, |i: int| Seq::<char>::empty())
}

/// The model after writing `v` into the logical cell `(row, col)`:
/// only the data entry at the cell's offset changes.
pub open spec fn set_cell_model<T>(m: TableModel<T>, row: int, col: int, v: T) -> TableModel<T> {
    TableModel { data: m.data.update(m.offset(row, col), v), ..m }
}

/// The model after a transposition: the layout tag is toggled and the
/// dimensions are swapped, while the data and the metadata stay untouched.
pub open spec fn transposed_model<T>(m: TableModel<T>) -> TableModel<T> {
    TableModel {
        num_cols: m.num_rows,
        num_rows: m.num_cols,
        order: m.order.toggled(),
        ..m
    }
}

/// The model after appending one row at the tail of the physical buffer.
/// This matches `push_row`, which appends at the tail whatever the active
/// layout is; the appended elements form the new last logical row only
/// under `RowMajor`.
pub open spec fn pushed_row_model<T>(m: TableModel<T>, row_data: Seq<T>) -> TableModel<T> {
    TableModel { data: m.data + row_data, num_rows: m.num_rows + 1, ..m }
}

/// The model after appending one column at the tail of the physical buffer,
/// together with its name and an empty description. This matches
/// `push_col`, which appends at the tail whatever the active layout is; the
/// appended elements form the new last logical column only under
/// `ColumnMajor`.
pub open spec fn pushed_col_model<T>(m: TableModel<T>, name: Seq<char>, col_data: Seq<T>) -> TableModel<T> {
    TableModel {
        data: m.data + col_data,
        col_names: m.col_names.push(name),
        descriptions: m.descriptions.push(Seq::empty()),
        num_cols: m.num_cols + 1,
        ..m
    }
}

/// What `remove_row` leaves behind: one row fewer, all other dimensions and
/// the metadata unchanged, and every remaining cell holding the value it
/// held before, with the rows above the removed one shifted down by one.
pub open spec fn removed_row_shape<T>(m: TableModel<T>, row: int, after: TableModel<T>) -> bool {
    &&& after.num_cols == m.num_cols
    &&& after.num_rows + 1 == m.num_rows
    &&& after.order == m.order
    &&& after.col_names == m.col_names
    &&& after.descriptions == m.descriptions
    &&& after.data.len() == after.num_cols * after.num_rows
    &&& forall|r: int, c: int|
        after.in_bounds(r, c) ==> after.cell(r, c) == m.cell(
            if r < row {
                r
            } else {
                r + 1
            },
            c,
        )
}

/// What `remove_col` leaves behind: one column fewer, the matching name and
/// description removed, and every remaining cell holding the value it held
/// before, with the columns to the right of the removed one shifted left by
/// one.
pub open spec fn removed_col_shape<T>(m: TableModel<T>, col: int, after: TableModel<T>) -> bool {
    &&& after.num_rows == m.num_rows
    &&& after.num_cols + 1 == m.num_cols
    &&& after.order == m.order
    &&& after.col_names == m.col_names.remove(col)
    &&& after.descriptions == m.descriptions.remove(col)
    &&& after.data.len() == after.num_cols * after.num_rows
    &&& forall|r: int, c: int|
        after.in_bounds(r, c) ==> after.cell(r, c) == m.cell(
            r,
            if c < col {
                c
            } else {
                c + 1
            },
        )
}

/// Whether some entry of `names` equals `name`.
pub open spec fn has_match(names: Seq<Seq<char>>, name: Seq<char>) -> bool {
    exists|i: int| 0 <= i < names.len() && names[i] == name
}

/// Whether `i` is the first index at which `names` holds `name`. Name-based
/// lookups resolve to this index; it is unique when it exists.
pub open spec fn is_first_match(names: Seq<Seq<char>>, name: Seq<char>, i: int) -> bool {
    &&& 0 <= i < names.len()
    &&& names[i] == name
    &&& forall|j: int| 0 <= j < i ==> names[j] != name
}

/// What replacing the column at index `col` by `col_data` leaves behind:
/// the dimensions, the layout, and the metadata unchanged, the cells of
/// that column holding `col_data`, and every other cell untouched.
pub open spec fn col_replaced<T>(
    m: TableModel<T>,
    col: int,
    col_data: Seq<T>,
    after: TableModel<T>,
) -> bool {
    &&& after.num_cols == m.num_cols
    &&& after.num_rows == m.num_rows
    &&& after.order == m.order
    &&& after.col_names == m.col_names
    &&& after.descriptions == m.descriptions
    &&& after.data.len() == m.data.len()
    &&& forall|r: int| 0 <= r < m.num_rows ==> after.cell(r, col) == col_data[r]
    &&& forall|r: int, c: int|
        m.in_bounds(r, c) && c != col ==> after.cell(r, c) == m.cell(r, c)
}

/// What replacing the row at index `row` by `row_data` leaves behind:
/// symmetric to [`col_replaced`].
pub open spec fn row_replaced<T>(
    m: TableModel<T>,
    row: int,
    row_data: Seq<T>,
    after: TableModel<T>,
) -> bool {
    &&& after.num_cols == m.num_cols
    &&& after.num_rows == m.num_rows
    &&& after.order == m.order
    &&& after.col_names == m.col_names
    &&& after.descriptions == m.descriptions
    &&& after.data.len() == m.data.len()
    &&& forall|c: int| 0 <= c < m.num_cols ==> after.cell(row, c) == row_data[c]
    &&& forall|r: int, c: int|
        m.in_bounds(r, c) && r != row ==> after.cell(r, c) == m.cell(r, c)
}

/// The model of a table after dropping the column at index `col`, with
/// `data` as the rebuilt flat buffer.
pub open spec fn shrunk_col_model<T>(m: TableModel<T>, data: Seq<T>, col: int) -> TableModel<T> {
    TableModel {
        data: data,
        col_names: m.col_names.remove(col),
        descriptions: m.descriptions.remove(col),
        num_cols: (m.num_cols - 1) as nat,
        ..m
    }
}

/// The model of a table after dropping one row, with `data` as the rebuilt
/// flat buffer.
pub open spec fn shrunk_row_model<T>(m: TableModel<T>, data: Seq<T>) -> TableModel<T> {
    TableModel { data: data, num_rows: (m.num_rows - 1) as nat, ..m }
}

/// The offset of a valid coordinate lies inside the data sequence.
pub proof fn lemma_offset_in_range<T>(m: TableModel<T>, row: int, col: int)
    requires
        m.in_bounds(row, col),
    ensures
        0 <= m.offset(row, col) < m.num_cols * m.num_rows,
{
    assert(0 <= m.offset(row, col) < m.num_cols * m.num_rows) by (nonlinear_arith)
        requires
            0 <= row < m.num_rows,
            0 <= col < m.num_cols,
            m.offset(row, col) == if m.order == Order::RowMajor {
                row * m.num_cols + col
            } else {
                col * m.num_rows + row
            },
    ;
}

/// Offsets can be inverted: the row and column recovered from
/// `offset(row, col)` are `row` and `col` themselves. In particular the
/// offset map is injective on valid coordinates.
pub proof fn lemma_offset_coords<T>(m: TableModel<T>, row: int, col: int)
    requires
        m.in_bounds(row, col),
    ensures
        m.row_of_offset(m.offset(row, col)) == row,
        m.col_of_offset(m.offset(row, col)) == col,
{
    if m.order == Order::RowMajor {
        lemma_fundamental_div_mod_converse(
            row * m.num_cols + col,
            m.num_cols as int,
            row,
            col,
        );
    } else {
        lemma_fundamental_div_mod_converse(
            col * m.num_rows + row,
            m.num_rows as int,
            col,
            row,
        );
    }
}

/// Every physical position is the offset of exactly one valid coordinate,
/// recovered by `row_of_offset` and `col_of_offset`.
pub proof fn lemma_coords_of_offset<T>(m: TableModel<T>, k: int)
    requires
        0 <= k < m.num_cols * m.num_rows,
    ensures
        m.in_bounds(m.row_of_offset(k), m.col_of_offset(k)),
        m.offset(m.row_of_offset(k), m.col_of_offset(k)) == k,
{
    if m.order == Order::RowMajor {
        assert(m.num_cols > 0) by (nonlinear_arith)
            requires
                0 <= k < m.num_cols * m.num_rows,
        ;
        let c = m.num_cols as int;
        lemma_fundamental_div_mod(k, c);
        lemma_mod_bound(k, c);
        assert(k / c < m.num_rows) by (nonlinear_arith)
            requires
                c > 0,
                0 <= k < c * m.num_rows,
                k == c * (k / c) + k % c,
                0 <= k % c < c,
        ;
        assert(k / c >= 0) by (nonlinear_arith)
            requires
                c > 0,
                k >= 0,
                k == c * (k / c) + k % c,
                0 <= k % c < c,
        ;
    } else {
        assert(m.num_rows > 0) by (nonlinear_arith)
            requires
                0 <= k < m.num_cols * m.num_rows,
        ;
        let r = m.num_rows as int;
        lemma_fundamental_div_mod(k, r);
        lemma_mod_bound(k, r);
        assert(k / r < m.num_cols) by (nonlinear_arith)
            requires
                r > 0,
                0 <= k < m.num_cols * r,
                k == r * (k / r) + k % r,
                0 <= k % r < r,
        ;
        assert(k / r >= 0) by (nonlinear_arith)
            requires
                r > 0,
                k >= 0,
                k == r * (k / r) + k % r,
                0 <= k % r < r,
        ;
    }
}

/// Two tables with the same dimensions, the same layout, and the same value
/// in every logical cell have identical flat data.
pub proof fn lemma_cells_determine_data<T>(m1: TableModel<T>, m2: TableModel<T>)
    requires
        m1.data.len() == m1.num_cols * m1.num_rows,
        m2.data.len() == m2.num_cols * m2.num_rows,
        m1.num_cols == m2.num_cols,
        m1.num_rows == m2.num_rows,
        m1.order == m2.order,
        forall|row: int, col: int|
            m1.in_bounds(row, col) ==> m1.cell(row, col) == m2.cell(row, col),
    ensures
        m1.data == m2.data,
{
    assert forall|k: int| 0 <= k < m1.data.len() implies m1.data[k] == m2.data[k] by {
        lemma_coords_of_offset(m1, k);
        let row = m1.row_of_offset(k);
        let col = m1.col_of_offset(k);
        assert(m1.cell(row, col) == m2.cell(row, col));
    }
    assert(m1.data =~= m2.data);
}

} // verus!
