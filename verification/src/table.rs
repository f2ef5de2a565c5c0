//! The flat-buffer table and its layout-aware operations.

use vstd::pervasive::VecAdditionalExecFns;
use vstd::prelude::*;

use crate::model::blank_descriptions;
use crate::model::col_replaced;
use crate::model::has_match;
use crate::model::is_first_match;
use crate::model::lemma_offset_coords;
use crate::model::lemma_offset_in_range;
use crate::model::pushed_col_model;
use crate::model::pushed_row_model;
use crate::model::removed_col_shape;
use crate::model::removed_row_shape;
use crate::model::row_replaced;
use crate::model::set_cell_model;
use crate::model::shrunk_col_model;
use crate::model::shrunk_row_model;
use crate::model::transposed_model;
use crate::model::TableModel;
use crate::text::str_eq;

verus! {

/// The ways a table construction or extension can fail.
#[derive(Clone, Copy, Debug, PartialEq, Eq, Structural)]
pub enum TableError {
    /// The supplied data length is not divisible by the declared column
    /// count, so the data cannot form a rectangle.
    InvalidNumberOfColumns,
    /// The number of supplied column names differs from the declared column
    /// count.
    InvalidNumberOfColumnNames,
    /// A row or column being inserted has the wrong number of elements.
    InvalidNumberOfElements,
}

/// The physical layout of the flat buffer: which index varies slowest.
#[derive(Clone, Copy, Debug, PartialEq, Eq, Structural)]
pub enum Order {
    /// The row index varies slowest: the elements of a row are contiguous.
    RowMajor,
    /// The column index varies slowest: the elements of a column are
    /// contiguous.
    ColumnMajor,
}

impl Order {
    /// The opposite layout.
    pub open spec fn toggled(self) -> Order {
        match self {
            Order::RowMajor => Order::ColumnMajor,
            Order::ColumnMajor => Order::RowMajor,
        }
    }

    /// Toggles the layout in place.
    pub fn swap(&mut self)
        ensures
            *final(self) == old(self).toggled(),
    {
        *self = match *self {
            Order::RowMajor => Order::ColumnMajor,
            Order::ColumnMajor => Order::RowMajor,
        };
    }
}

/// A two-dimensional table of `T` stored in one contiguous buffer.
///
/// The logical cell `(row, col)` lives at physical offset
/// `row * num_cols + col` when the layout is [`Order::RowMajor`] and at
/// `col * num_rows + row` when it is [`Order::ColumnMajor`]. Columns carry a
/// name and a free-form description, both kept in sequences parallel to the
/// column indices.
pub struct Table<T> {
    col_names: Vec<String>,
    descriptions: Vec<String>,
    data: Vec<T>,
    num_cols: usize,
    num_rows: usize,
    order: Order,
}

impl<T> View for Table<T> {
    type V = TableModel<T>;

    closed spec fn view(&self) -> TableModel<T> {
        TableModel {
            data: self.data@,
            col_names: self.col_names.deep_view(),
            descriptions: self.descriptions.deep_view(),
            num_cols: self.num_cols as nat,
            num_rows: self.num_rows as nat,
            order: self.order,
        }
    }
}

impl<T: Default + Clone + Copy> Table<T> {
    /// Creates an empty zero-by-zero table with a row-major layout.
    pub fn new() -> (t: Table<T>)
        ensures
            t@.wf(),
            t@.data == Seq::<T>::empty(),
            t@.col_names == Seq::<Seq<char>>::empty(),
            t@.descriptions == Seq::<Seq<char>>::empty(),
            t@.num_cols == 0,
            t@.num_rows == 0,
            t@.order == Order::RowMajor,
    {
        let t = Table {
            col_names: Vec::new(),
            descriptions: Vec::new(),
            data: Vec::new(),
            num_cols: 0,
            num_rows: 0,
            order: Order::RowMajor,
        };
        proof {
            assert(t@.col_names =~= Seq::<Seq<char>>::empty());
            assert(t@.descriptions =~= Seq::<Seq<char>>::empty());
            assert(t@.num_cols * t@.num_rows == 0) by (nonlinear_arith)
                requires
                    t@.num_cols == 0,
            ;
        }
        t
    }

    /// A vector of `n` empty strings, for the initial column descriptions.
    fn empty_descriptions(n: usize) -> (v: Vec<String>)
        ensures
            v.deep_view() == blank_descriptions(n as nat),
    {
        let mut v: Vec<String> = Vec::new();
        let mut i: usize = 0;
        while i < n
            invariant
                i <= n,
                v@.len() == i,
                forall|j: int| 0 <= j < i ==> v@[j]@ == Seq::<char>::empty(),
            decreases n - i,
        {
            v.push(String::new());
            i += 1;
        }
        proof {
            assert(v.deep_view() =~= blank_descriptions(n as nat));
        }
        v
    }

    /// Creates a `num_cols` by `num_rows` table filled with the default
    /// value of `T`, under a row-major layout. Fails with
    /// `InvalidNumberOfColumnNames` when the name count does not match the
    /// column count; descriptions start out empty.
    pub fn new_sized(num_cols: usize, num_rows: usize, col_names: Vec<String>) -> (result: Result<
        Table<T>,
        TableError,
    >)
        requires
            num_cols * num_rows <= usize::MAX,
        ensures
            match result {
                Ok(t) => {
                    &&& col_names@.len() == num_cols
                    &&& t@.wf()
                    &&& t@.num_cols == num_cols
                    &&& t@.num_rows == num_rows
                    &&& t@.order == Order::RowMajor
                    &&& t@.col_names == col_names.deep_view()
                    &&& t@.descriptions == blank_descriptions(num_cols as nat)
                    &&& t@.data.len() == num_cols * num_rows
                    &&& forall|i: int|
                        0 <= i < t@.data.len() ==> call_ensures(
                            T::default,
                            (),
                            #[trigger] t@.data[i],
                        )
                    &&& forall|i: int, j: int|
                        0 <= i < t@.data.len() && 0 <= j < t@.data.len() ==> t@.data[i]
                            == t@.data[j]
                },
                Err(e) => e == TableError::InvalidNumberOfColumnNames && col_names@.len()
                    != num_cols,
            },
    {
        if col_names.len() != num_cols {
            return Err(TableError::InvalidNumberOfColumnNames);
        }
        let fill = T::default();
        let total = num_cols * num_rows;
        let mut data: Vec<T> = Vec::new();
        let mut i: usize = 0;
        while i < total
            invariant
                i <= total,
                data@.len() == i,
                forall|j: int| 0 <= j < i ==> data@[j] == fill,
            decreases total - i,
        {
            data.push(fill);
            i += 1;
        }
        Ok(Table {
            col_names,
            descriptions: Self::empty_descriptions(num_cols),
            data,
            num_cols,
            num_rows,
            order: Order::RowMajor,
        })
    }

    /// Wraps a caller-supplied flat buffer as a row-major table. Fails with
    /// `InvalidNumberOfColumns` when the data length is not divisible by
    /// `num_cols`, and with `InvalidNumberOfColumnNames` when the name count
    /// does not match `num_cols`; the row count is derived from the data
    /// length.
    pub fn from_vec(data: Vec<T>, num_cols: usize, col_names: Vec<String>) -> (result: Result<
        Table<T>,
        TableError,
    >)
        requires
            num_cols >= 1,
        ensures
            match result {
                Ok(t) => {
                    &&& data@.len() % (num_cols as nat) == 0
                    &&& col_names@.len() == num_cols
                    &&& t@.wf()
                    &&& t@.data == data@
                    &&& t@.num_cols == num_cols
                    &&& t@.num_rows == data@.len() / (num_cols as nat)
                    &&& t@.order == Order::RowMajor
                    &&& t@.col_names == col_names.deep_view()
                    &&& t@.descriptions == blank_descriptions(num_cols as nat)
                },
                Err(TableError::InvalidNumberOfColumns) => data@.len() % (num_cols as nat) != 0,
                Err(TableError::InvalidNumberOfColumnNames) => data@.len() % (num_cols as nat)
                    == 0 && col_names@.len() != num_cols,
                Err(TableError::InvalidNumberOfElements) => false,
            },
    {
        if data.len() % num_cols != 0 {
            return Err(TableError::InvalidNumberOfColumns);
        }
        if col_names.len() != num_cols {
            return Err(TableError::InvalidNumberOfColumnNames);
        }
        let num_rows = data.len() / num_cols;
        proof {
            vstd::arithmetic::div_mod::lemma_fundamental_div_mod(
                data@.len() as int,
                num_cols as int,
            );
        }
        Ok(Table {
            col_names,
            descriptions: Self::empty_descriptions(num_cols),
            data,
            num_cols,
            num_rows,
            order: Order::RowMajor,
        })
    }

    /// Wraps a caller-supplied flat buffer under a caller-chosen layout.
    /// Fails with `InvalidNumberOfColumns` when the data length is not
    /// divisible by `num_cols`. Unlike `from_vec`, this variant does not
    /// validate the name count against `num_cols`: the returned table is
    /// fully well-formed only when the caller supplied exactly `num_cols`
    /// names.
    pub fn from_vec_with_order(
        data: Vec<T>,
        num_cols: usize,
        col_names: Vec<String>,
        order: Order,
    ) -> (result: Result<Table<T>, TableError>)
        requires
            num_cols >= 1,
        ensures
            match result {
                Ok(t) => {
                    &&& data@.len() % (num_cols as nat) == 0
                    &&& t@.grid_wf()
                    &&& t@.data == data@
                    &&& t@.num_cols == num_cols
                    &&& t@.num_rows == data@.len() / (num_cols as nat)
                    &&& t@.order == order
                    &&& t@.col_names == col_names.deep_view()
                    &&& t@.descriptions == blank_descriptions(num_cols as nat)
                    &&& col_names@.len() == num_cols ==> t@.wf()
                },
                Err(e) => e == TableError::InvalidNumberOfColumns && data@.len() % (
                num_cols as nat) != 0,
            },
    {
        if data.len() % num_cols != 0 {
            return Err(TableError::InvalidNumberOfColumns);
        }
        let num_rows = data.len() / num_cols;
        proof {
            vstd::arithmetic::div_mod::lemma_fundamental_div_mod(
                data@.len() as int,
                num_cols as int,
            );
        }
        Ok(Table {
            col_names,
            descriptions: Self::empty_descriptions(num_cols),
            data,
            num_cols,
            num_rows,
            order,
        })
    }

    /// The number of logical columns.
    pub fn num_cols(&self) -> (n: usize)
        ensures
            n == self@.num_cols,
    {
        self.num_cols
    }

    /// The number of logical rows.
    pub fn num_rows(&self) -> (n: usize)
        ensures
            n == self@.num_rows,
    {
        self.num_rows
    }

    /// The active layout.
    pub fn order(&self) -> (o: Order)
        ensures
            o == self@.order,
    {
        self.order
    }

    /// Physical offset of the logical cell `(row, col)` under the active
    /// layout.
    fn offset_of(&self, row: usize, col: usize) -> (off: usize)
        requires
            self@.grid_wf(),
            row < self@.num_rows,
            col < self@.num_cols,
        ensures
            off == self@.offset(row as int, col as int),
            off < self@.data.len(),
    {
        proof {
            lemma_offset_in_range(self@, row as int, col as int);
        }
        // reading the length hands the prover `data.len() <= usize::MAX`, the
        // bound that makes the offset arithmetic below overflow-free
        let len = self.data.len();
        match self.order {
            Order::RowMajor => row * self.num_cols + col,
            Order::ColumnMajor => col * self.num_rows + row,
        }
    }

    /// Copies the logical row at the given index, cell by cell, or returns
    /// `None` when the index is out of range. Under `RowMajor` the copied
    /// elements are contiguous in the buffer; under `ColumnMajor` they are
    /// strided, one from each column.
    pub fn row(&self, row: usize) -> (result: Option<Vec<T>>)
        requires
            self@.grid_wf(),
        ensures
            match result {
                Some(v) => row < self@.num_rows && v@ == self@.spec_row(row as int),
                None => row >= self@.num_rows,
            },
    {
        if row >= self.num_rows {
            return None;
        }
        let mut out: Vec<T> = Vec::new();
        let mut c: usize = 0;
        while c < self.num_cols
            invariant
                self@.grid_wf(),
                row < self@.num_rows,
                c <= self@.num_cols,
                out@.len() == c,
                forall|j: int| 0 <= j < c ==> out@[j] == self@.cell(row as int, j),
            decreases self@.num_cols - c,
        {
            let off = self.offset_of(row, c);
            out.push(self.data[off]);
            c += 1;
        }
        proof {
            assert(out@ =~= self@.spec_row(row as int));
        }
        Some(out)
    }

    /// Copies the logical column at the given index, cell by cell, or
    /// returns `None` when the index is out of range. Under `ColumnMajor`
    /// the copied elements are contiguous in the buffer; under `RowMajor`
    /// they are strided, one from each row.
    pub fn col(&self, col: usize) -> (result: Option<Vec<T>>)
        requires
            self@.grid_wf(),
        ensures
            match result {
                Some(v) => col < self@.num_cols && v@ == self@.spec_col(col as int),
                None => col >= self@.num_cols,
            },
    {
        if col >= self.num_cols {
            return None;
        }
        let mut out: Vec<T> = Vec::new();
        let mut r: usize = 0;
        while r < self.num_rows
            invariant
                self@.grid_wf(),
                col < self@.num_cols,
                r <= self@.num_rows,
                out@.len() == r,
                forall|j: int| 0 <= j < r ==> out@[j] == self@.cell(j, col as int),
            decreases self@.num_rows - r,
        {
            let off = self.offset_of(r, col);
            out.push(self.data[off]);
            r += 1;
        }
        proof {
            assert(out@ =~= self@.spec_col(col as int));
        }
        Some(out)
    }

    /// The name of the column at the given index, or `None` when the index
    /// is out of range (of the column count, or of the name list when the
    /// two disagree).
    pub fn col_name(&self, col: usize) -> (result: Option<&str>)
        ensures
            match result {
                Some(s) => col < self@.num_cols && col < self@.col_names.len() && s@
                    == self@.col_names[col as int],
                None => col >= self@.num_cols || col >= self@.col_names.len(),
            },
    {
        if col >= self.num_cols || col >= self.col_names.len() {
            return None;
        }
        Some(self.col_names[col].as_str())
    }

    /// The description of the column at the given index, or `None` when the
    /// index is out of range (of the column count, or of the description
    /// list when the two disagree).
    pub fn col_description(&self, col: usize) -> (result: Option<&str>)
        ensures
            match result {
                Some(s) => col < self@.num_cols && col < self@.descriptions.len() && s@
                    == self@.descriptions[col as int],
                None => col >= self@.num_cols || col >= self@.descriptions.len(),
            },
    {
        if col >= self.num_cols || col >= self.descriptions.len() {
            return None;
        }
        Some(self.descriptions[col].as_str())
    }

    /// All column names, in column order.
    pub fn col_names(&self) -> (names: &Vec<String>)
        ensures
            names.deep_view() == self@.col_names,
    {
        &self.col_names
    }

    /// All column descriptions, in column order.
    pub fn col_descriptions(&self) -> (descriptions: &Vec<String>)
        ensures
            descriptions.deep_view() == self@.descriptions,
    {
        &self.descriptions
    }

    /// Consumes the table and hands the flat backing buffer, in physical
    /// order, to the caller.
    pub fn into_vec(self) -> (data: Vec<T>)
        ensures
            data@ == self@.data,
    {
        self.data
    }

    /// Consumes the table and hands the flat backing buffer and the column
    /// names to the caller.
    pub fn into_vec_with_names(self) -> (result: (Vec<T>, Vec<String>))
        ensures
            result.0@ == self@.data,
            result.1.deep_view() == self@.col_names,
    {
        (self.data, self.col_names)
    }

    /// A view of the entire backing buffer in physical order (not logical
    /// row or column order unless the layout happens to align).
    pub fn iter(&self) -> (elements: &[T])
        ensures
            elements@ == self@.data,
    {
        self.data.as_slice()
    }

    /// Reads the cell at `(row, col)`, or returns `None` when either index
    /// is out of range.
    pub fn get(&self, row: usize, col: usize) -> (result: Option<&T>)
        requires
            self@.grid_wf(),
        ensures
            match result {
                Some(v) => self@.in_bounds(row as int, col as int) && *v == self@.cell(
                    row as int,
                    col as int,
                ),
                None => !self@.in_bounds(row as int, col as int),
            },
    {
        if row >= self.num_rows || col >= self.num_cols {
            return None;
        }
        let off = self.offset_of(row, col);
        Some(&self.data[off])
    }

    /// Reads the cell at `(row, col)` without a run-time bounds check. The
    /// precondition demands that the caller has proven both indices in
    /// range, so skipping the check is safe rather than undefined.
    pub fn get_unchecked(&self, row: usize, col: usize) -> (v: &T)
        requires
            self@.grid_wf(),
            self@.in_bounds(row as int, col as int),
        ensures
            *v == self@.cell(row as int, col as int),
    {
        let off = self.offset_of(row, col);
        &self.data[off]
    }

    /// Replaces the cell at `(row, col)` and returns the previous value, or
    /// returns `None` and changes nothing when either index is out of range.
    pub fn set(&mut self, row: usize, col: usize, value: T) -> (result: Option<T>)
        requires
            old(self)@.grid_wf(),
        ensures
            final(self)@.grid_wf(),
            match result {
                Some(prev) => {
                    &&& old(self)@.in_bounds(row as int, col as int)
                    &&& prev == old(self)@.cell(row as int, col as int)
                    &&& final(self)@ == set_cell_model(old(self)@, row as int, col as int, value)
                },
                None => {
                    &&& !old(self)@.in_bounds(row as int, col as int)
                    &&& final(self)@ == old(self)@
                },
            },
    {
        if row >= self.num_rows || col >= self.num_cols {
            return None;
        }
        let off = self.offset_of(row, col);
        let mut prev = value;
        self.data.set_and_swap(off, &mut prev);
        proof {
            assert(self@ =~= set_cell_model(old(self)@, row as int, col as int, value));
        }
        Some(prev)
    }

    /// Flips the layout tag and swaps the dimensions. The flat buffer and
    /// the column metadata are untouched: the same bytes are merely
    /// reinterpreted, so every cell moves to the transposed coordinate and
    /// the names keep their old positions (their semantic role flips).
    pub fn transpose(&mut self)
        requires
            old(self)@.grid_wf(),
        ensures
            final(self)@ == transposed_model(old(self)@),
            final(self)@.grid_wf(),
            forall|r: int, c: int|
                old(self)@.in_bounds(r, c) ==> #[trigger] final(self)@.cell(c, r) == old(
                    self,
                )@.cell(r, c),
    {
        self.order.swap();
        let tmp = self.num_cols;
        self.num_cols = self.num_rows;
        self.num_rows = tmp;
        proof {
            assert(self@ =~= transposed_model(old(self)@));
            let rows = old(self)@.num_rows;
            let cols = old(self)@.num_cols;
            assert(cols * rows == rows * cols) by (nonlinear_arith);
        }
    }

    /// The index of the first column whose name equals `name`, scanning the
    /// name list from the front.
    fn find_col_index(&self, name: &str) -> (result: Option<usize>)
        ensures
            match result {
                Some(i) => i < self@.col_names.len() && is_first_match(
                    self@.col_names,
                    name@,
                    i as int,
                ),
                None => !has_match(self@.col_names, name@),
            },
    {
        let n = self.col_names.len();
        let mut i: usize = 0;
        while i < n
            invariant
                n == self@.col_names.len(),
                i <= n,
                forall|j: int| 0 <= j < i ==> self@.col_names[j] != name@,
            decreases n - i,
        {
            if str_eq(self.col_names[i].as_str(), name) {
                return Some(i);
            }
            i += 1;
        }
        None
    }

    /// Copies the column whose name first matches `name`, or returns `None`
    /// when no column bears that name.
    pub fn col_by_name(&self, name: &str) -> (result: Option<Vec<T>>)
        requires
            self@.wf(),
        ensures
            match result {
                Some(v) => exists|i: int|
                    is_first_match(self@.col_names, name@, i) && v@ == self@.spec_col(i),
                None => !has_match(self@.col_names, name@),
            },
    {
        match self.find_col_index(name) {
            Some(i) => self.col(i),
            None => None,
        }
    }

    /// Replaces the cells of the column at the given index by `col_data`
    /// and returns the previous column contents, or returns `None` and
    /// changes nothing when the index is out of range or the supplied data
    /// does not hold exactly one element per row.
    pub fn set_col(&mut self, col: usize, col_data: &[T]) -> (result: Option<Vec<T>>)
        requires
            old(self)@.grid_wf(),
        ensures
            final(self)@.grid_wf(),
            match result {
                Some(prev) => {
                    &&& col < old(self)@.num_cols
                    &&& col_data@.len() == old(self)@.num_rows
                    &&& prev@ == old(self)@.spec_col(col as int)
                    &&& col_replaced(old(self)@, col as int, col_data@, final(self)@)
                },
                None => {
                    &&& col >= old(self)@.num_cols || col_data@.len() != old(self)@.num_rows
                    &&& final(self)@ == old(self)@
                },
            },
    {
        if col >= self.num_cols || col_data.len() != self.num_rows {
            return None;
        }
        let mut prev: Vec<T> = Vec::new();
        let mut r: usize = 0;
        while r < self.num_rows
            invariant
                self@.grid_wf(),
                self@.num_cols == old(self)@.num_cols,
                self@.num_rows == old(self)@.num_rows,
                self@.order == old(self)@.order,
                self@.col_names == old(self)@.col_names,
                self@.descriptions == old(self)@.descriptions,
                self@.data.len() == old(self)@.data.len(),
                col < self@.num_cols,
                col_data@.len() == self@.num_rows,
                r <= self@.num_rows,
                prev@.len() == r,
                forall|j: int| 0 <= j < r ==> prev@[j] == old(self)@.cell(j, col as int),
                forall|j: int| 0 <= j < r ==> self@.cell(j, col as int) == col_data@[j],
                forall|rr: int, cc: int|
                    self@.in_bounds(rr, cc) && (cc != col || rr >= r) ==> self@.cell(rr, cc)
                        == old(self)@.cell(rr, cc),
            decreases self@.num_rows - r,
        {
            let off = self.offset_of(r, col);
            let ghost pre = self@;
            let mut tmp = col_data[r];
            self.data.set_and_swap(off, &mut tmp);
            prev.push(tmp);
            proof {
                assert forall|rr: int, cc: int| pre.in_bounds(rr, cc) implies self@.offset(rr, cc)
                    == pre.offset(rr, cc) && (!(rr == r && cc == col) ==> self@.cell(rr, cc)
                    == pre.cell(rr, cc)) by {
                    lemma_offset_coords(pre, rr, cc);
                    lemma_offset_coords(pre, r as int, col as int);
                    lemma_offset_in_range(pre, rr, cc);
                    lemma_offset_in_range(pre, r as int, col as int);
                    assert(self@.offset(rr, cc) == pre.offset(rr, cc));
                    if !(rr == r as int && cc == col as int) {
                        assert(pre.offset(rr, cc) != pre.offset(r as int, col as int));
                    }
                }
                assert(self@.cell(r as int, col as int) == col_data@[r as int]);
            }
            r += 1;
        }
        proof {
            assert(prev@ =~= old(self)@.spec_col(col as int));
        }
        Some(prev)
    }

    /// Replaces the cells of the row at the given index by `row_data` and
    /// returns the previous row contents, or returns `None` and changes
    /// nothing when the index is out of range or the supplied data does not
    /// hold exactly one element per column.
    pub fn set_row(&mut self, row: usize, row_data: &[T]) -> (result: Option<Vec<T>>)
        requires
            old(self)@.grid_wf(),
        ensures
            final(self)@.grid_wf(),
            match result {
                Some(prev) => {
                    &&& row < old(self)@.num_rows
                    &&& row_data@.len() == old(self)@.num_cols
                    &&& prev@ == old(self)@.spec_row(row as int)
                    &&& row_replaced(old(self)@, row as int, row_data@, final(self)@)
                },
                None => {
                    &&& row >= old(self)@.num_rows || row_data@.len() != old(self)@.num_cols
                    &&& final(self)@ == old(self)@
                },
            },
    {
        if row >= self.num_rows || row_data.len() != self.num_cols {
            return None;
        }
        let mut prev: Vec<T> = Vec::new();
        let mut c: usize = 0;
        while c < self.num_cols
            invariant
                self@.grid_wf(),
                self@.num_cols == old(self)@.num_cols,
                self@.num_rows == old(self)@.num_rows,
                self@.order == old(self)@.order,
                self@.col_names == old(self)@.col_names,
                self@.descriptions == old(self)@.descriptions,
                self@.data.len() == old(self)@.data.len(),
                row < self@.num_rows,
                row_data@.len() == self@.num_cols,
                c <= self@.num_cols,
                prev@.len() == c,
                forall|j: int| 0 <= j < c ==> prev@[j] == old(self)@.cell(row as int, j),
                forall|j: int| 0 <= j < c ==> self@.cell(row as int, j) == row_data@[j],
                forall|rr: int, cc: int|
                    self@.in_bounds(rr, cc) && (rr != row || cc >= c) ==> self@.cell(rr, cc)
                        == old(self)@.cell(rr, cc),
            decreases self@.num_cols - c,
        {
            let off = self.offset_of(row, c);
            let ghost pre = self@;
            let mut tmp = row_data[c];
            self.data.set_and_swap(off, &mut tmp);
            prev.push(tmp);
            proof {
                assert forall|rr: int, cc: int| pre.in_bounds(rr, cc) implies self@.offset(rr, cc)
                    == pre.offset(rr, cc) && (!(rr == row && cc == c) ==> self@.cell(rr, cc)
                    == pre.cell(rr, cc)) by {
                    lemma_offset_coords(pre, rr, cc);
                    lemma_offset_coords(pre, row as int, c as int);
                    lemma_offset_in_range(pre, rr, cc);
                    lemma_offset_in_range(pre, row as int, c as int);
                    assert(self@.offset(rr, cc) == pre.offset(rr, cc));
                    if !(rr == row as int && cc == c as int) {
                        assert(pre.offset(rr, cc) != pre.offset(row as int, c as int));
                    }
                }
                assert(self@.cell(row as int, c as int) == row_data@[c as int]);
            }
            c += 1;
        }
        proof {
            assert(prev@ =~= old(self)@.spec_row(row as int));
        }
        Some(prev)
    }

    /// Replaces the cells of the column whose name first matches `name` and
    /// returns the previous column contents, or returns `None` and changes
    /// nothing when no column bears that name or the supplied data does not
    /// hold exactly one element per row.
    pub fn set_col_by_name(&mut self, name: &str, col_data: &[T]) -> (result: Option<Vec<T>>)
        requires
            old(self)@.wf(),
        ensures
            match result {
                Some(prev) => exists|i: int|
                    is_first_match(old(self)@.col_names, name@, i) && col_data@.len() == old(
                        self,
                    )@.num_rows && prev@ == old(self)@.spec_col(i) && col_replaced(
                        old(self)@,
                        i,
                        col_data@,
                        final(self)@,
                    ),
                None => {
                    &&& !has_match(old(self)@.col_names, name@) || col_data@.len() != old(
                        self,
                    )@.num_rows
                    &&& final(self)@ == old(self)@
                },
            },
    {
        match self.find_col_index(name) {
            Some(i) => self.set_col(i, col_data),
            None => None,
        }
    }

    /// Replaces the name of the column at the given index and returns the
    /// previous name, or returns `None` when the index is out of range.
    pub fn set_col_name(&mut self, col: usize, name: String) -> (result: Option<String>)
        requires
            old(self)@.col_names.len() == old(self)@.num_cols,
        ensures
            match result {
                Some(prev) => {
                    &&& col < old(self)@.num_cols
                    &&& prev@ == old(self)@.col_names[col as int]
                    &&& final(self)@ == (TableModel {
                        col_names: old(self)@.col_names.update(col as int, name@),
                        ..old(self)@
                    })
                },
                None => col >= old(self)@.num_cols && final(self)@ == old(self)@,
            },
    {
        if col >= self.num_cols {
            return None;
        }
        let mut prev = name;
        self.col_names.set_and_swap(col, &mut prev);
        proof {
            assert(self@.col_names =~= old(self)@.col_names.update(col as int, name@));
            assert(self@ =~= (TableModel {
                col_names: old(self)@.col_names.update(col as int, name@),
                ..old(self)@
            }));
        }
        Some(prev)
    }

    /// Replaces the description of the column at the given index and
    /// returns the previous description, or returns `None` when the index
    /// is out of range.
    pub fn set_col_description(&mut self, col: usize, description: String) -> (result: Option<
        String,
    >)
        requires
            old(self)@.descriptions.len() == old(self)@.num_cols,
        ensures
            match result {
                Some(prev) => {
                    &&& col < old(self)@.num_cols
                    &&& prev@ == old(self)@.descriptions[col as int]
                    &&& final(self)@ == (TableModel {
                        descriptions: old(self)@.descriptions.update(col as int, description@),
                        ..old(self)@
                    })
                },
                None => col >= old(self)@.num_cols && final(self)@ == old(self)@,
            },
    {
        if col >= self.num_cols {
            return None;
        }
        let mut prev = description;
        self.descriptions.set_and_swap(col, &mut prev);
        proof {
            assert(self@.descriptions =~= old(self)@.descriptions.update(col as int, description@));
            assert(self@ =~= (TableModel {
                descriptions: old(self)@.descriptions.update(col as int, description@),
                ..old(self)@
            }));
        }
        Some(prev)
    }

    /// Replaces the description of the column whose name first matches
    /// `name` and returns the previous description, or returns `None` when
    /// no column bears that name.
    pub fn set_col_description_by_name(&mut self, name: &str, description: String) -> (result:
        Option<String>)
        requires
            old(self)@.wf(),
        ensures
            match result {
                Some(prev) => exists|i: int|
                    is_first_match(old(self)@.col_names, name@, i) && prev@ == old(
                        self,
                    )@.descriptions[i] && final(self)@ == (TableModel {
                        descriptions: old(self)@.descriptions.update(i, description@),
                        ..old(self)@
                    }),
                None => !has_match(old(self)@.col_names, name@) && final(self)@ == old(self)@,
            },
    {
        match self.find_col_index(name) {
            Some(i) => self.set_col_description(i, description),
            None => None,
        }
    }

    /// Copies the logical row at the given index, element by element, or
    /// returns `None` when the index is out of range.
    pub fn iter_row(&self, row: usize) -> (result: Option<Vec<T>>)
        requires
            self@.grid_wf(),
        ensures
            match result {
                Some(v) => row < self@.num_rows && v@ == self@.spec_row(row as int),
                None => row >= self@.num_rows,
            },
    {
        self.row(row)
    }

    /// Copies the logical column at the given index, element by element, or
    /// returns `None` when the index is out of range.
    pub fn iter_col(&self, col: usize) -> (result: Option<Vec<T>>)
        requires
            self@.grid_wf(),
        ensures
            match result {
                Some(v) => col < self@.num_cols && v@ == self@.spec_col(col as int),
                None => col >= self@.num_cols,
            },
    {
        self.col(col)
    }

    /// Copies the column whose name first matches `name`, element by
    /// element, or returns `None` when no column bears that name.
    pub fn iter_col_by_name(&self, name: &str) -> (result: Option<Vec<T>>)
        requires
            self@.wf(),
        ensures
            match result {
                Some(v) => exists|i: int|
                    is_first_match(self@.col_names, name@, i) && v@ == self@.spec_col(i),
                None => !has_match(self@.col_names, name@),
            },
    {
        self.col_by_name(name)
    }

    /// Appends one column: its cells at the tail of the physical buffer,
    /// its name after the existing names, and an empty description. Fails
    /// with `InvalidNumberOfElements` and changes nothing when `col` does
    /// not hold exactly one element per row. The appended cells form the
    /// new last logical column only under `ColumnMajor`; under `RowMajor`
    /// the tail append reinterprets existing cells instead, exactly as
    /// documented for the flat-buffer layout.
    pub fn push_col(&mut self, name: String, col: Vec<T>) -> (result: Result<(), TableError>)
        requires
            old(self)@.grid_wf(),
            old(self)@.num_cols < usize::MAX,
        ensures
            match result {
                Ok(_) => {
                    &&& col@.len() == old(self)@.num_rows
                    &&& final(self)@ == pushed_col_model(old(self)@, name@, col@)
                    &&& final(self)@.grid_wf()
                    &&& old(self)@.wf() ==> final(self)@.wf()
                },
                Err(e) => {
                    &&& e == TableError::InvalidNumberOfElements
                    &&& col@.len() != old(self)@.num_rows
                    &&& final(self)@ == old(self)@
                },
            },
    {
        if col.len() != self.num_rows {
            return Err(TableError::InvalidNumberOfElements);
        }
        self.col_names.push(name);
        let mut col_data = col;
        self.data.append(&mut col_data);
        self.num_cols = self.num_cols + 1;
        self.descriptions.push(String::new());
        proof {
            assert(self@.col_names =~= old(self)@.col_names.push(name@));
            assert(self@.descriptions =~= old(self)@.descriptions.push(Seq::<char>::empty()));
            assert(self@ =~= pushed_col_model(old(self)@, name@, col@));
            let c = old(self)@.num_cols;
            let r = old(self)@.num_rows;
            assert((c + 1) * r == c * r + r) by (nonlinear_arith);
        }
        Ok(())
    }

    /// Appends one row at the tail of the physical buffer. Fails with
    /// `InvalidNumberOfElements` and changes nothing when `row` does not
    /// hold exactly one element per column. The appended cells form the new
    /// last logical row only under `RowMajor`; under `ColumnMajor` the tail
    /// append reinterprets existing cells instead, exactly as documented
    /// for the flat-buffer layout.
    pub fn push_row(&mut self, row: Vec<T>) -> (result: Result<(), TableError>)
        requires
            old(self)@.grid_wf(),
            old(self)@.num_rows < usize::MAX,
        ensures
            match result {
                Ok(_) => {
                    &&& row@.len() == old(self)@.num_cols
                    &&& final(self)@ == pushed_row_model(old(self)@, row@)
                    &&& final(self)@.grid_wf()
                    &&& old(self)@.wf() ==> final(self)@.wf()
                },
                Err(e) => {
                    &&& e == TableError::InvalidNumberOfElements
                    &&& row@.len() != old(self)@.num_cols
                    &&& final(self)@ == old(self)@
                },
            },
    {
        if row.len() != self.num_cols {
            return Err(TableError::InvalidNumberOfElements);
        }
        let mut row_data = row;
        self.data.append(&mut row_data);
        self.num_rows = self.num_rows + 1;
        proof {
            assert(self@ =~= pushed_row_model(old(self)@, row@));
            let c = old(self)@.num_cols;
            let r = old(self)@.num_rows;
            assert(c * (r + 1) == c * r + c) by (nonlinear_arith);
        }
        Ok(())
    }

    /// The flat buffer of this table with the column at index `col` left
    /// out, rebuilt in the physical order of the shrunk table.
    #[verifier::loop_isolation(false)]
    fn gather_without_col(&self, col: usize) -> (out: Vec<T>)
        requires
            self@.grid_wf(),
            col < self@.num_cols,
        ensures
            removed_col_shape(self@, col as int, shrunk_col_model(self@, out@, col as int)),
    {
        let ghost nm = shrunk_col_model(self@, Seq::<T>::empty(), col as int);
        let new_cols = self.num_cols - 1;
        let mut out: Vec<T> = Vec::new();
        match self.order {
            Order::RowMajor => {
                let mut r: usize = 0;
                while r < self.num_rows
                    invariant
                        r <= self@.num_rows,
                        out@.len() == r * new_cols,
                        forall|r2: int, c2: int|
                            0 <= r2 < self@.num_rows && 0 <= c2 < new_cols && nm.offset(r2, c2)
                                < out@.len() ==> out@[nm.offset(r2, c2)] == self@.cell(
                                r2,
                                if c2 < col {
                                    c2
                                } else {
                                    c2 + 1
                                },
                            ),
                    decreases self@.num_rows - r,
                {
                    let mut c: usize = 0;
                    while c < new_cols
                        invariant
                            c <= new_cols,
                            out@.len() == r * new_cols + c,
                            forall|r2: int, c2: int|
                                0 <= r2 < self@.num_rows && 0 <= c2 < new_cols && nm.offset(r2, c2)
                                    < out@.len() ==> out@[nm.offset(r2, c2)] == self@.cell(
                                    r2,
                                    if c2 < col {
                                        c2
                                    } else {
                                        c2 + 1
                                    },
                                ),
                        decreases new_cols - c,
                    {
                        let src = if c < col {
                            c
                        } else {
                            c + 1
                        };
                        let off = self.offset_of(r, src);
                        out.push(self.data[off]);
                        proof {
                            let k = out@.len() - 1;
                            assert(nm.offset(r as int, c as int) == k);
                            assert forall|r2: int, c2: int|
                                0 <= r2 < self@.num_rows && 0 <= c2 < new_cols && nm.offset(r2, c2)
                                    == k implies r2 == r as int && c2 == c as int by {
                                lemma_offset_coords(nm, r2, c2);
                                lemma_offset_coords(nm, r as int, c as int);
                            }
                        }
                        c += 1;
                    }
                    proof {
                        assert((r + 1) * new_cols == r * new_cols + new_cols)
                            by (nonlinear_arith);
                    }
                    r += 1;
                }
                proof {
                    let rows = self@.num_rows;
                    assert(rows * (new_cols as int) == (new_cols as int) * rows)
                        by (nonlinear_arith);
                }
            },
            Order::ColumnMajor => {
                let mut c: usize = 0;
                while c < new_cols
                    invariant
                        c <= new_cols,
                        out@.len() == c * self@.num_rows,
                        forall|r2: int, c2: int|
                            0 <= r2 < self@.num_rows && 0 <= c2 < new_cols && nm.offset(r2, c2)
                                < out@.len() ==> out@[nm.offset(r2, c2)] == self@.cell(
                                r2,
                                if c2 < col {
                                    c2
                                } else {
                                    c2 + 1
                                },
                            ),
                    decreases new_cols - c,
                {
                    let mut r: usize = 0;
                    while r < self.num_rows
                        invariant
                            r <= self@.num_rows,
                            out@.len() == c * self@.num_rows + r,
                            forall|r2: int, c2: int|
                                0 <= r2 < self@.num_rows && 0 <= c2 < new_cols && nm.offset(r2, c2)
                                    < out@.len() ==> out@[nm.offset(r2, c2)] == self@.cell(
                                    r2,
                                    if c2 < col {
                                        c2
                                    } else {
                                        c2 + 1
                                    },
                                ),
                        decreases self@.num_rows - r,
                    {
                        let src = if c < col {
                            c
                        } else {
                            c + 1
                        };
                        let off = self.offset_of(r, src);
                        out.push(self.data[off]);
                        proof {
                            let k = out@.len() - 1;
                            assert(nm.offset(r as int, c as int) == k);
                            assert forall|r2: int, c2: int|
                                0 <= r2 < self@.num_rows && 0 <= c2 < new_cols && nm.offset(r2, c2)
                                    == k implies r2 == r as int && c2 == c as int by {
                                lemma_offset_coords(nm, r2, c2);
                                lemma_offset_coords(nm, r as int, c as int);
                            }
                        }
                        r += 1;
                    }
                    proof {
                        let rows = self@.num_rows;
                        assert((c + 1) * rows == c * rows + rows) by (nonlinear_arith);
                    }
                    c += 1;
                }
            },
        }
        proof {
            let after = shrunk_col_model(self@, out@, col as int);
            assert forall|r2: int, c2: int| after.in_bounds(r2, c2) implies #[trigger] after.cell(
                r2,
                c2,
            ) == self@.cell(
                r2,
                if c2 < col {
                    c2
                } else {
                    c2 + 1
                },
            ) by {
                lemma_offset_in_range(after, r2, c2);
                assert(after.offset(r2, c2) == nm.offset(r2, c2));
            }
        }
        out
    }

    /// The flat buffer of this table with the row at index `row` left out,
    /// rebuilt in the physical order of the shrunk table.
    #[verifier::loop_isolation(false)]
    fn gather_without_row(&self, row: usize) -> (out: Vec<T>)
        requires
            self@.grid_wf(),
            row < self@.num_rows,
        ensures
            removed_row_shape(self@, row as int, shrunk_row_model(self@, out@)),
    {
        let ghost nm = shrunk_row_model(self@, Seq::<T>::empty());
        let new_rows = self.num_rows - 1;
        let mut out: Vec<T> = Vec::new();
        match self.order {
            Order::RowMajor => {
                let mut r: usize = 0;
                while r < new_rows
                    invariant
                        r <= new_rows,
                        out@.len() == r * self@.num_cols,
                        forall|r2: int, c2: int|
                            0 <= r2 < new_rows && 0 <= c2 < self@.num_cols && nm.offset(r2, c2)
                                < out@.len() ==> out@[nm.offset(r2, c2)] == self@.cell(
                                if r2 < row {
                                    r2
                                } else {
                                    r2 + 1
                                },
                                c2,
                            ),
                    decreases new_rows - r,
                {
                    let mut c: usize = 0;
                    while c < self.num_cols
                        invariant
                            c <= self@.num_cols,
                            out@.len() == r * self@.num_cols + c,
                            forall|r2: int, c2: int|
                                0 <= r2 < new_rows && 0 <= c2 < self@.num_cols && nm.offset(r2, c2)
                                    < out@.len() ==> out@[nm.offset(r2, c2)] == self@.cell(
                                    if r2 < row {
                                        r2
                                    } else {
                                        r2 + 1
                                    },
                                    c2,
                                ),
                        decreases self@.num_cols - c,
                    {
                        let src = if r < row {
                            r
                        } else {
                            r + 1
                        };
                        let off = self.offset_of(src, c);
                        out.push(self.data[off]);
                        proof {
                            let k = out@.len() - 1;
                            assert(nm.offset(r as int, c as int) == k);
                            assert forall|r2: int, c2: int|
                                0 <= r2 < new_rows && 0 <= c2 < self@.num_cols && nm.offset(r2, c2)
                                    == k implies r2 == r as int && c2 == c as int by {
                                lemma_offset_coords(nm, r2, c2);
                                lemma_offset_coords(nm, r as int, c as int);
                            }
                        }
                        c += 1;
                    }
                    proof {
                        let cols = self@.num_cols;
                        assert((r + 1) * cols == r * cols + cols) by (nonlinear_arith);
                    }
                    r += 1;
                }
                proof {
                    let cols = self@.num_cols;
                    assert((new_rows as int) * cols == cols * (new_rows as int))
                        by (nonlinear_arith);
                }
            },
            Order::ColumnMajor => {
                let mut c: usize = 0;
                while c < self.num_cols
                    invariant
                        c <= self@.num_cols,
                        out@.len() == c * new_rows,
                        forall|r2: int, c2: int|
                            0 <= r2 < new_rows && 0 <= c2 < self@.num_cols && nm.offset(r2, c2)
                                < out@.len() ==> out@[nm.offset(r2, c2)] == self@.cell(
                                if r2 < row {
                                    r2
                                } else {
                                    r2 + 1
                                },
                                c2,
                            ),
                    decreases self@.num_cols - c,
                {
                    let mut r: usize = 0;
                    while r < new_rows
                        invariant
                            r <= new_rows,
                            out@.len() == c * new_rows + r,
                            forall|r2: int, c2: int|
                                0 <= r2 < new_rows && 0 <= c2 < self@.num_cols && nm.offset(r2, c2)
                                    < out@.len() ==> out@[nm.offset(r2, c2)] == self@.cell(
                                    if r2 < row {
                                        r2
                                    } else {
                                        r2 + 1
                                    },
                                    c2,
                                ),
                        decreases new_rows - r,
                    {
                        let src = if r < row {
                            r
                        } else {
                            r + 1
                        };
                        let off = self.offset_of(src, c);
                        out.push(self.data[off]);
                        proof {
                            let k = out@.len() - 1;
                            assert(nm.offset(r as int, c as int) == k);
                            assert forall|r2: int, c2: int|
                                0 <= r2 < new_rows && 0 <= c2 < self@.num_cols && nm.offset(r2, c2)
                                    == k implies r2 == r as int && c2 == c as int by {
                                lemma_offset_coords(nm, r2, c2);
                                lemma_offset_coords(nm, r as int, c as int);
                            }
                        }
                        r += 1;
                    }
                    proof {
                        assert((c + 1) * new_rows == c * new_rows + new_rows)
                            by (nonlinear_arith);
                    }
                    c += 1;
                }
                proof {
                    let cols = self@.num_cols;
                    assert(cols * (new_rows as int) == (new_rows as int) * cols)
                        by (nonlinear_arith);
                }
            },
        }
        proof {
            let after = shrunk_row_model(self@, out@);
            assert forall|r2: int, c2: int| after.in_bounds(r2, c2) implies #[trigger] after.cell(
                r2,
                c2,
            ) == self@.cell(
                if r2 < row {
                    r2
                } else {
                    r2 + 1
                },
                c2,
            ) by {
                lemma_offset_in_range(after, r2, c2);
                assert(after.offset(r2, c2) == nm.offset(r2, c2));
            }
        }
        out
    }

    /// Removes the column at the given index and returns its cells:
    /// the buffer shrinks by one element per row, the columns to the right
    /// shift left by one, and the matching name and description entries are
    /// removed. Returns `None` and changes nothing when the index is out of
    /// range.
    pub fn remove_col(&mut self, col: usize) -> (result: Option<Vec<T>>)
        requires
            old(self)@.wf(),
        ensures
            final(self)@.wf(),
            match result {
                Some(removed) => {
                    &&& col < old(self)@.num_cols
                    &&& removed@ == old(self)@.spec_col(col as int)
                    &&& removed_col_shape(old(self)@, col as int, final(self)@)
                },
                None => col >= old(self)@.num_cols && final(self)@ == old(self)@,
            },
    {
        if col >= self.num_cols {
            return None;
        }
        let removed = self.col(col).unwrap();
        let out = self.gather_without_col(col);
        self.data = out;
        self.col_names.remove(col);
        self.descriptions.remove(col);
        self.num_cols = self.num_cols - 1;
        proof {
            assert(self@.col_names =~= old(self)@.col_names.remove(col as int));
            assert(self@.descriptions =~= old(self)@.descriptions.remove(col as int));
            assert(self@ =~= shrunk_col_model(old(self)@, self@.data, col as int));
        }
        Some(removed)
    }

    /// Removes the row at the given index and returns its cells: the buffer
    /// shrinks by one element per column and the rows below shift up by
    /// one. The column metadata is untouched. Returns `None` and changes
    /// nothing when the index is out of range.
    pub fn remove_row(&mut self, row: usize) -> (result: Option<Vec<T>>)
        requires
            old(self)@.grid_wf(),
        ensures
            final(self)@.grid_wf(),
            old(self)@.wf() ==> final(self)@.wf(),
            match result {
                Some(removed) => {
                    &&& row < old(self)@.num_rows
                    &&& removed@ == old(self)@.spec_row(row as int)
                    &&& removed_row_shape(old(self)@, row as int, final(self)@)
                },
                None => row >= old(self)@.num_rows && final(self)@ == old(self)@,
            },
    {
        if row >= self.num_rows {
            return None;
        }
        let removed = self.row(row).unwrap();
        let out = self.gather_without_row(row);
        self.data = out;
        self.num_rows = self.num_rows - 1;
        proof {
            assert(self@ =~= shrunk_row_model(old(self)@, self@.data));
        }
        Some(removed)
    }
}

} // verus!
