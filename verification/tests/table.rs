use flat_table::Order;
use flat_table::Table;
use flat_table::TableError;

fn names3() -> Vec<String> {
    vec!["a".to_string(), "b".to_string(), "c".to_string()]
}

#[test]
fn new_is_empty() {
    let t: Table<i32> = Table::new();
    assert_eq!(t.num_cols(), 0);
    assert_eq!(t.num_rows(), 0);
    assert_eq!(t.order(), Order::RowMajor);
    assert!(t.col_names().is_empty());
    assert!(t.col_descriptions().is_empty());
    assert!(t.iter().is_empty());
}

#[test]
fn new_sized_fills_with_default() {
    let t: Table<i32> = Table::new_sized(3, 2, names3()).unwrap();
    assert_eq!(t.num_cols(), 3);
    assert_eq!(t.num_rows(), 2);
    assert_eq!(t.order(), Order::RowMajor);
    assert_eq!(t.iter(), &[0, 0, 0, 0, 0, 0]);
    assert_eq!(t.col_names(), &names3());
    assert_eq!(t.col_descriptions(), &vec![String::new(); 3]);
}

#[test]
fn new_sized_rejects_wrong_name_count() {
    let r: Result<Table<i32>, TableError> = Table::new_sized(2, 2, names3());
    assert!(matches!(r, Err(TableError::InvalidNumberOfColumnNames)));
}

#[test]
fn from_vec_divisible_succeeds() {
    let t = Table::from_vec(vec![1, 2, 3, 4, 5, 6], 3, names3()).unwrap();
    assert_eq!(t.num_rows(), 2);
    assert_eq!(t.num_cols(), 3);
    assert_eq!(t.iter(), &[1, 2, 3, 4, 5, 6]);
}

#[test]
fn from_vec_ragged_fails() {
    let r = Table::from_vec(vec![1, 2, 3, 4, 5], 3, names3());
    assert!(matches!(r, Err(TableError::InvalidNumberOfColumns)));
}

#[test]
fn from_vec_wrong_name_count_fails() {
    let r = Table::from_vec(vec![1, 2, 3, 4, 5, 6], 3, vec!["a".to_string()]);
    assert!(matches!(r, Err(TableError::InvalidNumberOfColumnNames)));
}

#[test]
fn from_vec_with_order_skips_name_validation() {
    // Unlike `from_vec`, the name count is not validated here.
    let t = Table::from_vec_with_order(
        vec![1, 2, 3, 4, 5, 6],
        3,
        vec!["only".to_string()],
        Order::ColumnMajor,
    )
    .unwrap();
    assert_eq!(t.num_cols(), 3);
    assert_eq!(t.num_rows(), 2);
    assert_eq!(t.order(), Order::ColumnMajor);
    assert_eq!(t.col_names().len(), 1);
}

#[test]
fn from_vec_with_order_ragged_fails() {
    let r = Table::from_vec_with_order(vec![1, 2, 3, 4, 5], 3, names3(), Order::RowMajor);
    assert!(matches!(r, Err(TableError::InvalidNumberOfColumns)));
}

#[test]
fn set_then_get_returns_new_value_and_prior() {
    let mut t = Table::from_vec(vec![1, 2, 3, 4, 5, 6], 3, names3()).unwrap();
    let prior = t.set(1, 2, 60);
    assert_eq!(prior, Some(6));
    assert_eq!(t.get(1, 2), Some(&60));
    // every other cell is untouched
    assert_eq!(t.iter(), &[1, 2, 3, 4, 5, 60]);
}

#[test]
fn set_then_get_column_major() {
    let mut t =
        Table::from_vec_with_order(vec![1, 2, 3, 4, 5, 6], 2, names3()[..2].to_vec(), Order::ColumnMajor)
            .unwrap();
    // 2 columns, 3 rows; cell (r, c) sits at offset c * 3 + r.
    let prior = t.set(1, 1, 50);
    assert_eq!(prior, Some(5));
    assert_eq!(t.get(1, 1), Some(&50));
    assert_eq!(t.iter(), &[1, 2, 3, 4, 50, 6]);
}

#[test]
fn get_out_of_range_is_none() {
    let mut t = Table::from_vec(vec![1, 2, 3, 4, 5, 6], 3, names3()).unwrap();
    assert_eq!(t.get(2, 0), None);
    assert_eq!(t.get(0, 3), None);
    assert_eq!(t.set(2, 0, 9), None);
    assert_eq!(t.set(0, 3, 9), None);
    assert_eq!(t.iter(), &[1, 2, 3, 4, 5, 6]);
}

#[test]
fn get_unchecked_reads_in_range_cells() {
    let t = Table::from_vec(vec![1, 2, 3, 4, 5, 6], 3, names3()).unwrap();
    assert_eq!(*t.get_unchecked(0, 0), 1);
    assert_eq!(*t.get_unchecked(1, 1), 5);
}

#[test]
fn row_major_views() {
    let t = Table::from_vec(vec![10, 20, 30, 40, 50, 60], 3, names3()).unwrap();
    assert_eq!(t.row(0).unwrap(), vec![10, 20, 30]);
    assert_eq!(t.row(1).unwrap(), vec![40, 50, 60]);
    // the first column sits at physical offsets 0 and 3
    assert_eq!(t.col(0).unwrap(), vec![10, 40]);
    assert_eq!(t.col(2).unwrap(), vec![30, 60]);
    assert_eq!(t.row(2), None);
    assert_eq!(t.col(3), None);
}

#[test]
fn column_major_views() {
    let t = Table::from_vec_with_order(vec![1, 2, 3, 4, 5, 6], 3, names3(), Order::ColumnMajor)
        .unwrap();
    // 3 columns of 2: columns are contiguous, rows are strided
    assert_eq!(t.col(0).unwrap(), vec![1, 2]);
    assert_eq!(t.col(1).unwrap(), vec![3, 4]);
    assert_eq!(t.col(2).unwrap(), vec![5, 6]);
    assert_eq!(t.row(0).unwrap(), vec![1, 3, 5]);
    assert_eq!(t.row(1).unwrap(), vec![2, 4, 6]);
}

#[test]
fn transpose_twice_restores_everything() {
    let mut t = Table::from_vec(vec![1, 2, 3, 4, 5, 6], 3, names3()).unwrap();
    t.transpose();
    assert_eq!(t.order(), Order::ColumnMajor);
    assert_eq!(t.num_cols(), 2);
    assert_eq!(t.num_rows(), 3);
    // the buffer is never reordered
    assert_eq!(t.iter(), &[1, 2, 3, 4, 5, 6]);
    t.transpose();
    assert_eq!(t.order(), Order::RowMajor);
    assert_eq!(t.num_cols(), 3);
    assert_eq!(t.num_rows(), 2);
    assert_eq!(t.iter(), &[1, 2, 3, 4, 5, 6]);
    assert_eq!(t.col_names(), &names3());
}

#[test]
fn transpose_swaps_cells() {
    let mut t = Table::from_vec(vec![1, 2, 3, 4, 5, 6], 3, names3()).unwrap();
    let before = *t.get(0, 2).unwrap();
    t.transpose();
    assert_eq!(*t.get(2, 0).unwrap(), before);
}

#[test]
fn push_row_then_remove_row_restores() {
    let mut t = Table::from_vec(vec![1, 2, 3, 4, 5, 6], 3, names3()).unwrap();
    t.push_row(vec![7, 8, 9]).unwrap();
    assert_eq!(t.num_rows(), 3);
    assert_eq!(t.row(2).unwrap(), vec![7, 8, 9]);
    let removed = t.remove_row(2).unwrap();
    assert_eq!(removed, vec![7, 8, 9]);
    assert_eq!(t.num_rows(), 2);
    assert_eq!(t.iter(), &[1, 2, 3, 4, 5, 6]);
}

#[test]
fn push_row_wrong_length_fails() {
    let mut t = Table::from_vec(vec![1, 2, 3, 4, 5, 6], 3, names3()).unwrap();
    let r = t.push_row(vec![7, 8]);
    assert_eq!(r.unwrap_err(), TableError::InvalidNumberOfElements);
    assert_eq!(t.num_rows(), 2);
    assert_eq!(t.iter(), &[1, 2, 3, 4, 5, 6]);
}

#[test]
fn push_col_appends_at_tail() {
    let mut t = Table::from_vec_with_order(vec![1, 2, 3, 4], 2, vec![
        "a".to_string(),
        "b".to_string(),
    ], Order::ColumnMajor)
    .unwrap();
    t.push_col("c".to_string(), vec![5, 6]).unwrap();
    assert_eq!(t.num_cols(), 3);
    assert_eq!(t.col(2).unwrap(), vec![5, 6]);
    assert_eq!(t.col_names().last().unwrap(), "c");
    assert_eq!(t.col_descriptions().last().unwrap(), "");
    assert_eq!(t.iter(), &[1, 2, 3, 4, 5, 6]);
}

#[test]
fn push_col_wrong_length_fails_and_leaves_table_unchanged() {
    let mut t = Table::from_vec(vec![1, 2, 3, 4, 5, 6], 3, names3()).unwrap();
    let r = t.push_col("d".to_string(), vec![7, 8, 9]);
    assert_eq!(r.unwrap_err(), TableError::InvalidNumberOfElements);
    assert_eq!(t.num_cols(), 3);
    assert_eq!(t.num_rows(), 2);
    assert_eq!(t.col_names(), &names3());
    assert_eq!(t.iter(), &[1, 2, 3, 4, 5, 6]);
}

#[test]
fn remove_col_row_major_removes_strided_cells() {
    let mut t = Table::from_vec(vec![1, 2, 3, 4, 5, 6], 3, names3()).unwrap();
    let removed = t.remove_col(1).unwrap();
    assert_eq!(removed, vec![2, 5]);
    assert_eq!(t.num_cols(), 2);
    assert_eq!(t.row(0).unwrap(), vec![1, 3]);
    assert_eq!(t.row(1).unwrap(), vec![4, 6]);
    assert_eq!(t.col_names(), &vec!["a".to_string(), "c".to_string()]);
    assert_eq!(t.col_descriptions().len(), 2);
}

#[test]
fn remove_col_column_major_removes_contiguous_cells() {
    let mut t = Table::from_vec_with_order(vec![1, 2, 3, 4, 5, 6], 3, names3(), Order::ColumnMajor)
        .unwrap();
    let removed = t.remove_col(0).unwrap();
    assert_eq!(removed, vec![1, 2]);
    assert_eq!(t.iter(), &[3, 4, 5, 6]);
    assert_eq!(t.col_names(), &vec!["b".to_string(), "c".to_string()]);
}

#[test]
fn remove_col_out_of_range_is_none() {
    let mut t = Table::from_vec(vec![1, 2, 3, 4, 5, 6], 3, names3()).unwrap();
    assert_eq!(t.remove_col(3), None);
    assert_eq!(t.num_cols(), 3);
}

#[test]
fn remove_row_column_major_removes_strided_cells() {
    let mut t = Table::from_vec_with_order(vec![1, 2, 3, 4, 5, 6], 3, names3(), Order::ColumnMajor)
        .unwrap();
    let removed = t.remove_row(0).unwrap();
    assert_eq!(removed, vec![1, 3, 5]);
    assert_eq!(t.num_rows(), 1);
    assert_eq!(t.iter(), &[2, 4, 6]);
}

#[test]
fn remove_row_out_of_range_is_none() {
    let mut t = Table::from_vec(vec![1, 2, 3, 4, 5, 6], 3, names3()).unwrap();
    assert_eq!(t.remove_row(2), None);
    assert_eq!(t.num_rows(), 2);
}

#[test]
fn into_vec_releases_the_buffer() {
    let t = Table::from_vec(vec![1, 2, 3, 4, 5, 6], 3, names3()).unwrap();
    assert_eq!(t.into_vec(), vec![1, 2, 3, 4, 5, 6]);
}

#[test]
fn into_vec_with_names_releases_buffer_and_names() {
    let t = Table::from_vec(vec![1, 2, 3, 4, 5, 6], 3, names3()).unwrap();
    let (data, names) = t.into_vec_with_names();
    assert_eq!(data, vec![1, 2, 3, 4, 5, 6]);
    assert_eq!(names, names3());
}
