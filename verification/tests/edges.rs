use flat_table::Order;
use flat_table::Table;

#[test]
fn empty_table_grows_column_by_column() {
    let mut t: Table<u8> = Table::new();
    // a column of zero elements is valid while the table has no rows
    t.push_col("first".to_string(), vec![]).unwrap();
    assert_eq!(t.num_cols(), 1);
    assert_eq!(t.num_rows(), 0);
    assert_eq!(t.col(0).unwrap(), Vec::<u8>::new());
    t.push_row(vec![7]).unwrap();
    assert_eq!(t.num_rows(), 1);
    assert_eq!(t.get(0, 0), Some(&7));
}

#[test]
fn empty_row_push_on_zero_column_table() {
    let mut t: Table<u8> = Table::new();
    t.push_row(vec![]).unwrap();
    assert_eq!(t.num_rows(), 1);
    assert_eq!(t.num_cols(), 0);
    assert_eq!(t.row(0).unwrap(), Vec::<u8>::new());
}

#[test]
fn one_by_one_table_round_trip() {
    let mut t = Table::from_vec(vec![42], 1, vec!["only".to_string()]).unwrap();
    assert_eq!(t.num_rows(), 1);
    assert_eq!(t.set(0, 0, 43), Some(42));
    assert_eq!(t.remove_row(0).unwrap(), vec![43]);
    assert_eq!(t.num_rows(), 0);
    assert_eq!(t.iter(), &[] as &[i32]);
}

#[test]
fn unicode_names_compare_by_characters() {
    let t = Table::from_vec(
        vec![1, 2, 3, 4],
        2,
        vec!["α β".to_string(), "日本語".to_string()],
    )
    .unwrap();
    assert_eq!(t.col_by_name("日本語"), t.col(1));
    assert_eq!(t.col_by_name("α β"), t.col(0));
    assert_eq!(t.col_by_name("α"), None);
    assert_eq!(t.col_by_name(""), None);
}

#[test]
fn access_after_single_transpose_of_non_square_table() {
    let mut t = Table::from_vec(
        vec![1, 2, 3, 4, 5, 6],
        3,
        vec!["a".to_string(), "b".to_string(), "c".to_string()],
    )
    .unwrap();
    t.transpose();
    // now 2 columns by 3 rows, column-major: the old rows read as columns
    assert_eq!(t.col(0).unwrap(), vec![1, 2, 3]);
    assert_eq!(t.col(1).unwrap(), vec![4, 5, 6]);
    assert_eq!(t.row(0).unwrap(), vec![1, 4]);
    assert_eq!(t.get(1, 1), Some(&5));
    assert_eq!(t.set(2, 0, 30), Some(3));
    assert_eq!(t.iter(), &[1, 2, 30, 4, 5, 6]);
}

#[test]
fn remove_middle_row_row_major() {
    let mut t = Table::from_vec(
        vec![1, 2, 3, 4, 5, 6],
        2,
        vec!["a".to_string(), "b".to_string()],
    )
    .unwrap();
    // 2 columns by 3 rows
    let removed = t.remove_row(1).unwrap();
    assert_eq!(removed, vec![3, 4]);
    assert_eq!(t.iter(), &[1, 2, 5, 6]);
    assert_eq!(t.num_rows(), 2);
}

#[test]
fn order_swap_toggles() {
    let mut o = Order::RowMajor;
    o.swap();
    assert_eq!(o, Order::ColumnMajor);
    o.swap();
    assert_eq!(o, Order::RowMajor);
}
