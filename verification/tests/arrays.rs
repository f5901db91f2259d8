use um::array2::{flatten, indices_column_major, indices_row_major, Array2, Error};
use um::sudoku::check_sudoku;

#[test]
fn row_major_construction_and_access() {
    let a = Array2::from_row_major(&vec![1, 2, 3, 4, 5, 6], 2, 3).unwrap();
    assert_eq!(a.num_rows(), 2);
    assert_eq!(a.num_columns(), 3);
    assert_eq!(a.num_elements(), 6);
    assert_eq!(a.row_len(), 3);
    assert_eq!(a.column_len(), 2);
    assert_eq!(a.get(0, 0), Some(&1));
    assert_eq!(a.get(1, 2), Some(&6));
    assert_eq!(a.get(2, 0), None);
    assert_eq!(a.get_row_major(4), Some(&5));
    assert_eq!(a.get_row_major(6), None);
    assert_eq!(a.get_column_major(1), Some(&4));
    assert_eq!(a.get_column_major(2), Some(&2));
}

#[test]
fn row_major_rejects_bad_dimensions() {
    assert_eq!(
        Array2::from_row_major(&vec![1, 2, 3], 2, 2).unwrap_err(),
        Error::DimensionMismatch
    );
}

#[test]
fn from_rows_lays_rows_out_flat() {
    let a = Array2::from_rows(&vec![vec![1, 2, 3], vec![4, 5, 6]]).unwrap();
    assert_eq!(a.num_rows(), 2);
    assert_eq!(a.num_columns(), 3);
    assert_eq!(a.elements_row_major_iter(), vec![1, 2, 3, 4, 5, 6]);
    assert_eq!(
        Array2::from_rows(&vec![vec![1, 2], vec![3]]).unwrap_err(),
        Error::DimensionMismatch
    );
}

#[test]
fn from_columns_transposes() {
    let a = Array2::from_columns(&vec![vec![1, 4], vec![2, 5], vec![3, 6]]).unwrap();
    assert_eq!(a.num_rows(), 2);
    assert_eq!(a.num_columns(), 3);
    assert_eq!(a.elements_row_major_iter(), vec![1, 2, 3, 4, 5, 6]);
}

#[test]
fn from_column_major_always_mismatches() {
    let r: Result<Array2<i32>, Error> = Array2::from_column_major(&vec![1, 2, 3, 4], 2, 3);
    assert_eq!(r.unwrap_err(), Error::DimensionMismatch);
}

#[test]
fn setters_write_cells() {
    let mut a = Array2::from_row_major(&vec![0; 6], 2, 3).unwrap();
    a.set(0, 1, 7).unwrap();
    a.set_row_major(5, 8).unwrap();
    a.set_column_major(1, 9).unwrap();
    assert_eq!(a.elements_row_major_iter(), vec![0, 7, 0, 9, 0, 8]);
    assert_eq!(a.set(2, 0, 1).unwrap_err(), Error::IndicesOutOfBounds(2, 0));
    assert_eq!(a.set_row_major(6, 1).unwrap_err(), Error::IndexOutOfBounds(6));
    assert_eq!(a.set_column_major(6, 1).unwrap_err(), Error::IndexOutOfBounds(6));
}

#[test]
fn mutable_access_reaches_cells() {
    let mut a = Array2::from_row_major(&vec![1, 2, 3, 4], 2, 2).unwrap();
    *a.get_mut(0, 1).unwrap() = 20;
    *a.get_mut_row_major(2).unwrap() = 30;
    *a.get_mut_column_major(1).unwrap() = 40;
    assert!(a.get_mut(2, 2).is_none());
    assert_eq!(a.elements_row_major_iter(), vec![1, 20, 40, 4]);
}

#[test]
fn iteration_orders() {
    let a = Array2::from_row_major(&vec![1, 2, 3, 4, 5, 6], 2, 3).unwrap();
    assert_eq!(a.elements_row_major_iter(), vec![1, 2, 3, 4, 5, 6]);
    assert_eq!(a.elements_column_major_iter(), vec![1, 4, 2, 5, 3, 6]);
    assert_eq!(a.row_iter(1).unwrap(), vec![4, 5, 6]);
    assert_eq!(a.column_iter(2).unwrap(), vec![3, 6]);
    assert_eq!(
        a.row_iter(2).unwrap_err(),
        Error::IndicesOutOfBounds(2, 0)
    );
    assert_eq!(
        a.column_iter(3).unwrap_err(),
        Error::IndicesOutOfBounds(0, 3)
    );
    assert_eq!(a.rows_iter(), vec![vec![1, 2, 3], vec![4, 5, 6]]);
    assert_eq!(a.columns_iter(), vec![vec![1, 4], vec![2, 5], vec![3, 6]]);
    assert_eq!(
        a.enumerate_row_major()[1],
        ((0usize, 1usize), 2)
    );
    assert_eq!(
        a.enumerate_column_major()[1],
        ((1usize, 0usize), 4)
    );
}

#[test]
fn index_orders() {
    assert_eq!(
        indices_row_major(2, 2),
        vec![(0, 0), (0, 1), (1, 0), (1, 1)]
    );
    assert_eq!(
        indices_column_major(2, 2),
        vec![(0, 0), (1, 0), (0, 1), (1, 1)]
    );
    let a = Array2::from_row_major(&vec![0; 4], 2, 2).unwrap();
    assert_eq!(a.indices_row_major(), indices_row_major(2, 2));
    assert_eq!(a.indices_column_major(), indices_column_major(2, 2));
}

#[test]
fn flatten_concatenates() {
    assert_eq!(flatten(&vec![vec![1, 2], vec![3]]), vec![1, 2, 3]);
}

#[test]
fn accepts_a_valid_solution() {
    let grid = vec![
        5, 3, 4, 6, 7, 8, 9, 1, 2, //
        6, 7, 2, 1, 9, 5, 3, 4, 8, //
        1, 9, 8, 3, 4, 2, 5, 6, 7, //
        8, 5, 9, 7, 6, 1, 4, 2, 3, //
        4, 2, 6, 8, 5, 3, 7, 9, 1, //
        7, 1, 3, 9, 2, 4, 8, 5, 6, //
        9, 6, 1, 5, 3, 7, 2, 8, 4, //
        2, 8, 7, 4, 1, 9, 6, 3, 5, //
        3, 4, 5, 2, 8, 6, 1, 7, 9,
    ];
    let a = Array2::from_row_major(&grid, 9, 9).unwrap();
    assert!(check_sudoku(&a));
}

#[test]
fn rejects_a_repeated_digit() {
    let mut grid = vec![
        5, 3, 4, 6, 7, 8, 9, 1, 2, //
        6, 7, 2, 1, 9, 5, 3, 4, 8, //
        1, 9, 8, 3, 4, 2, 5, 6, 7, //
        8, 5, 9, 7, 6, 1, 4, 2, 3, //
        4, 2, 6, 8, 5, 3, 7, 9, 1, //
        7, 1, 3, 9, 2, 4, 8, 5, 6, //
        9, 6, 1, 5, 3, 7, 2, 8, 4, //
        2, 8, 7, 4, 1, 9, 6, 3, 5, //
        3, 4, 5, 2, 8, 6, 1, 7, 9,
    ];
    grid[0] = 3;
    let a = Array2::from_row_major(&grid, 9, 9).unwrap();
    assert!(!check_sudoku(&a));
}

#[test]
fn rejects_wrong_shapes_and_ranges() {
    let a = Array2::from_row_major(&vec![1; 16], 4, 4).unwrap();
    assert!(!check_sudoku(&a));
    let mut grid = vec![0; 81];
    grid[0] = 10;
    let b = Array2::from_row_major(&grid, 9, 9).unwrap();
    assert!(!check_sudoku(&b));
}
