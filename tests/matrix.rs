use book_renderer::fixture::{matrix_tokens, parse_tokens};
use book_renderer::matrix::Matrix;

fn from_str(height: usize, width: usize, text: &str) -> Matrix<f64> {
    let tokens = matrix_tokens(text);
    let cells = parse_tokens(&tokens, |t: String| t.trim().parse::<f64>().map_err(|e| e.to_string())).unwrap();
    Matrix::from_cells(height, width, 0.0, &cells).unwrap()
}

fn same(a: &Matrix<f64>, b: &Matrix<f64>) -> bool {
    if a.height() != b.height() || a.width() != b.width() {
        return false;
    }
    for r in 0..a.height() {
        for c in 0..a.width() {
            if (a.get(r, c) - b.get(r, c)).abs() >= 1e-5 {
                return false;
            }
        }
    }
    true
}

#[test]
fn test_book_from_str_matrix_4_4() {
    let m = from_str(4, 4, "01,2,3,4
    5.5,6.5,7.5,8.5
    9,10,11,12
    13.5,14.5,15.5,16.5");
    assert_eq!(m.get(0, 0), 1.0);
    assert_eq!(m.get(0, 3), 4.0);
    assert_eq!(m.get(1, 0), 5.5);
    assert_eq!(m.get(1, 2), 7.5);
    assert_eq!(m.get(2, 2), 11.0);
    assert_eq!(m.get(3, 0), 13.5);
    assert_eq!(m.get(3, 2), 15.5);
}

#[test]
fn test_book_from_str_matrix_2_2() {
    let m = from_str(2, 2, "
    -3,5
    1,-2
    ");
    assert_eq!(m.get(0, 0), -3.0);
    assert_eq!(m.get(0, 1), 5.0);
    assert_eq!(m.get(1, 0), 1.0);
    assert_eq!(m.get(1, 1), -2.0);
}

#[test]
fn test_book_from_str_matrix_3_3() {
    let m = from_str(3, 3, "
    -3, 5, 0
    1 | -2 | -7
    | 0 | 1 | 1 |
    ");
    assert_eq!(m.get(0, 0), -3.0);
    assert_eq!(m.get(1, 1), -2.0);
    assert_eq!(m.get(2, 2), 1.0);
}

#[test]
fn test_book_transpose() {
    let m1 = from_str(4, 4, "
    0 | 9 | 3 | 0
    9 | 8 | 0 | 8
    1 | 8 | 5 | 3
    0 | 0 | 5 | 8
    ");
    let m2 = from_str(4, 4, "
    0 | 9 | 1 | 0
    9 | 8 | 8 | 0
    3 | 0 | 5 | 5
    0 | 8 | 3 | 8
    ");
    assert!(same(&m1.transpose(), &m2));
    assert!(same(&m2.transpose(), &m1));
}

#[test]
fn test_book_transpose_identity() {
    let i = Matrix::identity(4, 0.0, 1.0);
    assert!(same(&i.transpose(), &Matrix::identity(4, 0.0, 1.0)));
}

#[test]
fn test_book_submatrix_3() {
    let m = from_str(3, 3, "
     1 | 5 |  0
    -3 | 2 |  7
     0 | 6 | -3
    ");
    let sub = from_str(2, 2, "
    -3 | 2
     0 | 6
    ");
    assert!(same(&m.submatrix(0, 2), &sub));
}

#[test]
fn test_book_submatrix_4() {
    let m = from_str(4, 4, "
    -6 | 1 |  1 | 6
    -8 | 5 |  8 | 6
    -1 | 0 |  8 | 2
    -7 | 1 | -1 | 1
    ");
    let sub = from_str(3, 3, "
    -6 |  1 | 6
    -8 |  8 | 6
    -7 | -1 | 1
    ");
    assert!(same(&m.submatrix(2, 1), &sub));
}

#[test]
fn new_fills_every_cell() {
    let m = Matrix::new(2, 3, 7i64);
    assert_eq!(m.height(), 2);
    assert_eq!(m.width(), 3);
    assert!(!m.is_square());
    for r in 0..2 {
        for c in 0..3 {
            assert_eq!(m.get(r, c), 7);
        }
    }
}

#[test]
fn identity_has_one_on_the_diagonal_only() {
    let m = Matrix::identity(3, 0i64, 1i64);
    assert!(m.is_square());
    for r in 0..3 {
        for c in 0..3 {
            assert_eq!(m.get(r, c), if r == c { 1 } else { 0 });
        }
    }
}

#[test]
fn set_changes_one_cell() {
    let mut m = Matrix::new(2, 2, 0i64);
    m.set(1, 0, 5);
    assert_eq!(m.get(1, 0), 5);
    assert_eq!(m.get(0, 0), 0);
    assert_eq!(m.get(0, 1), 0);
    assert_eq!(m.get(1, 1), 0);
}

#[test]
fn transpose_moves_cells_across_the_diagonal() {
    let m = Matrix::from_cells(2, 2, 0i64, &vec![vec![1, 2], vec![3, 4]]).unwrap();
    let t = m.transpose();
    assert_eq!(t.get(0, 1), 3);
    assert_eq!(t.get(1, 0), 2);
    assert_eq!(t.get(0, 0), 1);
    assert_eq!(t.get(1, 1), 4);
}

#[test]
fn submatrix_of_two_by_two_is_one_cell() {
    let m = Matrix::from_cells(2, 2, 0i64, &vec![vec![1, 2], vec![3, 4]]).unwrap();
    let s = m.submatrix(0, 0);
    assert_eq!(s.height(), 1);
    assert_eq!(s.width(), 1);
    assert_eq!(s.get(0, 0), 4);
}

#[test]
fn from_cells_pads_with_fill() {
    let m = Matrix::from_cells(3, 3, -1i64, &vec![vec![1], vec![], vec![2, 3]]).unwrap();
    assert_eq!(m.get(0, 0), 1);
    assert_eq!(m.get(0, 1), -1);
    assert_eq!(m.get(1, 0), -1);
    assert_eq!(m.get(2, 1), 3);
    assert_eq!(m.get(2, 2), -1);
}

#[test]
fn from_cells_refuses_what_does_not_fit() {
    assert!(Matrix::from_cells(1, 2, 0i64, &vec![vec![1], vec![2]]).is_none());
    assert!(Matrix::from_cells(2, 2, 0i64, &vec![vec![1, 2, 3]]).is_none());
    assert!(Matrix::from_cells(0, 0, 0i64, &vec![]).is_some());
}
