use matrix_oxide::{Matrix, MatrixError};

fn m(rows: usize, cols: usize, data: Vec<i64>) -> Matrix<i64> {
    Matrix::from_data(rows, cols, data).unwrap()
}

#[test]
fn add_scenario() {
    let a = m(2, 2, vec![1, 2, 3, 4]);
    let b = m(2, 2, vec![4, 3, 2, 1]);
    let c = a.add(&b).unwrap();
    assert_eq!(c.data, vec![5, 5, 5, 5]);
    assert_eq!((c.rows(), c.cols()), (2, 2));
}

#[test]
fn sub_scenario() {
    let a = m(2, 3, vec![1, 2, 3, 4, 5, 6]);
    let b = m(2, 3, vec![6, 5, 4, 3, 2, 1]);
    let c = a.sub(&b).unwrap();
    assert_eq!(c.data, vec![-5, -3, -1, 1, 3, 5]);
}

#[test]
fn scalar_multiply_scenario() {
    let a = m(2, 2, vec![1, 2, 3, 4]);
    assert_eq!(a.scalar_multiply(2).data, vec![2, 4, 6, 8]);
}

#[test]
fn transpose_scenario() {
    let a = m(2, 3, vec![0, 1, 2, 3, 4, 5]);
    let t = a.transpose();
    assert_eq!((t.rows(), t.cols()), (3, 2));
    assert_eq!(t.data, vec![0, 3, 1, 4, 2, 5]);
}

#[test]
fn trace_and_diagonal_scenario() {
    let a = m(2, 2, vec![1, 2, 3, 4]);
    assert_eq!(a.diagonal(), vec![1, 4]);
    assert_eq!(a.trace(), 5);
}

#[test]
fn diagonal_of_wide_and_tall_matrices() {
    let wide = m(2, 3, vec![1, 2, 3, 4, 5, 6]);
    assert_eq!(wide.diagonal(), vec![1, 5]);
    assert_eq!(wide.trace(), 6);
    let tall = m(3, 2, vec![1, 2, 3, 4, 5, 6]);
    assert_eq!(tall.diagonal(), vec![1, 4]);
}

#[test]
fn add_shape_mismatch() {
    let a = m(2, 2, vec![1, 2, 3, 4]);
    let b = m(1, 4, vec![1, 2, 3, 4]);
    assert_eq!(a.add(&b).unwrap_err(), MatrixError::ShapeMismatch);
    assert_eq!(a.sub(&b).unwrap_err(), MatrixError::ShapeMismatch);
}

#[test]
fn multiply_shape_mismatch() {
    let a = m(2, 3, vec![1, 2, 3, 4, 5, 6]);
    let b = m(2, 3, vec![1, 2, 3, 4, 5, 6]);
    assert_eq!(a.multiply(&b).unwrap_err(), MatrixError::ShapeMismatch);
}

#[test]
fn from_data_wrong_length() {
    let r = Matrix::from_data(2, 2, vec![1i64, 2, 3]);
    assert_eq!(r.unwrap_err(), MatrixError::ConstructionError);
}

#[test]
fn multiply_values_and_shape() {
    let a = m(2, 3, vec![1, 2, 3, 4, 5, 6]);
    let b = m(3, 2, vec![7, 8, 9, 10, 11, 12]);
    let c = a.multiply(&b).unwrap();
    assert_eq!((c.rows(), c.cols()), (2, 2));
    assert_eq!(c.data, vec![58, 64, 139, 154]);
}

#[test]
fn multiply_by_identity() {
    let a = m(3, 3, vec![2, -1, 0, 4, 5, 6, -7, 8, 9]);
    let id = m(3, 3, vec![1, 0, 0, 0, 1, 0, 0, 0, 1]);
    assert_eq!(a.multiply(&id).unwrap().data, a.data);
    assert_eq!(id.multiply(&a).unwrap().data, a.data);
}

#[test]
fn multiply_floats() {
    let a = Matrix::from_data(1, 2, vec![0.5f64, 2.0]).unwrap();
    let b = Matrix::from_data(2, 1, vec![4.0f64, 0.25]).unwrap();
    assert_eq!(a.multiply(&b).unwrap().data, vec![2.5]);
}

#[test]
fn trace_of_products_commutes() {
    let a = m(2, 2, vec![1, 2, 3, 4]);
    let b = m(2, 2, vec![5, -6, 7, 8]);
    let ab = a.multiply(&b).unwrap();
    let ba = b.multiply(&a).unwrap();
    assert_eq!(ab.trace(), ba.trace());
    assert_eq!(ab.trace(), 33);
}

#[test]
fn transpose_twice_is_identity() {
    let a = m(2, 3, vec![0, 1, 2, 3, 4, 5]);
    let tt = a.transpose().transpose();
    assert_eq!((tt.rows(), tt.cols()), (2, 3));
    assert_eq!(tt.data, a.data);
}

#[test]
fn add_zero_and_sub_self() {
    let a = m(2, 3, vec![3, -1, 4, 1, -5, 9]);
    let zero: Matrix<i64> = Matrix::new(2, 3);
    assert_eq!(zero.data, vec![0; 6]);
    assert_eq!(a.add(&zero).unwrap().data, a.data);
    assert_eq!(a.sub(&a).unwrap().data, zero.data);
}

#[test]
fn scalar_multiply_distributes() {
    let a = m(2, 2, vec![1, -2, 3, 4]);
    let b = m(2, 2, vec![5, 6, -7, 8]);
    let left = a.add(&b).unwrap().scalar_multiply(3);
    let right = a.scalar_multiply(3).add(&b.scalar_multiply(3)).unwrap();
    assert_eq!(left.data, right.data);
    assert_eq!(left.data, vec![18, 12, -12, 36]);
}

#[test]
fn get_and_set() {
    let mut a = m(2, 2, vec![1, 2, 3, 4]);
    assert_eq!(a.get(1, 0), Some(3));
    assert_eq!(a.get(2, 0), None);
    assert_eq!(a.get(0, 2), None);
    assert!(a.set(0, 1, 9));
    assert_eq!(a.data, vec![1, 9, 3, 4]);
    assert!(!a.set(0, 2, 7));
    assert_eq!(a.data, vec![1, 9, 3, 4]);
}

#[test]
fn row_and_column() {
    let a = m(2, 3, vec![0, 1, 2, 3, 4, 5]);
    assert_eq!(a.row(1), Some(vec![3, 4, 5]));
    assert_eq!(a.row(2), None);
    assert_eq!(a.column(2), Some(vec![2, 5]));
    assert_eq!(a.column(3), None);
}

#[test]
fn empty_matrix_operations() {
    let a: Matrix<i64> = Matrix::new(0, 3);
    assert_eq!(a.row(0), None);
    assert_eq!(a.column(0), Some(vec![]));
    assert_eq!(a.trace(), 0);
    assert!(a.diagonal().is_empty());
    let t = a.transpose();
    assert_eq!((t.rows(), t.cols()), (3, 0));
}

#[test]
fn get_mut_updates_in_place() {
    let mut a = m(2, 2, vec![1, 2, 3, 4]);
    if let Some(x) = a.get_mut(1, 1) {
        assert_eq!(*x, 4);
        *x = 40;
    }
    assert_eq!(a.data, vec![1, 2, 3, 40]);
    assert!(a.get_mut(2, 1).is_none());
    assert!(a.get_mut(1, 2).is_none());
}
