use matrix_oxide::Matrix;

#[test]
fn test_relu() {
    let matrix = Matrix {
        data: vec![1.0, -2.0, 3.0, -4.0, 5.0, -6.0, 7.0, -8.0, 9.0],
        row_size: 3,
        col_size: 3,
    };

    let expected = vec![1.0, 0.0, 3.0, 0.0, 5.0, 0.0, 7.0, 0.0, 9.0];
    let result = matrix.relu();

    assert_eq!(result.data, expected);
}

#[test]
fn test_leaky_relu() {
    let matrix = Matrix {
        data: vec![1.0, -2.0, 3.0, -4.0, 5.0, -6.0, 7.0, -8.0, 9.0],
        row_size: 3,
        col_size: 3,
    };

    let alpha = 0.1;

    let expected = vec![
        1.0,
        -0.2,
        3.0,
        -0.4,
        5.0,
        -0.6000000000000001,
        7.0,
        -0.8,
        9.0,
    ];
    let result = matrix.leaky_relu(alpha);

    assert_eq!(result.data, expected);
}

#[test]
fn test_relu_backward() {
    let matrix = Matrix {
        data: vec![1, -2, 3, -4, 5, -6, 7, -8, 9],
        row_size: 3,
        col_size: 3,
    };

    let expected = vec![1, 0, 1, 0, 1, 0, 1, 0, 1];
    let result = matrix.relu_backward();

    assert_eq!(result.data, expected);
}

#[test]
fn relu_on_integers_clears_negatives() {
    let m = Matrix::from_data(3, 3, vec![1i64, -2, 3, -4, 5, -6, 7, -8, 9]).unwrap();
    let r = m.relu();
    assert_eq!(r.data, vec![1, 0, 3, 0, 5, 0, 7, 0, 9]);
    assert_eq!((r.rows(), r.cols()), (3, 3));
    assert!(r.data.iter().all(|&x| x >= 0));
}

#[test]
fn relu_keeps_positive_matrix() {
    let m = Matrix::from_data(2, 2, vec![4i32, 1, 7, 2]).unwrap();
    assert_eq!(m.relu().data, m.data);
}

#[test]
fn relu_keeps_zero() {
    let m = Matrix::from_data(1, 3, vec![0i64, -1, 1]).unwrap();
    assert_eq!(m.relu().data, vec![0, 0, 1]);
}

#[test]
fn leaky_relu_on_integers() {
    let m = Matrix::from_data(1, 4, vec![-3i64, 0, 5, -1]).unwrap();
    assert_eq!(m.leaky_relu(2).data, vec![-6, 0, 5, -2]);
}

#[test]
fn relu_backward_gradient_at_zero_is_one() {
    let m = Matrix::from_data(2, 2, vec![0i64, -1, 2, -7]).unwrap();
    let g = m.relu_backward();
    assert_eq!(g.data, vec![1, 0, 1, 0]);
    assert_eq!((g.rows(), g.cols()), (2, 2));
}

#[test]
fn relu_on_empty_matrix() {
    let m: Matrix<i64> = Matrix::new(0, 4);
    let r = m.relu();
    assert!(r.data.is_empty());
    assert_eq!((r.rows(), r.cols()), (0, 4));
}
