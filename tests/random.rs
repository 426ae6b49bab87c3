use matrix_oxide::Matrix;

#[test]
fn random_has_requested_shape() {
    let m = Matrix::new_random_seeded(3, 4, 42);
    assert_eq!((m.rows(), m.cols()), (3, 4));
    assert_eq!(m.data.len(), 12);
}

#[test]
fn random_is_reproducible_per_seed() {
    let a = Matrix::new_random_seeded(2, 5, 7);
    let b = Matrix::new_random_seeded(2, 5, 7);
    let c = Matrix::new_random_seeded(2, 5, 8);
    assert_eq!(a.data, b.data);
    assert_ne!(a.data, c.data);
}

#[test]
fn random_first_word_of_seed_zero() {
    let m = Matrix::new_random_seeded(1, 2, 0);
    assert_eq!(m.data[0], 0xE220_A839_7B1D_CDAF);
    assert_ne!(m.data[0], m.data[1]);
}
