use evo_core::matrix::Matrix;

#[test]
fn filled_has_requested_dimension_and_value() {
    let m = Matrix::filled(3, 7);
    assert_eq!(m.n, 3);
    for i in 0..3 {
        for j in 0..3 {
            assert_eq!(m.get(i, j), 7);
        }
    }
}

#[test]
fn zeros_is_all_zero() {
    let m = Matrix::zeros(4);
    assert!(m.is_all_zero());
    assert_eq!(m.get(2, 3), 0);
}

#[test]
fn set_changes_one_entry_only() {
    let mut m = Matrix::zeros(3);
    m.set(1, 2, 9);
    assert_eq!(m.get(1, 2), 9);
    assert_eq!(m.get(2, 1), 0);
    assert_eq!(m.get(0, 0), 0);
    assert!(!m.is_all_zero());
}

#[test]
fn duplicate_copies_every_entry() {
    let mut m = Matrix::zeros(2);
    m.set(0, 1, 5);
    m.set(1, 0, 6);
    let c = m.duplicate();
    assert_eq!(c.n, 2);
    assert_eq!(c.get(0, 1), 5);
    assert_eq!(c.get(1, 0), 6);
    assert_eq!(c.get(0, 0), 0);
}

#[test]
fn check_wf_rejects_ragged_storage() {
    let good = Matrix::zeros(2);
    assert!(good.check_wf());
    let bad = Matrix { n: 2, data: vec![0, 0, 0] };
    assert!(!bad.check_wf());
}
