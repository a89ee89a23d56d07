use mlp::error::Error;
use mlp::linalg::Matrix;

fn matrix(m: usize, n: usize, values: &[f64]) -> Matrix<f64> {
    Matrix::from(m, n, values).unwrap()
}

#[test]
fn test_matrix() {
    let m: Matrix<f64> = Matrix::new(2, 3);
    assert_eq!(m.size(), (2, 3));
    let m = matrix(2, 3, &[1.0, 2.0, 3.0, 4.0, 5.0, 6.0]);
    assert_eq!(m.size(), (2, 3));
    assert_eq!(m.get(0, 0), Ok(1.0));
    assert_eq!(m.get(0, 1), Ok(2.0));
    assert_eq!(m.get(0, 2), Ok(3.0));
    assert_eq!(m.get(1, 0), Ok(4.0));
    assert_eq!(m.get(1, 1), Ok(5.0));
    assert_eq!(m.get(1, 2), Ok(6.0));

    let m = m.transpose();
    assert_eq!(m.size(), (3, 2));
    assert_eq!(m.get(0, 0), Ok(1.0));
    assert_eq!(m.get(0, 1), Ok(4.0));
    assert_eq!(m.get(1, 0), Ok(2.0));
    assert_eq!(m.get(1, 1), Ok(5.0));
    assert_eq!(m.get(2, 0), Ok(3.0));
    assert_eq!(m.get(2, 1), Ok(6.0));

    let m = m.map(|x| x * 2.0);
    assert_eq!(m.size(), (3, 2));
    assert_eq!(m.get(0, 0), Ok(2.0));
    assert_eq!(m.get(0, 1), Ok(8.0));
    assert_eq!(m.get(1, 0), Ok(4.0));
    assert_eq!(m.get(1, 1), Ok(10.0));
    assert_eq!(m.get(2, 0), Ok(6.0));

    let m = m.get_row(1).unwrap();
    assert_eq!(m.size(), (1, 2));
    assert_eq!(m.get(0, 0), Ok(4.0));
    assert_eq!(m.get(0, 1), Ok(10.0));

    let m = matrix(2, 3, &[1.0, 2.0, 3.0, 4.0, 5.0, 6.0]);
    let n = matrix(2, 3, &[5.0, 6.0, 7.0, 8.0, 9.0, 10.0]);
    let res = m.add(&n).unwrap();
    assert_eq!(res.size(), (2, 3));
    assert_eq!(res.get(0, 0), Ok(6.0));
    assert_eq!(res.get(0, 1), Ok(8.0));
    assert_eq!(res.get(0, 2), Ok(10.0));
    assert_eq!(res.get(1, 0), Ok(12.0));
    assert_eq!(res.get(1, 1), Ok(14.0));
    assert_eq!(res.get(1, 2), Ok(16.0));

    let res = m.dot(&n.transpose()).unwrap();
    assert_eq!(res.size(), (2, 2));
    assert_eq!(res.get(0, 0), Ok(38.0));
    assert_eq!(res.get(0, 1), Ok(56.0));
    assert_eq!(res.get(1, 0), Ok(92.0));
    assert_eq!(res.get(1, 1), Ok(137.0));

    let a = matrix(3, 2, &[1.0, 2.0, 3.0, 4.0, 5.0, 6.0]);
    let res = a.normalize();
    println!("{:?}", res);
}

#[test]
fn new_is_all_zero() {
    let m: Matrix<f64> = Matrix::new(3, 2);
    assert_eq!(m.rows(), 3);
    assert_eq!(m.cols(), 2);
    for i in 0..3 {
        for j in 0..2 {
            assert_eq!(m.get(i, j), Ok(0.0));
        }
    }
}

#[test]
fn zero_sized_matrices_are_allowed() {
    let m: Matrix<f64> = Matrix::new(0, 4);
    assert_eq!(m.size(), (0, 4));
    let t = m.transpose();
    assert_eq!(t.size(), (4, 0));
    assert_eq!(t.get(0, 0), Err(Error::IndexOutOfBounds));
    let e = Matrix::<f64>::from(0, 0, &[]).unwrap();
    assert_eq!(e.size(), (0, 0));
}

#[test]
fn from_checks_the_length() {
    assert!(Matrix::from(2, 3, &[1.0, 2.0, 3.0, 4.0, 5.0, 6.0]).is_ok());
    assert_eq!(Matrix::from(2, 3, &[1.0, 2.0, 3.0, 4.0, 5.0]).err(), Some(Error::ShapeMismatch));
    assert_eq!(Matrix::from(3, 3, &[1.0, 2.0, 3.0, 4.0, 5.0, 6.0]).err(), Some(Error::ShapeMismatch));
    assert_eq!(Matrix::from(usize::MAX, 2, &[1.0, 2.0]).err(), Some(Error::ShapeMismatch));
    assert_eq!(Matrix::from(2, 3, &[1.0, 2.0, 3.0, 4.0, 5.0, 6.0]).unwrap().size(), (2, 3));
}

#[test]
fn from_fills_row_by_row() {
    let m = matrix(2, 3, &[1.0, 2.0, 3.0, 4.0, 5.0, 6.0]);
    let by_cell = Matrix::from_fn(2, 3, |i, j| (i * 3 + j + 1) as f64);
    assert_eq!(m, by_cell);
}

#[test]
fn get_is_bounds_checked() {
    let m = matrix(2, 3, &[1.0, 2.0, 3.0, 4.0, 5.0, 6.0]);
    assert_eq!(m.get(1, 2), Ok(6.0));
    assert_eq!(m.get(2, 0), Err(Error::IndexOutOfBounds));
    assert_eq!(m.get(0, 3), Err(Error::IndexOutOfBounds));
    assert_eq!(m.get(usize::MAX, usize::MAX), Err(Error::IndexOutOfBounds));
}

#[test]
fn transposing_twice_gives_the_matrix_back() {
    let m = matrix(2, 3, &[1.0, -2.0, 3.5, 4.0, 0.0, 6.25]);
    assert_eq!(m.transpose().size(), (3, 2));
    assert_eq!(m.transpose().transpose(), m);
    let column = matrix(4, 1, &[1.0, 2.0, 3.0, 4.0]);
    assert_eq!(column.transpose().transpose(), column);
}

#[test]
fn get_row_gives_each_row() {
    let m = matrix(3, 2, &[1.0, 2.0, 3.0, 4.0, 5.0, 6.0]);
    assert_eq!(m.get_row(0).unwrap(), matrix(1, 2, &[1.0, 2.0]));
    assert_eq!(m.get_row(1).unwrap(), matrix(1, 2, &[3.0, 4.0]));
    assert_eq!(m.get_row(2).unwrap(), matrix(1, 2, &[5.0, 6.0]));
    assert_eq!(m.get_row(3).err(), Some(Error::IndexOutOfBounds));
}

#[test]
fn add_then_sub_gives_the_matrix_back() {
    let a = matrix(2, 2, &[1.0, 2.5, -3.0, 4.0]);
    let b = matrix(2, 2, &[0.5, 8.0, 16.0, -2.0]);
    let sum = a.add(&b).unwrap();
    assert_eq!(sum, matrix(2, 2, &[1.5, 10.5, 13.0, 2.0]));
    assert_eq!(sum.sub(&b).unwrap(), a);
}

#[test]
fn add_commutes() {
    let a = matrix(2, 2, &[1.0, 2.5, -3.0, 4.0]);
    let b = matrix(2, 2, &[0.5, 8.0, 16.0, -2.0]);
    assert_eq!(a.add(&b).unwrap(), b.add(&a).unwrap());
}

#[test]
fn sub_is_entrywise() {
    let a = matrix(1, 3, &[5.0, 7.0, 9.0]);
    let b = matrix(1, 3, &[1.0, 9.0, 9.0]);
    assert_eq!(a.sub(&b).unwrap(), matrix(1, 3, &[4.0, -2.0, 0.0]));
}

#[test]
fn scale_multiplies_every_entry() {
    let a = matrix(2, 2, &[1.0, -2.0, 0.0, 4.5]);
    assert_eq!(a.scale(2.0), matrix(2, 2, &[2.0, -4.0, 0.0, 9.0]));
}

#[test]
fn hadamard_is_entrywise() {
    let a = matrix(2, 2, &[1.0, 2.0, 3.0, 4.0]);
    let b = matrix(2, 2, &[5.0, 6.0, 7.0, 0.5]);
    assert_eq!(a.hadamard(&b).unwrap(), matrix(2, 2, &[5.0, 12.0, 21.0, 2.0]));
}

#[test]
fn product_of_the_two_by_three_matrices() {
    let a = matrix(2, 3, &[1.0, 2.0, 3.0, 4.0, 5.0, 6.0]);
    let b = matrix(2, 3, &[5.0, 6.0, 7.0, 8.0, 9.0, 10.0]);
    let product = a.dot(&b.transpose()).unwrap();
    assert_eq!(product, matrix(2, 2, &[38.0, 56.0, 92.0, 137.0]));
}

#[test]
fn product_with_no_inner_dimension_is_zero() {
    let a: Matrix<f64> = Matrix::new(2, 0);
    let b: Matrix<f64> = Matrix::new(0, 3);
    assert_eq!(a.dot(&b).unwrap(), Matrix::new(2, 3));
}

#[test]
fn product_adds_from_the_left() {
    // 1e16 + 1 is not representable: added from the left the ones are lost,
    // added from the right they would not be.
    let a = matrix(1, 3, &[1e16, 1.0, 1.0]);
    let b = matrix(3, 1, &[1.0, 1.0, 1.0]);
    assert_eq!(a.dot(&b).unwrap().get(0, 0), Ok(1e16));
}

#[test]
fn mismatched_shapes_are_refused() {
    let a = matrix(2, 3, &[1.0, 2.0, 3.0, 4.0, 5.0, 6.0]);
    let b = matrix(2, 3, &[5.0, 6.0, 7.0, 8.0, 9.0, 10.0]);
    assert_eq!(a.dot(&b).err(), Some(Error::ShapeMismatch));
    let c = matrix(3, 2, &[1.0, 2.0, 3.0, 4.0, 5.0, 6.0]);
    assert_eq!(a.add(&c).err(), Some(Error::ShapeMismatch));
    assert_eq!(a.sub(&c).err(), Some(Error::ShapeMismatch));
    assert_eq!(a.hadamard(&c).err(), Some(Error::ShapeMismatch));
}

#[test]
fn normalize_single_column() {
    let m = matrix(3, 1, &[1.0, 3.0, 5.0]);
    assert_eq!(m.normalize(), matrix(3, 1, &[0.0, 0.5, 1.0]));
}

#[test]
fn normalize_works_column_by_column() {
    let m = matrix(3, 2, &[1.0, 2.0, 3.0, 4.0, 5.0, 6.0]);
    assert_eq!(m.normalize(), matrix(3, 2, &[0.0, 0.0, 0.5, 0.5, 1.0, 1.0]));
    let m = matrix(3, 2, &[4.0, -1.0, 0.0, 7.0, 2.0, 3.0]);
    assert_eq!(m.normalize(), matrix(3, 2, &[1.0, 0.0, 0.0, 1.0, 0.5, 0.5]));
}

#[test]
fn normalize_of_a_constant_column_is_not_finite() {
    let m = matrix(2, 2, &[2.0, 1.0, 2.0, 3.0]);
    let n = m.normalize();
    assert!(n.get(0, 0).unwrap().is_nan());
    assert!(n.get(1, 0).unwrap().is_nan());
    assert_eq!(n.get(0, 1), Ok(0.0));
    assert_eq!(n.get(1, 1), Ok(1.0));
}

#[test]
fn normalize_without_rows_changes_nothing() {
    let m: Matrix<f64> = Matrix::new(0, 3);
    assert_eq!(m.normalize().size(), (0, 3));
}

#[test]
fn slices_are_half_open() {
    let m = matrix(3, 3, &[1.0, 2.0, 3.0, 4.0, 5.0, 6.0, 7.0, 8.0, 9.0]);
    assert_eq!(m.slice_x(1..3).unwrap(), matrix(3, 2, &[2.0, 3.0, 5.0, 6.0, 8.0, 9.0]));
    assert_eq!(m.slice_x(0..1).unwrap(), matrix(3, 1, &[1.0, 4.0, 7.0]));
    assert_eq!(m.slice_y(1..3).unwrap(), matrix(2, 3, &[4.0, 5.0, 6.0, 7.0, 8.0, 9.0]));
    assert_eq!(m.slice_y(0..3).unwrap(), m);
    assert_eq!(m.slice_x(0..3).unwrap(), m);
}

#[test]
fn empty_slices_have_no_columns_or_rows() {
    let m = matrix(2, 2, &[1.0, 2.0, 3.0, 4.0]);
    assert_eq!(m.slice_x(1..1).unwrap().size(), (2, 0));
    assert_eq!(m.slice_y(2..2).unwrap().size(), (0, 2));
    assert_eq!(m.slice_x(2..1).unwrap().size(), (2, 0));
    assert_eq!(m.slice_y(5..5).unwrap().size(), (0, 2));
}

#[test]
fn slices_out_of_range_are_refused() {
    let m = matrix(2, 2, &[1.0, 2.0, 3.0, 4.0]);
    assert_eq!(m.slice_x(1..3).err(), Some(Error::IndexOutOfBounds));
    assert_eq!(m.slice_y(0..3).err(), Some(Error::IndexOutOfBounds));
    assert_eq!(m.slice_y(2..4).err(), Some(Error::IndexOutOfBounds));
}

#[test]
fn clear_sets_every_entry_to_zero() {
    let mut m = matrix(2, 2, &[1.0, 2.0, 3.0, 4.0]);
    m.clear();
    assert_eq!(m, Matrix::new(2, 2));
    assert_eq!(m.size(), (2, 2));
}

#[test]
fn matrices_of_different_shapes_are_never_equal() {
    let a = matrix(2, 3, &[0.0; 6]);
    let b = matrix(3, 2, &[0.0; 6]);
    assert!(a != b);
    assert!(!a.equals(&b));
    assert!(a == matrix(2, 3, &[0.0; 6]));
    assert!(a != matrix(2, 3, &[0.0, 0.0, 0.0, 0.0, 0.0, 1.0]));
    let nan = matrix(1, 1, &[f64::NAN]);
    assert!(nan != nan.clone());
}

#[test]
fn clone_keeps_the_entries() {
    let a = matrix(2, 2, &[1.0, 2.0, 3.0, 4.0]);
    let b = a.clone();
    assert_eq!(a, b);
}

#[test]
fn map_applies_row_by_row() {
    let m = matrix(2, 2, &[1.0, 2.0, 3.0, 4.0]);
    let seen = std::cell::RefCell::new(Vec::new());
    let doubled = m.map(|x| {
        seen.borrow_mut().push(x);
        x + x
    });
    assert_eq!(doubled, matrix(2, 2, &[2.0, 4.0, 6.0, 8.0]));
    assert_eq!(*seen.borrow(), vec![1.0, 2.0, 3.0, 4.0]);
    let halve = |x: f64| x / 2.0;
    assert_eq!(m.map_with(&halve), matrix(2, 2, &[0.5, 1.0, 1.5, 2.0]));
}

#[test]
fn the_matrix_works_on_integers_too() {
    let a = Matrix::<i64>::from(2, 2, &[1, 2, 3, 4]).unwrap();
    let b = Matrix::<i64>::from(2, 2, &[5, 6, 7, 8]).unwrap();
    assert_eq!(a.dot(&b).unwrap(), Matrix::<i64>::from(2, 2, &[19, 22, 43, 50]).unwrap());
    assert_eq!(a.add(&b).unwrap().sub(&b).unwrap(), a);
}

#[test]
fn randomize_keeps_the_shape() {
    let m: Matrix<f64> = Matrix::new(3, 4);
    let r = m.randomize();
    assert_eq!(r.size(), (3, 4));
    for i in 0..3 {
        for j in 0..4 {
            let x = r.get(i, j).unwrap();
            assert!(0.0 <= x && x < 1.0);
        }
    }
}

#[test]
fn a_seed_fixes_the_entries() {
    let m: Matrix<f64> = Matrix::new(3, 4);
    let a = m.randomize_seeded(11);
    let b = m.randomize_seeded(11);
    let c = m.randomize_seeded(12);
    assert_eq!(a.size(), (3, 4));
    assert_eq!(a, b);
    assert!(a != c);
    assert!(a != m);
    for i in 0..3 {
        for j in 0..4 {
            let x = a.get(i, j).unwrap();
            assert!(0.0 <= x && x < 1.0);
        }
    }
    let first = a.get(0, 0).unwrap();
    assert!(a.map(|x| if x == first { 0.0 } else { 1.0 }) != Matrix::new(3, 4));
}

#[test]
fn render_lays_out_row_by_row() {
    let m = matrix(2, 3, &[1.0, 2.0, 3.0, 4.0, 5.0, 6.5]);
    assert_eq!(
        m.render(|x| format!("{:.5}", x)),
        "1.00000 2.00000 3.00000 \n4.00000 5.00000 6.50000 \n"
    );
    assert_eq!(m.render(|x| format!("{}", x)), "1 2 3 \n4 5 6.5 \n");
    assert_eq!(Matrix::<f64>::new(0, 3).render(|x| format!("{}", x)), "");
    assert_eq!(Matrix::<f64>::new(2, 0).render(|x| format!("{}", x)), "\n\n");
}
