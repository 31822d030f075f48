use matrix_views::matrix::Matrix;

#[test]
fn matrix_fill() {
    let m = Matrix::new(10, 20).fill(0.0);
    for i in 0..10 {
        for j in 0..20 {
            assert_eq!(*m.index((i, j)), 0.0);
        }
    }
}

#[test]
fn matrix_transpose() {
    let mut m = Matrix::new(10, 20);

    for i in 0..10 {
        for j in 0..20 {
            *m.index_mut((i, j)) = (i, j);
        }
    }

    let t = m.transpose();
    assert_eq!(t.get_dims(), (20, 10));
    for i in 0..20 {
        for j in 0..10 {
            assert_eq!(*t.index((i, j)), (j, i));
        }
    }
}

#[test]
fn matrix_view() {
    let mut m = Matrix::new(10, 20);

    for i in 0..10 {
        for j in 0..20 {
            *m.index_mut((i, j)) = (i, j);
        }
    }

    // rows 5 through 9 and columns 10 through 19, read in local coordinates
    let v = m.view((5, 9), (10, 19));
    for i in 5..10 {
        for j in 10..20 {
            assert_eq!(*v.index((i - 5, j - 10)), (i, j));
        }
    }
}

#[test]
fn matrix_mixed() {
    let m = Matrix::new(10, 20).fill_with(|idx: (isize, isize)| idx);

    for i in 0..10 {
        for j in 0..20 {
            assert_eq!(*m.index((i, j)), (i, j));
        }
    }

    let vt = m.view((5, 9), (10, 19)).transpose();
    for i in 5..10 {
        for j in 10..20 {
            assert_eq!(*vt.index((j - 10, i - 5)), (i, j));
        }
    }
}

#[test]
fn new_reports_dims() {
    let m: Matrix<u8> = Matrix::new(3, 7);
    assert_eq!(m.get_dims(), (3, 7));
    let e: Matrix<u8> = Matrix::new(0, 0);
    assert_eq!(e.get_dims(), (0, 0));
    assert!(e.get((0, 0)).is_none());
}

#[test]
fn fill_sets_every_cell() {
    let m = Matrix::new(4, 3).fill(7u32);
    for i in 0..4 {
        for j in 0..3 {
            assert_eq!(m.get((i, j)), Some(&7));
        }
    }
}

#[test]
fn fill_with_uses_each_coordinate() {
    let m = Matrix::new(3, 4).fill_with(|(i, j): (isize, isize)| 10 * i + j);
    assert_eq!(*m.index((0, 0)), 0);
    assert_eq!(*m.index((2, 0)), 20);
    assert_eq!(*m.index((1, 3)), 13);
    assert_eq!(*m.index((2, 3)), 23);
}

#[test]
fn index_mut_changes_one_cell() {
    let mut m = Matrix::new(2, 2).fill(0i64);
    *m.index_mut((1, 0)) = 5;
    assert_eq!(*m.index((1, 0)), 5);
    assert_eq!(*m.index((0, 0)), 0);
    assert_eq!(*m.index((0, 1)), 0);
    assert_eq!(*m.index((1, 1)), 0);
}

#[test]
fn matrix_get_out_of_bounds() {
    let m = Matrix::new(2, 3).fill(1u8);
    assert_eq!(m.get((1, 2)), Some(&1));
    assert!(m.get((2, 0)).is_none());
    assert!(m.get((0, 3)).is_none());
    assert!(m.get((-1, 0)).is_none());
    assert!(m.get((0, -1)).is_none());
}

#[test]
fn many_matrices_built_and_dropped() {
    for k in 0..50usize {
        let m = Matrix::new(k, k + 1).fill(k as u64);
        assert_eq!(m.get_dims(), (k, k + 1));
        if k > 0 {
            assert_eq!(*m.index(((k - 1) as isize, k as isize)), k as u64);
        }
    }
}
