use matrix_views::matrix::Matrix;
use matrix_views::view::{CoordMap, IndexMap, OffsetMap, TransposeMap};

fn coords(m: usize, n: usize) -> Matrix<(isize, isize)> {
    Matrix::new(m, n).fill_with(|idx: (isize, isize)| idx)
}

#[test]
fn view_scenario_five_by_ten() {
    let m = coords(10, 20);
    let v = m.view((5, 9), (10, 19));
    assert_eq!(v.get_dims(), (5, 10));
    assert_eq!(*v.index((0, 0)), (5, 10));
    assert_eq!(*v.index((4, 9)), (9, 19));
}

#[test]
fn view_domain_starts_at_zero() {
    let m = coords(10, 20);
    let v = m.view((2, 4), (3, 3));
    assert_eq!(v.get_domain(), ((0, 3), (0, 1)));
    assert_eq!(v.get_dims(), (3, 1));
    assert_eq!(*v.index((2, 0)), (4, 3));
}

#[test]
fn empty_view() {
    let m = coords(4, 4);
    let v = m.view((2, 1), (0, 3));
    assert_eq!(v.get_dims(), (0, 4));
    assert!(v.get((0, 0)).is_none());
}

#[test]
fn view_get_out_of_bounds() {
    let m = coords(10, 20);
    let v = m.view((5, 9), (10, 19));
    assert_eq!(v.get((4, 9)), Some(&(9, 19)));
    assert!(v.get((5, 0)).is_none());
    assert!(v.get((0, 10)).is_none());
    assert!(v.get((-1, 0)).is_none());
    let t = m.transpose();
    assert!(t.get((0, 10)).is_none());
    assert!(t.get((20, 0)).is_none());
    assert_eq!(t.get((19, 9)), Some(&(9, 19)));
}

#[test]
fn transpose_swaps_dims() {
    let m = coords(3, 5);
    let t = m.transpose();
    assert_eq!(t.get_dims(), (5, 3));
    assert_eq!(t.get_domain(), ((0, 5), (0, 3)));
}

#[test]
fn transpose_round_trip() {
    let m = coords(3, 5);
    let tt = m.transpose().transpose();
    assert_eq!(tt.get_dims(), m.get_dims());
    for i in 0..3 {
        for j in 0..5 {
            assert_eq!(tt.index((i, j)), m.index((i, j)));
        }
    }
}

#[test]
fn transpose_then_view() {
    let m = coords(10, 20);
    let tv = m.transpose().view((10, 19), (5, 9));
    assert_eq!(tv.get_dims(), (10, 5));
    assert_eq!(*tv.index((0, 0)), (5, 10));
    assert_eq!(*tv.index((3, 1)), (6, 13));
}

#[test]
fn view_then_transpose() {
    let m = coords(10, 20);
    let vt = m.view((5, 9), (10, 19)).transpose();
    assert_eq!(vt.get_dims(), (10, 5));
    assert_eq!(*vt.index((3, 1)), (6, 13));
}

#[test]
fn view_of_view() {
    let m = coords(10, 20);
    let vv = m.view((2, 9), (4, 19)).view((1, 3), (2, 5));
    assert_eq!(vv.get_dims(), (3, 4));
    assert_eq!(*vv.index((0, 0)), (3, 6));
    assert_eq!(*vv.index((2, 3)), (5, 9));
}

#[test]
fn offset_map_shifts() {
    let om = OffsetMap { start_offset: (2, 3), src_domain: ((2, 5), (3, 4)) };
    assert_eq!(om.get_domain(), ((0, 3), (0, 1)));
    assert_eq!(om.index_map((1, 0)), (3, 3));
    let cm = CoordMap::Offset(om);
    assert_eq!(cm.index_map((2, 0)), (4, 3));
}

#[test]
fn transpose_map_swaps() {
    let tm = TransposeMap { range_i: (0, 4), range_j: (0, 2) };
    assert_eq!(tm.get_domain(), ((0, 4), (0, 2)));
    assert_eq!(tm.index_map((3, 1)), (1, 3));
    let cm = CoordMap::Transpose(tm);
    assert_eq!(cm.get_domain(), ((0, 4), (0, 2)));
}
