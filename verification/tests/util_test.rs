use socha::util::{AxialCoords as Axial, CubeCoords, DoubledCoords as Doubled};

fn assert_bi_conversion(a: Axial, d: Doubled) {
    assert_eq!(a.to_doubled(), d);
    assert_eq!(d.to_axial(), a);
}

#[test]
fn test_doubled_axial_coords() {
    assert_bi_conversion(Axial::new(0, 1), Doubled::new(-1, -1));
    assert_bi_conversion(Axial::new(1, 0), Doubled::new(1, -1));
    assert_bi_conversion(Axial::new(-1, 1), Doubled::new(-2, 0));
    assert_bi_conversion(Axial::new(0, 0), Doubled::new(0, 0));
    assert_bi_conversion(Axial::new(1, -1), Doubled::new(2, 0));
    assert_bi_conversion(Axial::new(-2, 1), Doubled::new(-3, 1));
    assert_bi_conversion(Axial::new(-1, 0), Doubled::new(-1, 1));
    assert_bi_conversion(Axial::new(0, -1), Doubled::new(1, 1));
}

#[test]
fn cube_coords_validity() {
    assert!(CubeCoords::new_valid(1, 2, -3).is_some());
    assert!(CubeCoords::new_valid(1, 2, 3).is_none());
    for (x, y) in [(0, 0), (3, -2), (-5, 1)] {
        let c = Axial::new(x, y).to_cube();
        assert_eq!(c.x() + c.y() + c.z(), 0);
    }
}

#[test]
fn line_iter_walks_between() {
    let a = CubeCoords::new(0, 0, 0);
    let b = CubeCoords::new(3, -3, 0);
    let mut it = a.line_iter(b);
    assert_eq!(it.next(), Some(CubeCoords::new(1, -1, 0)));
    assert_eq!(it.next(), Some(CubeCoords::new(2, -2, 0)));
    assert_eq!(it.next(), None);
}
