use geo_proc::ids::{FaceID, HalfEdgeID, VertexID};

#[test]
fn test_equality() {
    let v0 = VertexID::new(0);
    let v1 = VertexID::new(1);
    let v1_ = VertexID::new(1);
    let vn1 = VertexID::null();
    let vn2 = VertexID::null();

    assert!(v0 != v1);
    assert!(v1 == v1_);
    assert!(v0 != vn1);
    assert!(vn1 == vn2);
}

#[test]
fn ids_render_as_text() {
    assert_eq!(VertexID::new(12).to_string(), "(id: 12, dead: false))");
    assert_eq!(HalfEdgeID::null().to_string(), "(id: 0, dead: true))");
    assert_eq!(FaceID::new(7).to_string(), "(id: 7, dead: false))");
}

#[test]
fn exactly_the_null_identifier_is_null() {
    assert!(VertexID::null().is_null());
    assert!(!VertexID::new(0).is_null());
    assert!(HalfEdgeID::null().is_null());
    assert!(!HalfEdgeID::new(3).is_null());
    assert!(FaceID::null().is_null());
    assert!(!FaceID::new(0).is_null());
    assert!(VertexID::new(0) != VertexID::null());
}

#[test]
fn an_index_gives_back_its_identifier() {
    let v = VertexID::new(41);
    assert_eq!(VertexID::new(v.val()), v);
    let h = HalfEdgeID::new(7);
    assert_eq!(HalfEdgeID::new(h.val()), h);
    let f = FaceID::new(0);
    assert_eq!(FaceID::new(f.val()), f);
}

#[test]
fn numbers_are_written_in_decimal() {
    assert_eq!(geo_proc::ids::decimal_string(0), "0");
    assert_eq!(geo_proc::ids::decimal_string(9), "9");
    assert_eq!(geo_proc::ids::decimal_string(10), "10");
    assert_eq!(geo_proc::ids::decimal_string(907), "907");
    assert_eq!(geo_proc::ids::decimal_string(18446744073709551615), "18446744073709551615");
}

#[test]
fn identifiers_are_ordered_by_index() {
    assert!(HalfEdgeID::new(1) < HalfEdgeID::new(2));
    assert!(!(HalfEdgeID::new(2) < HalfEdgeID::new(2)));
    assert!(FaceID::new(7) > FaceID::new(3));
    assert!(VertexID::new(0) < VertexID::new(1));
    assert!(VertexID::new(0) < VertexID::null() || VertexID::new(0) == VertexID::null() || VertexID::new(0) > VertexID::null());
    assert!(VertexID::new(0) < VertexID::null());
    assert_eq!(FaceID::new(4).partial_cmp(&FaceID::new(4)), Some(std::cmp::Ordering::Equal));
}
