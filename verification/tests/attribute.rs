use geo_proc::attribute::{Error, VertexAttributes};
use geo_proc::ids::VertexID;

type Attributes = VertexAttributes<[f32; 2], [f32; 3]>;

#[test]
fn a_stored_value_is_read_back() {
    let mut attributes = Attributes::new();
    attributes.set_vec3_attribute_at("color", &VertexID::new(2), &[1.0, 0.5, 0.0]);
    attributes.set_vec2_attribute_at("uv", &VertexID::new(2), &[0.25, 0.75]);
    assert_eq!(*attributes.get_vec3_attribute_at("color", &VertexID::new(2)).unwrap(), [1.0, 0.5, 0.0]);
    assert_eq!(*attributes.get_vec2_attribute_at("uv", &VertexID::new(2)).unwrap(), [0.25, 0.75]);
}

#[test]
fn a_second_value_replaces_the_first() {
    let mut attributes = Attributes::new();
    attributes.set_vec2_attribute_at("uv", &VertexID::new(0), &[0.0, 0.0]);
    attributes.set_vec2_attribute_at("uv", &VertexID::new(0), &[1.0, 1.0]);
    attributes.set_vec2_attribute_at("uv", &VertexID::new(1), &[2.0, 2.0]);
    assert_eq!(*attributes.get_vec2_attribute_at("uv", &VertexID::new(0)).unwrap(), [1.0, 1.0]);
    assert_eq!(*attributes.get_vec2_attribute_at("uv", &VertexID::new(1)).unwrap(), [2.0, 2.0]);
}

#[test]
fn the_two_kinds_keep_their_own_names() {
    let mut attributes = Attributes::new();
    attributes.set_vec3_attribute_at("position", &VertexID::new(0), &[1.0, 2.0, 3.0]);
    match attributes.get_vec2_attribute_at("position", &VertexID::new(0)) {
        Err(Error::FailedToFindCustomAttribute { message }) => {
            assert_eq!(message, "Failed to find position attribute");
        },
        _ => panic!("a name of the other kind was found"),
    }
}

#[test]
fn a_missing_name_is_reported() {
    let attributes = Attributes::new();
    match attributes.get_vec3_attribute_at("normal", &VertexID::new(4)) {
        Err(Error::FailedToFindCustomAttribute { message }) => {
            assert_eq!(message, "Failed to find normal attribute");
        },
        _ => panic!("expected a missing attribute"),
    }
}

#[test]
fn a_missing_vertex_is_reported() {
    let mut attributes = Attributes::new();
    attributes.set_vec3_attribute_at("normal", &VertexID::new(1), &[0.0, 0.0, 1.0]);
    match attributes.get_vec3_attribute_at("normal", &VertexID::new(4)) {
        Err(Error::FailedToFindEntryForVertexID { message }) => {
            assert_eq!(message, "Failed to find entry for normal attribute and (id: 4, dead: false)) vertex id");
        },
        _ => panic!("expected a missing entry"),
    }
}

#[test]
fn removing_a_vertex_drops_its_values_only() {
    let mut attributes = Attributes::new();
    attributes.set_vec3_attribute_at("normal", &VertexID::new(1), &[0.0, 0.0, 1.0]);
    attributes.set_vec3_attribute_at("normal", &VertexID::new(2), &[0.0, 1.0, 0.0]);
    attributes.set_vec2_attribute_at("uv", &VertexID::new(1), &[0.5, 0.5]);
    attributes.remove_vertex(&VertexID::new(1));
    assert!(matches!(
        attributes.get_vec3_attribute_at("normal", &VertexID::new(1)),
        Err(Error::FailedToFindEntryForVertexID { .. })
    ));
    assert!(matches!(
        attributes.get_vec2_attribute_at("uv", &VertexID::new(1)),
        Err(Error::FailedToFindEntryForVertexID { .. })
    ));
    assert_eq!(*attributes.get_vec3_attribute_at("normal", &VertexID::new(2)).unwrap(), [0.0, 1.0, 0.0]);
}
