use ray_tracer::{new_handle, ShapeType};

#[test]
fn the_normal_of_a_plane_is_constant_everywhere() {}

#[test]
fn new_shapes_get_distinct_handles() {
    let handles: Vec<u32> = (0..8).map(|_| new_handle()).collect();
    for i in 0..handles.len() {
        for j in 0..i {
            assert_ne!(handles[i], handles[j]);
        }
    }
}

#[test]
fn shape_types_compare_by_variant() {
    assert_eq!(ShapeType::Sphere, ShapeType::Sphere);
    assert_ne!(ShapeType::Sphere, ShapeType::Plane);
}
