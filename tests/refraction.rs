use ray_tracer::{new_handle, refraction_boundary, Boundary};

fn index_of(position: Option<usize>, indices: &[f64]) -> f64 {
    match position {
        Some(p) => indices[p],
        None => 1.0,
    }
}

#[test]
fn finding_n1_and_n2_and_various_intersections() {
    let a = new_handle();
    let b = new_handle();
    let c = new_handle();
    // intersections at t = 2, 2.75, 3.25, 4.75, 5.25, 6
    let handles = vec![a, b, c, b, c, a];
    let indices = [1.5, 2.0, 2.5, 2.0, 2.5, 1.5];
    let expected = [(1.0, 1.5), (1.5, 2.0), (2.0, 2.5), (2.5, 2.5), (2.5, 1.5), (1.5, 1.0)];
    for (hit, (n1, n2)) in expected.iter().enumerate() {
        let boundary = refraction_boundary(&handles, hit);
        assert_eq!(index_of(boundary.leaving, &indices), *n1);
        assert_eq!(index_of(boundary.entering, &indices), *n2);
    }
}

#[test]
fn nested_boundaries_name_the_entering_intersections() {
    let handles = vec![10, 20, 30, 20, 30, 10];
    assert_eq!(
        refraction_boundary(&handles, 3),
        Boundary { leaving: Some(2), entering: Some(2) }
    );
    assert_eq!(
        refraction_boundary(&handles, 4),
        Boundary { leaving: Some(2), entering: Some(0) }
    );
    assert_eq!(
        refraction_boundary(&handles, 5),
        Boundary { leaving: Some(0), entering: None }
    );
}

#[test]
fn a_single_hit_enters_its_shape_from_vacuum() {
    let handles = vec![7];
    assert_eq!(
        refraction_boundary(&handles, 0),
        Boundary { leaving: None, entering: Some(0) }
    );
}

#[test]
fn leaving_a_shape_that_was_not_entered_last() {
    // enter 1, enter 2, leave 1: the ray is then inside 2 only
    let handles = vec![1, 2, 1, 2];
    assert_eq!(
        refraction_boundary(&handles, 2),
        Boundary { leaving: Some(1), entering: Some(1) }
    );
    assert_eq!(
        refraction_boundary(&handles, 3),
        Boundary { leaving: Some(1), entering: None }
    );
}
