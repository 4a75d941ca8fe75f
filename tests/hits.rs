use ray_tracer::{hit, order_by_distance};

/// Orders distances as f64 orders them; non-negative exactly for `t >= 0`.
fn order_key(t: f64) -> i64 {
    let bits = t.to_bits() as i64;
    if bits >= 0 {
        bits
    } else {
        -(bits & i64::MAX)
    }
}

fn keys_of(ts: &[f64]) -> Vec<i64> {
    ts.iter().map(|t| order_key(*t)).collect()
}

/// The hit among intersections on distinct shapes, as its distance.
fn hit_of(ts: &[f64]) -> Option<f64> {
    let handles: Vec<u32> = (0..ts.len() as u32).collect();
    hit(&keys_of(ts), &handles).map(|i| ts[i])
}

#[test]
fn intersections_hit_when_all_intersections_are_postive() {
    // one shape, intersections at t = 2 and t = 1
    let handles = vec![7, 7];
    assert_eq!(hit(&keys_of(&[2., 1.]), &handles), Some(1));
}

#[test]
fn intersections_hit_when_intersections_are_inside() {
    let handles = vec![7, 7];
    assert_eq!(hit(&keys_of(&[1., -1.]), &handles), Some(0));
}

#[test]
fn intersections_hit_when_intersections_are_negative() {
    let handles = vec![7, 7];
    assert_eq!(hit(&keys_of(&[-1., -2.]), &handles), None);
}

#[test]
fn intersections_hit_is_lowest_non_negative() {
    let handles = vec![7, 7, 7, 7];
    assert_eq!(hit(&keys_of(&[5., 7., -3., 2.]), &handles), Some(3));
}

#[test]
fn no_intersections_no_hit() {
    assert_eq!(hit(&vec![], &vec![]), None);
}

#[test]
fn zero_is_a_hit() {
    assert_eq!(hit_of(&[-0.5, 0., 3.]), Some(0.));
    assert_eq!(hit_of(&[-0.0]), Some(0.));
}

#[test]
fn equally_near_intersections_go_to_the_smallest_handle() {
    assert_eq!(hit(&vec![4, 2, 2, 9], &vec![1, 8, 3, 0]), Some(2));
    assert_eq!(hit(&vec![5, 5], &vec![2, 1]), Some(1));
    assert_eq!(hit(&vec![5, 5], &vec![1, 2]), Some(0));
}

#[test]
fn copies_of_one_intersection_give_the_first() {
    assert_eq!(hit(&vec![3, 3], &vec![4, 4]), Some(0));
}

#[test]
fn the_hit_is_the_same_for_reversed_intersections() {
    let keys = keys_of(&[5., 1., -3., 2., 1., -0.1]);
    let handles = vec![10, 30, 20, 40, 25, 5];
    let rev_keys: Vec<i64> = keys.iter().rev().cloned().collect();
    let rev_handles: Vec<u32> = handles.iter().rev().cloned().collect();
    let i = hit(&keys, &handles).unwrap();
    let k = hit(&rev_keys, &rev_handles).unwrap();
    assert_eq!((keys[i], handles[i]), (rev_keys[k], rev_handles[k]));
    assert_eq!(handles[i], 25);
}

#[test]
fn the_hit_of_a_hit_is_itself() {
    let first = hit_of(&[3., -1., 1.5]).unwrap();
    assert_eq!(hit_of(&[first]), Some(1.5));
}

#[test]
fn keys_order_as_distances_do() {
    let ts = [-1e9, -2.5, -1e-300, -0.0, 0.0, 1e-300, 0.5, 2.5, 1e9];
    for w in ts.windows(2) {
        assert!(order_key(w[0]) <= order_key(w[1]));
    }
    assert!(order_key(-1e-300) < 0);
    assert_eq!(order_key(-0.0), 0);
}

#[test]
fn intersections_are_ordered_by_distance() {
    let keys = keys_of(&[5., 7., -3., 2., 5.]);
    assert_eq!(order_by_distance(&keys), vec![2, 3, 0, 4, 1]);
}

#[test]
fn ordering_no_intersections_gives_nothing() {
    assert_eq!(order_by_distance(&vec![]), Vec::<usize>::new());
}

#[test]
fn equally_near_intersections_keep_their_order() {
    assert_eq!(order_by_distance(&vec![1, 1, 0, 1]), vec![2, 0, 1, 3]);
}
