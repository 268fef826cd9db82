use neuromaster::picker::find_nearest;

#[test]
fn nothing_hit_gives_nothing() {
    assert_eq!(find_nearest(&vec![]), None);
    assert_eq!(find_nearest(&vec![None, None, None]), None);
}

#[test]
fn single_hit_is_found() {
    assert_eq!(find_nearest(&vec![None, Some(7), None]), Some(1));
    assert_eq!(find_nearest(&vec![Some(0)]), Some(0));
}

#[test]
fn nearer_of_two_nodes_on_the_ray_wins() {
    assert_eq!(find_nearest(&vec![Some(5), Some(10)]), Some(0));
    assert_eq!(find_nearest(&vec![Some(10), Some(5)]), Some(1));
    assert_eq!(find_nearest(&vec![Some(10), None, Some(5), Some(7)]), Some(2));
}

#[test]
fn first_of_equal_distances_wins() {
    assert_eq!(find_nearest(&vec![Some(3), Some(3)]), Some(0));
    assert_eq!(find_nearest(&vec![Some(9), Some(3), None, Some(3)]), Some(1));
}

#[test]
fn distances_behind_the_origin_are_smaller() {
    assert_eq!(find_nearest(&vec![Some(0), Some(-4), Some(2)]), Some(1));
    assert_eq!(find_nearest(&vec![Some(i64::MAX), Some(i64::MIN)]), Some(1));
    assert_eq!(find_nearest(&vec![None, Some(i64::MAX)]), Some(1));
}
