use ray1week::bvh::{median_split, plan, sorted_order, NodePlan};
use ray1week::effects::BackFaceCulling;
use ray1week::texture::{checker_is_even, texel, Marble, Plain, Turbulence};

#[test]
fn one_two_many() {
    assert_eq!(plan(1), NodePlan::Single);
    assert_eq!(plan(2), NodePlan::Pair);
    assert_eq!(plan(3), NodePlan::Split);
    assert_eq!(plan(1000), NodePlan::Split);
}

#[test]
fn order_follows_the_keys() {
    assert_eq!(sorted_order(&vec![]), Vec::<usize>::new());
    assert_eq!(sorted_order(&vec![5]), vec![0]);
    assert_eq!(sorted_order(&vec![30, 10, 20]), vec![1, 2, 0]);
    assert_eq!(sorted_order(&vec![i64::MAX, i64::MIN, 0, -1]), vec![1, 3, 2, 0]);
}

#[test]
fn equal_keys_keep_their_order() {
    assert_eq!(sorted_order(&vec![2, 1, 2, 1, 2, 1]), vec![1, 3, 5, 0, 2, 4]);
    assert_eq!(sorted_order(&vec![7; 9]), vec![0, 1, 2, 3, 4, 5, 6, 7, 8]);
}

#[test]
fn order_agrees_with_a_stable_sort() {
    let mut state: u64 = 0x2545F4914F6CDD1D;
    for len in [0usize, 1, 2, 3, 10, 64, 65, 257] {
        let mut keys = Vec::new();
        for _ in 0..len {
            state ^= state << 13;
            state ^= state >> 7;
            state ^= state << 17;
            keys.push((state % 8) as i64 - 4);
        }
        let mut expected: Vec<usize> = (0..len).collect();
        expected.sort_by(|a, b| keys[*a].cmp(&keys[*b]));
        assert_eq!(sorted_order(&keys), expected);
    }
}

#[test]
fn the_right_child_gets_the_odd_one() {
    let (left, right) = median_split(&vec![50, 40, 30, 20, 10]);
    assert_eq!(left, vec![4, 3]);
    assert_eq!(right, vec![2, 1, 0]);
    let (left, right) = median_split(&vec![3, 1, 2, 0]);
    assert_eq!(left, vec![3, 1]);
    assert_eq!(right, vec![2, 0]);
    let (left, right) = median_split(&vec![]);
    assert!(left.is_empty() && right.is_empty());
}

#[test]
fn an_object_shows_its_front_if_one_ray_hits_it_there() {
    assert!(!BackFaceCulling::shows_front(&vec![]));
    assert!(!BackFaceCulling::shows_front(&vec![None, None]));
    assert!(!BackFaceCulling::shows_front(&vec![Some(false), None, Some(false)]));
    assert!(BackFaceCulling::shows_front(&vec![Some(false), None, Some(true)]));
    assert!(BackFaceCulling::shows_front(&vec![Some(true)]));
}

#[test]
fn flagged_objects_are_kept_in_order() {
    let mut objects = vec!["a".to_owned(), "b".to_owned(), "c".to_owned(), "d".to_owned()];
    BackFaceCulling::retain(&mut objects, &vec![true, false, false, true]);
    assert_eq!(objects, vec!["a", "d"]);
    BackFaceCulling::retain(&mut objects, &vec![true, true]);
    assert_eq!(objects, vec!["a", "d"]);
    BackFaceCulling::retain(&mut objects, &vec![false, false]);
    assert!(objects.is_empty());
    BackFaceCulling::retain(&mut objects, &vec![]);
    assert!(objects.is_empty());
}

#[test]
fn checker_cells_alternate() {
    assert!(checker_is_even(0, 0, 0));
    assert!(!checker_is_even(1, 0, 0));
    assert!(checker_is_even(1, 1, 0));
    assert!(!checker_is_even(1, 1, 1));
    assert!(!checker_is_even(-1, 0, 0));
    assert!(checker_is_even(-1, -1, 0));
    assert!(checker_is_even(-3, 2, 1));
    assert!(!checker_is_even(isize::MAX, 0, 0));
    assert!(!checker_is_even(isize::MAX, isize::MAX, isize::MAX));
    assert!(checker_is_even(isize::MIN, isize::MIN, 0));
    for x in -3..4isize {
        for y in -3..4isize {
            for z in -3..4isize {
                assert_eq!(checker_is_even(x, y, z), (x + y + z) % 2 == 0);
            }
        }
    }
}

#[test]
fn texture_coordinates_beyond_the_edge_fall_on_the_edge() {
    assert_eq!(texel(0, 0, 10, 20), (0, 0));
    assert_eq!(texel(9, 19, 10, 20), (9, 19));
    assert_eq!(texel(10, 20, 10, 20), (9, 19));
    assert_eq!(texel(u32::MAX, 3, 10, 20), (9, 3));
    assert_eq!(texel(5, 5, 1, 1), (0, 0));
}

#[test]
fn kinds_of_noise() {
    assert_eq!(Turbulence::new(5).depth(), 5);
    assert_eq!(Turbulence(3), Turbulence::new(3));
    assert_eq!(Marble.depth(), 7);
    assert_eq!(Plain, Plain);
}
