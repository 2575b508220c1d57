use raytracer::hittable::{is_outside, nearest_root, HitRecord, HitResult, HittableList};

#[test]
fn miss_is_miss() {
    let result: HitResult<u32> = HitResult::Miss;
    assert!(result.is_miss());
    assert!(!result.is_hit());
    assert_eq!(result.as_hit(), None);
}

#[test]
fn hit_carries_its_material() {
    let result = HitResult::Hit(String::from("glass"));
    assert!(result.is_hit());
    assert!(!result.is_miss());
    assert_eq!(result.as_hit(), Some(&String::from("glass")));
}

#[test]
fn list_keeps_the_order_of_its_objects() {
    let mut list = HittableList::new(vec![3, 1]);
    assert_eq!(list.objects(), &vec![3, 1]);
    list.add(2);
    list.add(1);
    assert_eq!(list.objects(), &vec![3, 1, 2, 1]);
}

#[test]
fn list_clear_removes_everything() {
    let mut list = HittableList::new(vec!['a', 'b']);
    list.clear();
    assert!(list.objects().is_empty());
    list.add('c');
    assert_eq!(list.objects(), &vec!['c']);
}

#[test]
fn default_list_is_empty() {
    let list: HittableList<u8> = HittableList::default();
    assert!(list.objects().is_empty());
    let list: HittableList<u8> = HittableList::new(Vec::new());
    assert!(list.objects().is_empty());
}

#[test]
fn parameter_outside_the_range() {
    assert!(is_outside(&-1, &0, &10));
    assert!(is_outside(&11, &0, &10));
    assert!(!is_outside(&0, &0, &10));
    assert!(!is_outside(&10, &0, &10));
    assert!(!is_outside(&5, &0, &10));
    assert!(is_outside(&0.0005, &0.001, &f64::INFINITY));
    assert!(!is_outside(&0.001, &0.001, &f64::INFINITY));
    assert!(!is_outside(&f64::INFINITY, &0.001, &f64::INFINITY));
}

#[test]
fn nearer_root_is_taken_where_it_is_in_range() {
    assert_eq!(nearest_root(2.0, 4.0, 0.001, f64::INFINITY), Some(2.0));
    assert_eq!(nearest_root(2, 4, 2, 4), Some(2));
    assert_eq!(nearest_root(3, 3, 0, 9), Some(3));
}

#[test]
fn farther_root_is_taken_where_only_it_is_in_range() {
    // the ray starts inside the sphere
    assert_eq!(nearest_root(-1.0, 1.0, 0.001, f64::INFINITY), Some(1.0));
    // the nearer root lies at the surface the ray has just left
    assert_eq!(nearest_root(0.0, 2.5, 0.001, f64::INFINITY), Some(2.5));
    assert_eq!(nearest_root(1, 7, 5, 9), Some(7));
}

#[test]
fn no_root_where_both_are_out_of_range() {
    // the sphere lies behind the ray
    assert_eq!(nearest_root(-4.0, -2.0, 0.001, f64::INFINITY), None);
    // something nearer was struck before
    assert_eq!(nearest_root(2.0, 4.0, 0.001, 1.5), None);
    assert_eq!(nearest_root(1, 9, 3, 7), None);
}

#[test]
fn root_that_is_not_a_number_compares_as_in_range() {
    let root = nearest_root(f64::NAN, 1.0, 0.001, f64::INFINITY);
    assert!(root.unwrap().is_nan());
    assert!(!is_outside(&f64::NAN, &0.0, &1.0));
}

/// A slab across the ray at the given parameter: struck where that lies
/// within the range.
fn slab(at: f64, t_min: f64, limit: f64) -> Option<(f64, f64)> {
    nearest_root(at, at, t_min, limit).map(|t| (t, at))
}

#[test]
fn nearest_hit_of_an_empty_scene_is_none() {
    let scene: HittableList<f64> = HittableList::default();
    let found = scene.nearest_hit(f64::INFINITY, |at: &f64, limit: f64| slab(*at, 0.001, limit));
    assert_eq!(found, None);
}

#[test]
fn nearest_hit_is_the_nearest_whatever_the_order() {
    for objects in [
        vec![3.0, 1.0, 2.0],
        vec![1.0, 2.0, 3.0],
        vec![3.0, 2.0, 1.0],
        vec![2.0, 1.0, 3.0, 1.5],
    ] {
        let scene = HittableList::new(objects);
        let found =
            scene.nearest_hit(f64::INFINITY, |at: &f64, limit: f64| slab(*at, 0.001, limit));
        assert_eq!(found, Some((1.0, 1.0)));
    }
}

#[test]
fn nearest_hit_leaves_out_what_lies_out_of_range() {
    let scene = HittableList::new(vec![-2.0, 0.0005, 9.0, 7.0, 12.0]);
    let found = scene.nearest_hit(10.0, |at: &f64, limit: f64| slab(*at, 0.001, limit));
    assert_eq!(found, Some((7.0, 7.0)));
    let found = scene.nearest_hit(5.0, |at: &f64, limit: f64| slab(*at, 0.001, limit));
    assert_eq!(found, None);
}

#[test]
fn nearest_hit_tries_each_surface_up_to_the_last_hit() {
    let scene = HittableList::new(vec!['a', 'b', 'c', 'd']);
    let mut asked: Vec<(char, u32)> = Vec::new();
    let found = scene.nearest_hit(100, |name: &char, limit: u32| {
        asked.push((*name, limit));
        match name {
            'a' => Some((40, *name)),
            'c' => Some((30, *name)),
            _ => None,
        }
    });
    assert_eq!(found, Some((30, 'c')));
    assert_eq!(asked, vec![('a', 100), ('b', 40), ('c', 40), ('d', 30)]);
}

#[test]
fn nearest_hit_of_equal_hits_is_the_later_one() {
    // a test that lets through a hit at the limit itself
    let scene = HittableList::new(vec![(5, 'x'), (5, 'y')]);
    let found = scene.nearest_hit(9, |object: &(u32, char), limit: u32| {
        if object.0 <= limit {
            Some(*object)
        } else {
            None
        }
    });
    assert_eq!(found, Some((5, 'y')));
}

#[test]
fn fresh_record_has_no_side() {
    let rec: HitRecord<[i32; 3], f64> = HitRecord::default();
    assert!(!rec.front_face());
    assert_eq!(rec.p, [0, 0, 0]);
    assert_eq!(rec.normal, [0, 0, 0]);
    assert_eq!(rec.t, 0.0);
}

#[test]
fn hit_from_outside_keeps_the_outward_normal() {
    let mut rec: HitRecord<f64, f64> = HitRecord::default();
    rec.p = 3.0;
    rec.t = 1.5;
    rec.set_front_face(true, -1.0);
    assert!(rec.front_face());
    assert_eq!(rec.normal, -1.0);
    assert_eq!(rec.p, 3.0);
    assert_eq!(rec.t, 1.5);
}

#[test]
fn hit_from_inside_turns_the_normal() {
    let mut rec: HitRecord<f64, f64> = HitRecord::default();
    rec.p = 3.0;
    rec.t = 0.25;
    rec.set_front_face(false, -1.0);
    assert!(!rec.front_face());
    assert_eq!(rec.normal, 1.0);
    assert_eq!(rec.p, 3.0);
    assert_eq!(rec.t, 0.25);
    let mut rec: HitRecord<i64, u8> = HitRecord::default();
    rec.set_front_face(false, 7);
    assert_eq!(rec.normal, -7);
}

#[test]
fn record_is_set_anew_by_each_hit() {
    let mut rec: HitRecord<f64, f64> = HitRecord::default();
    rec.set_front_face(false, 2.0);
    rec.set_front_face(true, 2.0);
    assert!(rec.front_face());
    assert_eq!(rec.normal, 2.0);
    let copy = rec.clone();
    assert_eq!(copy.normal, 2.0);
    assert!(copy.front_face());
}
