use raytracer::{closest_hit, first_within, order_key, Path, Root, Roots, Shade, Step};

fn key(t: f32) -> i32 {
    order_key(t.to_bits())
}

#[test]
fn keys_follow_float_order() {
    let values: [f32; 9] = [f32::MIN, -100.5, -1.0, -0.001, 0.0, 0.001, 0.5, 1.0, f32::MAX];
    for w in values.windows(2) {
        assert!(key(w[0]) < key(w[1]), "{} vs {}", w[0], w[1]);
    }
    assert!(key(f32::NEG_INFINITY) < key(f32::MIN));
    assert!(key(f32::MAX) < key(f32::INFINITY));
}

#[test]
fn keys_of_both_zeros_agree() {
    assert_eq!(key(0.0), 0);
    assert_eq!(key(-0.0), 0);
}

#[test]
fn key_of_one_is_its_bit_pattern() {
    assert_eq!(key(1.0), 0x3f80_0000);
    assert_eq!(key(-1.0), -0x3f80_0000);
}

#[test]
fn near_root_wins_when_inside() {
    assert_eq!(first_within(key(0.001), key(f32::MAX), key(0.5), key(1.5)), Some(Root::Near));
}

#[test]
fn far_root_taken_when_near_is_behind() {
    assert_eq!(first_within(key(0.001), key(f32::MAX), key(-0.5), key(0.5)), Some(Root::Far));
}

#[test]
fn window_excluding_both_roots_misses() {
    assert_eq!(first_within(key(2.0), key(3.0), key(0.5), key(1.5)), None);
    assert_eq!(first_within(key(0.0), key(0.4), key(0.5), key(1.5)), None);
}

#[test]
fn window_is_open_at_both_ends() {
    assert_eq!(first_within(key(0.5), key(1.5), key(0.5), key(1.5)), None);
}

#[test]
fn nearest_surface_found_in_either_order() {
    let small = Some(Roots { near: key(0.5), far: key(1.5) });
    let ground = Some(Roots { near: key(0.8), far: key(200.0) });
    let lo = key(0.001);
    let hi = key(f32::MAX);
    assert_eq!(closest_hit(lo, hi, &vec![small, ground]), Some((0, Root::Near)));
    assert_eq!(closest_hit(lo, hi, &vec![ground, small]), Some((1, Root::Near)));
}

#[test]
fn no_surface_struck_is_no_hit() {
    let lo = key(0.001);
    let hi = key(f32::MAX);
    assert_eq!(closest_hit(lo, hi, &vec![]), None);
    assert_eq!(closest_hit(lo, hi, &vec![None, None]), None);
    let behind = Some(Roots { near: key(-3.0), far: key(-1.0) });
    assert_eq!(closest_hit(lo, hi, &vec![behind, None]), None);
}

#[test]
fn equal_hits_keep_the_first_surface() {
    let a = Some(Roots { near: key(1.0), far: key(2.0) });
    let b = Some(Roots { near: key(1.0), far: key(3.0) });
    assert_eq!(closest_hit(key(0.001), key(f32::MAX), &vec![a, b]), Some((0, Root::Near)));
}

#[test]
fn later_far_root_can_be_nearest() {
    let outside = Some(Roots { near: key(4.0), far: key(6.0) });
    let around_origin = Some(Roots { near: key(-1.0), far: key(2.0) });
    assert_eq!(
        closest_hit(key(0.001), key(f32::MAX), &vec![outside, around_origin]),
        Some((1, Root::Far))
    );
}

#[test]
fn upper_bound_limits_the_search() {
    let far_away = Some(Roots { near: key(50.0), far: key(60.0) });
    assert_eq!(closest_hit(key(0.001), key(10.0), &vec![far_away]), None);
}

#[test]
fn zero_depth_path_is_spent() {
    let path = Path::new(0);
    assert!(path.spent());
}

#[test]
fn miss_at_once_sees_the_plain_sky() {
    let mut path = Path::new(50);
    assert!(!path.spent());
    assert_eq!(path.step(false), Step::Done(Shade::Sky { halvings: 0 }));
}

#[test]
fn each_bounce_halves_the_sky_once() {
    let mut path = Path::new(50);
    assert_eq!(path.step(true), Step::Bounce);
    assert_eq!(path.step(true), Step::Bounce);
    assert_eq!(path.step(true), Step::Bounce);
    assert_eq!(path.remaining, 47);
    assert_eq!(path.step(false), Step::Done(Shade::Sky { halvings: 3 }));
}

#[test]
fn path_is_absorbed_when_budget_runs_out() {
    let mut path = Path::new(2);
    assert_eq!(path.step(true), Step::Bounce);
    assert!(!path.spent());
    assert_eq!(path.step(true), Step::Bounce);
    assert!(path.spent());
    assert_eq!(path.bounces, 2);
}
