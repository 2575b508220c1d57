use raytracer::utils::{clamp, rejection_sample};

#[test]
fn clamp_inside_is_unchanged() {
    assert_eq!(clamp(5, 0, 10), 5);
    assert_eq!(clamp(0, 0, 10), 0);
    assert_eq!(clamp(10, 0, 10), 10);
}

#[test]
fn clamp_below_gives_min() {
    assert_eq!(clamp(-3, 0, 10), 0);
    assert_eq!(clamp(i64::MIN, -1, 1), -1);
}

#[test]
fn clamp_above_gives_max() {
    assert_eq!(clamp(11, 0, 10), 10);
    assert_eq!(clamp(u8::MAX, 3, 4), 4);
}

#[test]
fn clamp_floats_to_channel_range() {
    assert_eq!(clamp(0.5, 0.0, 0.999), 0.5);
    assert_eq!(clamp(-0.25, 0.0, 0.999), 0.0);
    assert_eq!(clamp(1.0, 0.0, 0.999), 0.999);
    assert_eq!(clamp(7.5, 0.0, 0.999), 0.999);
}

#[test]
fn clamp_not_a_number_is_unchanged() {
    assert!(clamp(f64::NAN, 0.0, 1.0).is_nan());
}

#[test]
fn clamp_checks_the_lower_bound_first() {
    // with the bounds crossed, a value below `min` still gives `min`
    assert_eq!(clamp(1, 5, 3), 5);
    assert_eq!(clamp(4, 5, 3), 5);
    assert_eq!(clamp(6, 5, 3), 3);
}

#[test]
fn clamp_strings() {
    assert_eq!(clamp("m", "c", "x"), "m");
    assert_eq!(clamp("a", "c", "x"), "c");
    assert_eq!(clamp("z", "c", "x"), "x");
}

#[test]
fn rejection_sample_takes_the_first_draw_accepted() {
    let mut draws = vec![0.3, 0.9, 1.7, 2.5].into_iter();
    let mut drawn = 0;
    let sample = rejection_sample(
        10,
        || {
            drawn += 1;
            let p: f64 = draws.next().unwrap();
            if p * p >= 1.0 {
                Some(p)
            } else {
                None
            }
        },
        -1.0,
    );
    assert_eq!(sample, 1.7);
    assert_eq!(drawn, 3);
}

#[test]
fn rejection_sample_settles_for_the_fallback() {
    let mut drawn = 0;
    let sample = rejection_sample(
        65536,
        || -> Option<u8> {
            drawn += 1;
            None
        },
        42,
    );
    assert_eq!(sample, 42);
    assert_eq!(drawn, 65536);
}

#[test]
fn rejection_sample_accepts_the_last_draw_allowed() {
    let mut drawn = 0;
    let sample = rejection_sample(
        5,
        || {
            drawn += 1;
            if drawn == 5 {
                Some(drawn)
            } else {
                None
            }
        },
        0,
    );
    assert_eq!(sample, 5);
}

#[test]
fn rejection_sample_without_draws_is_the_fallback() {
    let sample = rejection_sample(
        0,
        || -> Option<&str> { panic!("nothing is to be drawn") },
        "none",
    );
    assert_eq!(sample, "none");
}
