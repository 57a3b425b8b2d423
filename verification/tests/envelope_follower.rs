use mic_spectrum::envelope::{follow_level, EnvelopeFollower};

#[test]
fn new_follower_is_all_zero() {
    let follower = EnvelopeFollower::new(5, 95, 100);
    assert_eq!(follower.len(), 5);
    assert_eq!(follower.levels(), &[0, 0, 0, 0, 0]);
}

#[test]
fn follower_with_no_bins_is_empty() {
    let mut follower = EnvelopeFollower::new(0, 95, 100);
    assert_eq!(follower.len(), 0);
    follower.update(&[]);
    assert!(follower.levels().is_empty());
}

#[test]
fn rise_from_zero_is_taken_at_once() {
    let mut follower = EnvelopeFollower::new(3, 95, 100);
    follower.update(&[0, 0, 0]);
    follower.update(&[0, 70_000, 1]);
    assert_eq!(follower.levels(), &[0, 70_000, 1]);
}

#[test]
fn larger_magnitude_replaces_a_decaying_level() {
    let mut follower = EnvelopeFollower::new(1, 95, 100);
    follower.update(&[1000]);
    follower.update(&[0]);
    assert_eq!(follower.levels(), &[950]);
    follower.update(&[951]);
    assert_eq!(follower.levels(), &[951]);
}

#[test]
fn decay_blends_level_and_magnitude() {
    assert_eq!(follow_level(1000, 0, 95, 100), 950);
    assert_eq!(follow_level(1000, 500, 95, 100), 975);
    assert_eq!(follow_level(1000, 1000, 95, 100), 1000);
    assert_eq!(follow_level(1000, 1001, 95, 100), 1001);
    assert_eq!(follow_level(0, 0, 95, 100), 0);
}

#[test]
fn blend_is_rounded_down() {
    assert_eq!(follow_level(1, 0, 95, 100), 0);
    assert_eq!(follow_level(3, 0, 95, 100), 2);
    assert_eq!(follow_level(10, 9, 95, 100), 9);
    assert_eq!(follow_level(101, 100, 1, 2), 100);
}

#[test]
fn decay_factor_zero_tracks_the_magnitude() {
    let mut follower = EnvelopeFollower::new(2, 0, 1);
    follower.update(&[500, 9]);
    follower.update(&[3, 0]);
    assert_eq!(follower.levels(), &[3, 0]);
}

#[test]
fn decay_factor_one_holds_the_peak() {
    let mut follower = EnvelopeFollower::new(2, 7, 7);
    follower.update(&[500, 9]);
    follower.update(&[3, 10]);
    follower.update(&[0, 0]);
    assert_eq!(follower.levels(), &[500, 10]);
}

#[test]
fn largest_values_do_not_overflow() {
    assert_eq!(follow_level(u32::MAX, u32::MAX, u32::MAX, u32::MAX), u32::MAX);
    assert_eq!(follow_level(u32::MAX, 0, u32::MAX, u32::MAX), u32::MAX);
    assert_eq!(follow_level(u32::MAX, 0, u32::MAX - 1, u32::MAX), u32::MAX - 1);
    assert_eq!(follow_level(0, u32::MAX, 1, u32::MAX), u32::MAX);
    assert_eq!(follow_level(u32::MAX, 0, 1, 2), u32::MAX / 2);
}

#[test]
fn same_spectrum_fed_repeatedly_is_reached_exactly() {
    let raw = [0u32, 10, 990, 1000, 5000];
    let mut follower = EnvelopeFollower::new(5, 95, 100);
    follower.update(&[1000, 1000, 1000, 1000, 1000]);
    let mut steps = 0;
    while follower.levels() != &raw[..] {
        follower.update(&raw);
        steps += 1;
        assert!(steps <= 1000);
    }
    follower.update(&raw);
    assert_eq!(follower.levels(), &raw[..]);
}

#[test]
fn gap_shrinks_by_the_decay_factor_each_step() {
    let mut level = 100_000u32;
    let raw = 20_000u32;
    for _ in 0..200 {
        let next = follow_level(level, raw, 95, 100);
        assert!(next >= raw);
        assert!(u64::from(next - raw) * 100 <= u64::from(level - raw) * 95);
        assert!(next < level || level == raw);
        level = next;
    }
    assert_eq!(level, raw);
}

#[test]
fn level_is_never_below_the_magnitude() {
    let mut follower = EnvelopeFollower::new(4, 3, 4);
    let spectra: [[u32; 4]; 5] =
        [[5, 0, 9, 100], [0, 7, 9, 1], [0, 0, 10, 50], [1, 1, 1, 1], [0, 300, 0, 2]];
    for raw in spectra.iter() {
        follower.update(raw);
        for (level, magnitude) in follower.levels().iter().zip(raw.iter()) {
            assert!(level >= magnitude);
        }
    }
    assert_eq!(follower.levels(), &[0, 300, 5, 38]);
}

#[test]
fn zero_spectrum_keeps_the_envelope_at_zero() {
    let mut follower = EnvelopeFollower::new(1024, 95, 100);
    let raw = vec![0u32; 1024];
    follower.update(&raw);
    follower.update(&raw);
    assert!(follower.levels().iter().all(|level| *level == 0));
}

#[test]
fn rise_below_a_decaying_level_does_not_replace_it() {
    let mut follower = EnvelopeFollower::new(1, 95, 100);
    follower.update(&[1000]);
    follower.update(&[0]);
    follower.update(&[10]);
    assert_eq!(follower.levels(), &[903]);
}

#[test]
fn level_just_above_the_magnitude_lands_on_it() {
    assert_eq!(follow_level(1001, 1000, 95, 100), 1000);
    assert_eq!(follow_level(1002, 1000, 95, 100), 1001);
    assert_eq!(follow_level(1001, 1000, 100, 100), 1001);
}
