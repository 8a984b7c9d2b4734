use pinch_keyboard::binary32::Binary32;
use pinch_keyboard::pinch::{
    is_engaged, is_released, PinchDetector, ENGAGE_THRESHOLD_BITS, RELEASE_THRESHOLD_BITS,
};

fn seen(distance: f32) -> Option<Binary32> {
    Some(Binary32::from_bits(distance.to_bits()))
}

fn commits(detector: &mut PinchDetector, distances: &[f32]) -> Vec<bool> {
    distances.iter().map(|d| detector.update(seen(*d))).collect()
}

#[test]
fn thresholds_are_two_and_five_centimetres() {
    assert_eq!(ENGAGE_THRESHOLD_BITS, 0.02f32.to_bits());
    assert_eq!(RELEASE_THRESHOLD_BITS, 0.05f32.to_bits());
}

#[test]
fn a_new_detector_is_not_pinched() {
    assert!(!PinchDetector::new().is_pinched());
}

#[test]
fn threshold_tests_match_the_hardware() {
    let mut state: u64 = 13;
    for _ in 0..200_000 {
        state = state.wrapping_mul(6364136223846793005).wrapping_add(1442695040888963407);
        let bits = (state >> 32) as u32;
        let d = f32::from_bits(bits);
        assert_eq!(is_engaged(seen(d)), d < 0.02, "{:#x}", bits);
        assert_eq!(is_released(seen(d)), d > 0.05, "{:#x}", bits);
    }
}

#[test]
fn classification_at_the_thresholds() {
    let engage = 0.02f32;
    let release = 0.05f32;
    assert!(!is_engaged(seen(engage)));
    assert!(is_engaged(seen(f32::from_bits(engage.to_bits() - 1))));
    assert!(!is_engaged(seen(f32::from_bits(engage.to_bits() + 1))));
    assert!(!is_released(seen(release)));
    assert!(is_released(seen(f32::from_bits(release.to_bits() + 1))));
    assert!(!is_released(seen(f32::from_bits(release.to_bits() - 1))));
    assert!(is_engaged(seen(0.0)));
    assert!(is_engaged(seen(-0.0)));
    assert!(!is_released(seen(0.0)));
    assert!(is_released(seen(f32::INFINITY)));
    assert!(!is_engaged(seen(f32::INFINITY)));
}

#[test]
fn an_unseen_hand_is_neither_engaged_nor_released() {
    assert!(!is_engaged(None));
    assert!(!is_released(None));
    assert!(!is_engaged(seen(f32::NAN)));
    assert!(!is_released(seen(f32::NAN)));
}

#[test]
fn no_distance_is_engaged_and_released() {
    let mut state: u64 = 17;
    for _ in 0..200_000 {
        state = state.wrapping_mul(6364136223846793005).wrapping_add(1442695040888963407);
        let d = seen(f32::from_bits((state >> 32) as u32));
        assert!(!(is_engaged(d) && is_released(d)));
    }
}

#[test]
fn pinch_cycles_commit_once_each() {
    let mut detector = PinchDetector::new();
    assert_eq!(
        commits(&mut detector, &[0.10, 0.01, 0.01, 0.10, 0.01]),
        vec![false, true, false, false, true]
    );
    assert!(detector.is_pinched());
}

#[test]
fn pinch_through_the_dead_zone() {
    let mut detector = PinchDetector::new();
    let mut events = Vec::new();
    let mut latches = Vec::new();
    for distance in [0.01f32, 0.03, 0.01, 0.06] {
        events.push(detector.update(seen(distance)));
        latches.push(detector.is_pinched());
    }
    // Only the first frame commits: at 0.03 the tips have not parted beyond
    // the release threshold, so the third frame finds the latch still set.
    assert_eq!(events, vec![true, false, false, false]);
    assert_eq!(latches, vec![true, true, true, false]);
}

#[test]
fn the_dead_zone_keeps_the_latch_as_it_was() {
    for distance in [0.02f32, 0.021, 0.03, 0.04, 0.049, 0.05] {
        let mut set = PinchDetector::new();
        assert!(set.update(seen(0.01)));
        assert!(!set.update(seen(distance)));
        assert!(set.is_pinched(), "latch lost at {}", distance);

        let mut clear = PinchDetector::new();
        assert!(!clear.update(seen(distance)));
        assert!(!clear.is_pinched(), "latch set at {}", distance);
    }
}

#[test]
fn only_a_release_clears_the_latch() {
    let mut detector = PinchDetector::new();
    assert!(detector.update(seen(0.01)));
    let just_beyond = f32::from_bits(0.05f32.to_bits() + 1);
    assert!(!detector.update(seen(just_beyond)));
    assert!(!detector.is_pinched());
    assert!(detector.update(seen(0.01)));
    assert!(!detector.update(seen(f32::INFINITY)));
    assert!(!detector.is_pinched());
}

#[test]
fn a_held_pinch_commits_once() {
    let mut detector = PinchDetector::new();
    let mut count = 0;
    for _ in 0..1000 {
        if detector.update(seen(0.015)) {
            count += 1;
        }
        assert!(detector.is_pinched());
    }
    assert_eq!(count, 1);
}

#[test]
fn a_commit_needs_a_release_since_the_last_pinch() {
    let mut detector = PinchDetector::new();
    let mut state: u64 = 19;
    let mut latch = false;
    let mut total = 0;
    for _ in 0..100_000 {
        state = state.wrapping_mul(6364136223846793005).wrapping_add(1442695040888963407);
        let distance = ((state >> 40) % 80) as f32 / 1000.0;
        let commit = detector.update(seen(distance));
        assert_eq!(commit, distance < 0.02 && !latch);
        if distance < 0.02 {
            latch = true;
        } else if distance > 0.05 {
            latch = false;
        }
        assert_eq!(detector.is_pinched(), latch);
        if commit {
            total += 1;
        }
    }
    assert!(total > 1000);
}

#[test]
fn an_unseen_hand_keeps_the_latch() {
    let mut detector = PinchDetector::new();
    assert!(!detector.update(None));
    assert!(!detector.is_pinched());
    assert!(detector.update(seen(0.01)));
    assert!(!detector.update(None));
    assert!(detector.is_pinched());
    assert!(!detector.update(seen(0.01)));
    assert!(!detector.update(seen(f32::NAN)));
    assert!(detector.is_pinched());
    assert!(!detector.update(seen(0.06)));
    assert!(!detector.update(seen(f32::NAN)));
    assert!(!detector.is_pinched());
    assert!(detector.update(seen(0.01)));
}
