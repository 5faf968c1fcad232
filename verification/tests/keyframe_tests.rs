use proedit::foundation::keyframe::{KeyframeLookup, KeyframeTrack};
use proedit::foundation::time::RationalTime;

fn value_at(track: &KeyframeTrack<f64>, t: RationalTime) -> Option<f64> {
    match track.lookup(t) {
        KeyframeLookup::At(i) => Some(track.keyframes()[i].value),
        _ => None,
    }
}

#[test]
fn test_keyframe_track_clamp_edges() {
    let mut track = KeyframeTrack::new("test".to_string());
    track.set(RationalTime::new(1, 1), 10.0);
    track.set(RationalTime::new(3, 1), 30.0);
    assert!((value_at(&track, RationalTime::new(0, 1)).unwrap() - 10.0).abs() < 0.001);
    assert!((value_at(&track, RationalTime::new(5, 1)).unwrap() - 30.0).abs() < 0.001);
}

#[test]
fn test_keyframe_remove() {
    let mut track = KeyframeTrack::new("test".to_string());
    track.set(RationalTime::new(0, 1), 0.0);
    track.set(RationalTime::new(1, 1), 1.0);
    assert_eq!(track.len(), 2);

    assert!(track.remove(RationalTime::new(1, 1)));
    assert_eq!(track.len(), 1);

    assert!(!track.remove(RationalTime::new(5, 1)));
}

#[test]
fn test_keyframe_overwrite() {
    let mut track = KeyframeTrack::new("test".to_string());
    track.set(RationalTime::new(0, 1), 0.0);
    track.set(RationalTime::new(0, 1), 5.0);
    assert_eq!(track.len(), 1);
    assert!((value_at(&track, RationalTime::zero()).unwrap() - 5.0).abs() < 0.001);
}

#[test]
fn test_constant_track() {
    let track = KeyframeTrack::constant("scale".to_string(), 1.5);
    assert!(!track.is_animated());
    assert!((value_at(&track, RationalTime::new(100, 1)).unwrap() - 1.5).abs() < 0.001);
}

#[test]
fn test_multiple_keyframes() {
    // The library finds the segment a time falls in; the linear blend of the
    // two keyframes around it is done here in floating point, as the
    // application does.
    let mut track = KeyframeTrack::new("position".to_string());
    track.set(RationalTime::new(0, 1), 0.0);
    track.set(RationalTime::new(1, 1), 100.0);
    track.set(RationalTime::new(2, 1), 50.0);
    assert_eq!(track.lookup(RationalTime::new(1, 2)), KeyframeLookup::Between(0));
    assert_eq!(track.lookup(RationalTime::new(1, 1)), KeyframeLookup::Between(1));
    assert_eq!(track.lookup(RationalTime::new(3, 2)), KeyframeLookup::Between(1));
    assert!((linear_value(&track, RationalTime::new(1, 2)) - 50.0).abs() < 0.001);
    assert!((linear_value(&track, RationalTime::new(1, 1)) - 100.0).abs() < 0.001);
    assert!((linear_value(&track, RationalTime::new(3, 2)) - 75.0).abs() < 0.001);
}

fn linear_value(track: &KeyframeTrack<f64>, t: RationalTime) -> f64 {
    let secs = |r: RationalTime| r.numer() as f64 / r.denom() as f64;
    let kfs = track.keyframes();
    match track.lookup(t) {
        KeyframeLookup::At(i) => kfs[i].value,
        KeyframeLookup::Between(i) => {
            let (a, b) = (&kfs[i], &kfs[i + 1]);
            let f = (secs(t) - secs(a.time)) / (secs(b.time) - secs(a.time));
            a.value + (b.value - a.value) * f
        }
        KeyframeLookup::Empty => 0.0,
    }
}

#[test]
fn keyframes_stay_in_time_order() {
    let mut track = KeyframeTrack::new("x".to_string());
    for (n, v) in [(5i64, 5.0), (1, 1.0), (3, 3.0), (2, 2.0), (4, 4.0)] {
        track.set(RationalTime::new(n, 2), v);
    }
    let times: Vec<RationalTime> = track.keyframes().iter().map(|k| k.time).collect();
    for w in times.windows(2) {
        assert!(w[0] < w[1]);
    }
    let values: Vec<f64> = track.keyframes().iter().map(|k| k.value).collect();
    assert_eq!(values, vec![1.0, 2.0, 3.0, 4.0, 5.0]);
}

#[test]
fn removing_a_new_keyframe_restores_the_track() {
    let mut track = KeyframeTrack::new("y".to_string());
    track.set(RationalTime::new(0, 1), 0.0);
    track.set(RationalTime::new(2, 1), 2.0);
    let before: Vec<(RationalTime, f64)> = track.keyframes().iter().map(|k| (k.time, k.value)).collect();
    track.set(RationalTime::new(1, 1), 9.0);
    assert_eq!(track.lookup(RationalTime::new(1, 1)), KeyframeLookup::Between(1));
    assert!(track.remove(RationalTime::new(2, 2)));
    let after: Vec<(RationalTime, f64)> = track.keyframes().iter().map(|k| (k.time, k.value)).collect();
    assert_eq!(before, after);
}

#[test]
fn empty_track_has_no_range() {
    let mut track: KeyframeTrack<f64> = KeyframeTrack::new("z".to_string());
    assert!(track.is_empty());
    assert_eq!(track.lookup(RationalTime::zero()), KeyframeLookup::Empty);
    assert!(track.time_range().is_none());
    track.set(RationalTime::new(1, 2), 0.0);
    track.set(RationalTime::new(5, 2), 0.0);
    let r = track.time_range().unwrap();
    assert_eq!(r.start, RationalTime::new(1, 2));
    assert_eq!(r.duration, RationalTime::new(2, 1));
}

#[test]
fn track_describes_its_name_and_size() {
    let mut track = KeyframeTrack::new("opacity".to_string());
    assert_eq!(track.describe(), "KeyframeTrack(opacity, 0 keyframes)");
    track.set(RationalTime::new(0, 1), 1.0);
    track.set(RationalTime::new(2, 1), 0.5);
    assert_eq!(track.describe(), "KeyframeTrack(opacity, 2 keyframes)");
}
