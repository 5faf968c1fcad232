use proedit::foundation::time::{FrameRate, RationalTime, TimeRange};

fn seconds(t: RationalTime) -> f64 {
    t.numer() as f64 / t.denom() as f64
}

fn fps(rate: FrameRate) -> f64 {
    rate.numerator as f64 / rate.denominator as f64
}

#[test]
fn test_rational_time_frames() {
    let rate = FrameRate::fps_24();
    let time = RationalTime::from_frames(48, rate);
    assert_eq!(seconds(time), 2.0);
    assert_eq!(time.to_frames(rate), 48);
}

#[test]
fn test_frame_rate_23_976() {
    let rate = FrameRate::fps_23_976();
    let f = fps(rate);
    assert!((f - 23.976).abs() < 0.001);
}

#[test]
fn test_time_range_overlap() {
    let a = TimeRange::new(RationalTime::new(0, 1), RationalTime::new(10, 1));
    let b = TimeRange::new(RationalTime::new(5, 1), RationalTime::new(10, 1));
    assert!(a.overlaps(b));

    let intersection = a.intersection(b).unwrap();
    assert_eq!(intersection.start, RationalTime::new(5, 1));
    assert_eq!(intersection.duration, RationalTime::new(5, 1));
}

#[test]
fn test_time_arithmetic() {
    let a = RationalTime::new(1, 2);
    let b = RationalTime::new(1, 4);
    let sum = a + b;
    assert_eq!(seconds(sum), 0.75);
}

#[test]
fn test_negation() {
    let t = RationalTime::new(5, 1);
    let neg = -t;
    assert_eq!(seconds(neg), -5.0);
    assert_eq!(neg.abs(), t);
}

#[test]
fn test_timecode_24fps() {
    let rate = FrameRate::fps_24();
    let frames = 3600 * 24 + 2 * 60 * 24 + 3 * 24 + 4;
    let time = RationalTime::from_frames(frames, rate);
    assert_eq!(time.to_timecode(rate), "01:02:03:04");
}

#[test]
fn test_timecode_roundtrip_24fps() {
    let rate = FrameRate::fps_24();
    let tc = "00:01:30:12";
    let time = RationalTime::from_timecode(tc, rate).unwrap();
    assert_eq!(time.to_timecode(rate), tc);
}

#[test]
fn test_timecode_drop_frame_29_97() {
    let rate = FrameRate::fps_29_97();
    assert!(rate.is_drop_frame());
    assert_eq!(rate.nominal_fps(), 30);
    let time = RationalTime::from_frames(0, rate);
    assert_eq!(time.to_timecode_drop_frame(rate), "00:00:00;00");
}

#[test]
fn test_from_timecode_drop_frame() {
    let rate = FrameRate::fps_29_97();
    let tc = "00:01:00;02";
    let time = RationalTime::from_timecode(tc, rate).unwrap();
    let back = time.to_timecode_drop_frame(rate);
    assert_eq!(back, tc);
}

#[test]
fn test_nominal_fps() {
    assert_eq!(FrameRate::fps_24().nominal_fps(), 24);
    assert_eq!(FrameRate::fps_25().nominal_fps(), 25);
    assert_eq!(FrameRate::fps_29_97().nominal_fps(), 30);
    assert_eq!(FrameRate::fps_30().nominal_fps(), 30);
    assert_eq!(FrameRate::fps_59_94().nominal_fps(), 60);
    assert_eq!(FrameRate::fps_60().nominal_fps(), 60);
}

#[test]
fn test_time_range_union() {
    let a = TimeRange::new(RationalTime::new(0, 1), RationalTime::new(5, 1));
    let b = TimeRange::new(RationalTime::new(3, 1), RationalTime::new(7, 1));
    let u = a.union(b);
    assert_eq!(u.start, RationalTime::new(0, 1));
    assert_eq!(u.end(), RationalTime::new(10, 1));
}

#[test]
fn test_time_range_offset() {
    let r = TimeRange::new(RationalTime::new(5, 1), RationalTime::new(10, 1));
    let shifted = r.offset(RationalTime::new(3, 1));
    assert_eq!(shifted.start, RationalTime::new(8, 1));
    assert_eq!(shifted.duration, RationalTime::new(10, 1));
}

#[test]
fn test_time_range_empty() {
    assert!(TimeRange::empty().is_empty());
    let r = TimeRange::new(RationalTime::new(0, 1), RationalTime::new(1, 1));
    assert!(!r.is_empty());
}

// Laws on concrete values, and edge cases.

#[test]
fn frame_roundtrip_at_every_standard_rate() {
    for rate in [
        FrameRate::fps_24(),
        FrameRate::fps_25(),
        FrameRate::fps_29_97(),
        FrameRate::fps_30(),
        FrameRate::fps_59_94(),
        FrameRate::fps_60(),
    ] {
        for frames in [0i64, 1, 23, 1001, 999_999] {
            assert_eq!(RationalTime::from_frames(frames, rate).to_frames(rate), frames);
        }
    }
}

#[test]
fn addition_commutes_and_subtraction_undoes_it() {
    let a = RationalTime::new(-1234, 1000);
    let b = RationalTime::new(777, 1000);
    assert_eq!(a + b, b + a);
    assert_eq!((a + b) - b, a);
}

#[test]
fn abs_is_never_negative() {
    let t = RationalTime::new(-7, 3);
    let z = RationalTime::zero();
    assert!(t.abs() >= z);
    assert_eq!(t.abs(), RationalTime::new(7, 3));
}

#[test]
fn new_reduces_to_lowest_terms() {
    let t = RationalTime::new(10, -4);
    assert_eq!(t.numer(), -5);
    assert_eq!(t.denom(), 2);
    assert_eq!(RationalTime::new(6, 3), RationalTime::new(2, 1));
}

#[test]
fn ordering_goes_by_value() {
    assert!(RationalTime::new(1, 3) < RationalTime::new(1, 2));
    assert!(RationalTime::new(-1, 2) < RationalTime::zero());
    assert_eq!(RationalTime::new(1, 3).min(RationalTime::new(1, 2)), RationalTime::new(1, 3));
    assert_eq!(RationalTime::new(1, 3).max(RationalTime::new(1, 2)), RationalTime::new(1, 2));
}

#[test]
fn range_holds_its_start_but_not_its_end() {
    let r = TimeRange::new(RationalTime::new(150, 100), RationalTime::new(25, 100));
    assert!(r.contains(r.start));
    assert!(!r.contains(r.end()));
    assert!(r.overlaps(r));
    let i = r.intersection(r).unwrap();
    assert_eq!(i.start, r.start);
    assert_eq!(i.duration, r.duration);
}

#[test]
fn disjoint_ranges_have_no_intersection() {
    let a = TimeRange::new(RationalTime::new(0, 1), RationalTime::new(2, 1));
    let b = TimeRange::new(RationalTime::new(2, 1), RationalTime::new(2, 1));
    assert!(!a.overlaps(b));
    assert!(a.intersection(b).is_none());
}

#[test]
fn timecode_roundtrip_at_non_drop_rates() {
    for rate in [FrameRate::fps_24(), FrameRate::fps_25(), FrameRate::fps_30(), FrameRate::fps_60()] {
        for frames in [0i64, 59, 86_399, 99_999] {
            let tc = RationalTime::from_frames(frames, rate).to_timecode(rate);
            let parsed = RationalTime::from_timecode(&tc, rate).unwrap();
            assert_eq!(parsed.to_frames(rate), frames);
        }
    }
}

#[test]
fn negative_time_has_signed_timecode() {
    let rate = FrameRate::fps_25();
    let t = RationalTime::from_frames(-26, rate);
    assert_eq!(t.to_timecode(rate), "-00:00:01:01");
}

#[test]
fn malformed_timecodes_are_refused() {
    let rate = FrameRate::fps_24();
    assert!(RationalTime::from_timecode("01:02:03", rate).is_none());
    assert!(RationalTime::from_timecode("aa:02:03:04", rate).is_none());
    assert!(RationalTime::from_timecode("", rate).is_none());
}

#[test]
fn drop_frame_skips_two_numbers_each_minute() {
    let rate = FrameRate::fps_29_97();
    let t = RationalTime::from_frames(1800, rate);
    assert_eq!(t.to_timecode_drop_frame(rate), "00:01:00;02");
}

#[test]
fn frame_duration_is_one_frame() {
    let d = FrameRate::fps_29_97().frame_duration();
    assert_eq!(d, RationalTime::new(1001, 30000));
    assert!(!FrameRate::fps_24().is_drop_frame());
    assert!(FrameRate::fps_59_94().is_drop_frame());
}

#[test]
fn negative_timecode_round_trips() {
    let rate = FrameRate::fps_24();
    let time = RationalTime::from_frames(-30, rate);
    let tc = time.to_timecode(rate);
    assert_eq!(tc, "-00:00:01:06");
    let back = RationalTime::from_timecode(&tc, rate).unwrap();
    assert_eq!(back, time);
}

#[test]
fn try_from_timecode_refuses_what_does_not_fit() {
    let rate = FrameRate::fps_24();
    assert_eq!(
        RationalTime::try_from_timecode("01:00:00:00", rate),
        RationalTime::from_timecode("01:00:00:00", rate)
    );
    assert_eq!(seconds(RationalTime::try_from_timecode("-00:00:01:12", rate).unwrap()), -1.5);
    assert!(RationalTime::try_from_timecode("1000000000000000:00:00:00", rate).is_none());
    let ntsc = FrameRate { numerator: 24000, denominator: 1001 };
    assert!(RationalTime::try_from_timecode("200000000000:00:00:00", ntsc).is_none());
    assert!(RationalTime::try_from_timecode("100000000000:00:00:00", ntsc).is_some());
    assert!(RationalTime::try_from_timecode("00:00:01:00", FrameRate { numerator: 0, denominator: 1 }).is_none());
    assert!(RationalTime::try_from_timecode("00:01:00", rate).is_none());
}

#[test]
fn drop_frame_timecode_round_trips() {
    for rate in [FrameRate::fps_29_97(), FrameRate::fps_59_94()] {
        for frames in [0i64, 1799, 1800, 17_981, 17_982, 107_892, -1800, -17_983] {
            let time = RationalTime::from_frames(frames, rate);
            let tc = time.to_timecode_drop_frame(rate);
            let back = RationalTime::from_timecode(&tc, rate).unwrap();
            assert_eq!(back, time);
        }
    }
}

#[test]
fn new_reduces_even_at_the_edge_of_i64() {
    let t = RationalTime::new(i64::MIN, 2);
    assert_eq!((t.numer(), t.denom()), (i64::MIN / 2, 1));
    let t = RationalTime::new(6, i64::MIN);
    assert_eq!((t.numer(), t.denom()), (-3, 1i64 << 62));
    assert_eq!(RationalTime::new(0, i64::MIN), RationalTime::zero());
    let one = RationalTime::new(i64::MIN, i64::MIN);
    assert_eq!((one.numer(), one.denom()), (1, 1));
}
