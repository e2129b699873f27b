use zone_sequencer::detector::{
    is_target, measure, TriggerEvent, HUE_HIGH, HUE_LOW, MAX_VELOCITY, SATURATION_HIGH,
    SATURATION_LOW, VALUE_HIGH, VALUE_LOW,
};
use zone_sequencer::frame::{Frame, HsvPixel};
use zone_sequencer::geometry::Rect;

const HIT: [u8; 3] = [10, 128, 40];
const MISS: [u8; 3] = [90, 128, 40];

/// A frame of one row with `matching` matching pixels followed by pixels
/// that do not match, `total` in all.
fn row(matching: usize, total: usize) -> Frame {
    let mut data = Vec::new();
    for i in 0..total {
        data.extend_from_slice(if i < matching { &HIT } else { &MISS });
    }
    Frame::from_buffer(total as i32, 1, 3, data).unwrap()
}

fn velocity(matching: usize, total: usize) -> u8 {
    let f = row(matching, total);
    let sub = f.sample(Rect { x: 0, y: 0, width: total as u64, height: 1 }).unwrap();
    let c = measure(&sub);
    assert_eq!(c.matching(), matching as u64);
    assert_eq!(c.total(), total as u64);
    c.velocity()
}

#[test]
fn the_target_range_is_fixed() {
    assert_eq!((HUE_LOW, HUE_HIGH), (0, 15));
    assert_eq!((SATURATION_LOW, SATURATION_HIGH), (25, 255));
    assert_eq!((VALUE_LOW, VALUE_HIGH), (0, 255));
    assert_eq!(MAX_VELOCITY, 127);
}

#[test]
fn the_range_includes_its_bounds() {
    assert!(is_target(HsvPixel { h: 0, s: 25, v: 0 }));
    assert!(is_target(HsvPixel { h: 15, s: 255, v: 255 }));
    assert!(is_target(HsvPixel { h: 15, s: 25, v: 128 }));
    assert!(!is_target(HsvPixel { h: 16, s: 255, v: 255 }));
    assert!(!is_target(HsvPixel { h: 0, s: 24, v: 255 }));
    assert!(!is_target(HsvPixel { h: 179, s: 200, v: 200 }));
    assert!(!is_target(HsvPixel { h: 0, s: 0, v: 0 }));
}

#[test]
fn a_sub_image_without_pixels_has_coverage_zero() {
    let f = row(4, 4);
    for r in [
        Rect { x: 0, y: 0, width: 0, height: 0 },
        Rect { x: 1, y: 0, width: 0, height: 1 },
        Rect { x: 1, y: 0, width: 3, height: 0 },
        Rect { x: 4, y: 1, width: 0, height: 0 },
    ] {
        let sub = f.sample(r).unwrap();
        let c = measure(&sub);
        assert_eq!(c.matching(), 0);
        assert_eq!(c.total(), 0);
        assert_eq!(c.velocity(), 0);
    }
}

#[test]
fn a_sub_image_inside_the_range_has_coverage_one() {
    assert_eq!(velocity(1, 1), 127);
    assert_eq!(velocity(9, 9), 127);
    assert_eq!(velocity(254, 254), 127);
}

#[test]
fn a_sub_image_outside_the_range_has_coverage_zero() {
    assert_eq!(velocity(0, 1), 0);
    assert_eq!(velocity(0, 100), 0);
}

#[test]
fn velocity_is_rounded_to_the_nearest_integer() {
    // 127 / 2 = 63.5
    assert_eq!(velocity(1, 2), 64);
    // 127 / 3 = 42.33, 254 / 3 = 84.67
    assert_eq!(velocity(1, 3), 42);
    assert_eq!(velocity(2, 3), 85);
    // 127 / 4 = 31.75, 381 / 4 = 95.25
    assert_eq!(velocity(1, 4), 32);
    assert_eq!(velocity(3, 4), 95);
    // 127 / 254 = 0.5 goes up, 127 / 255 stays down
    assert_eq!(velocity(1, 254), 1);
    assert_eq!(velocity(1, 255), 0);
    // 126.5 goes up to 127 without every pixel matching
    assert_eq!(velocity(253, 254), 127);
    assert_eq!(velocity(100, 127), 100);
}

#[test]
fn only_the_pixels_of_the_rectangle_are_measured() {
    // 6 columns, 4 rows; the pixels with column + row even match.
    let mut data = Vec::new();
    for r in 0..4 {
        for c in 0..6 {
            data.extend_from_slice(if (c + r) % 2 == 0 { &HIT } else { &MISS });
        }
    }
    let f = Frame::from_buffer(6, 4, 3, data).unwrap();
    let whole = measure(&f.sample(Rect { x: 0, y: 0, width: 6, height: 4 }).unwrap());
    assert_eq!((whole.matching(), whole.total()), (12, 24));
    // Columns 1..4 of rows 1..4: (1,1) (3,1) (2,2) (1,3) (3,3) match.
    let part = measure(&f.sample(Rect { x: 1, y: 1, width: 3, height: 3 }).unwrap());
    assert_eq!((part.matching(), part.total()), (5, 9));
    // 5 * 127 / 9 = 70.56
    assert_eq!(part.velocity(), 71);
    let column = measure(&f.sample(Rect { x: 5, y: 0, width: 1, height: 4 }).unwrap());
    assert_eq!((column.matching(), column.total()), (2, 4));
    let pixel = measure(&f.sample(Rect { x: 5, y: 3, width: 1, height: 1 }).unwrap());
    assert_eq!((pixel.matching(), pixel.total()), (1, 1));
}

#[test]
fn saturation_and_hue_must_both_match() {
    let data = vec![
        10, 24, 255, // hue in, saturation out
        16, 200, 255, // hue out, saturation in
        15, 25, 0, // both on the bounds
        0, 255, 255, // both in
    ];
    let f = Frame::from_buffer(2, 2, 3, data).unwrap();
    let c = measure(&f.sample(Rect { x: 0, y: 0, width: 2, height: 2 }).unwrap());
    assert_eq!((c.matching(), c.total()), (2, 4));
    assert_eq!(c.velocity(), 64);
}

#[test]
fn a_trigger_carries_identity_and_velocity() {
    let f = row(3, 4);
    let c = measure(&f.sample(Rect { x: 0, y: 0, width: 4, height: 1 }).unwrap());
    assert_eq!(c.emit(77), TriggerEvent { identity: 77, velocity: 95 });
    assert_eq!(c.emit(u64::MAX), TriggerEvent { identity: u64::MAX, velocity: 95 });
}
