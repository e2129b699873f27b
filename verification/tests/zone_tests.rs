use zone_sequencer::detector::TriggerEvent;
use zone_sequencer::frame::{Frame, SampleError};
use zone_sequencer::geometry::{Point, Rect, Size};
use zone_sequencer::sequencer::Sequencer;
use zone_sequencer::zone::Zone;

fn zone(x: i64, y: i64, width: u64, height: u64, steps: u32) -> Zone {
    let made = Zone::new(Rect { x, y, width, height }, Sequencer::with_grid(0, steps, 250));
    assert!(made.is_some());
    made.unwrap()
}

/// A frame of the given size in which the pixels of the columns from
/// `from` up to, not including, `to` match and no other pixel does.
fn striped_frame(width: i32, height: i32, from: i32, to: i32) -> Frame {
    let mut data = Vec::new();
    for _row in 0..height {
        for column in 0..width {
            if from <= column && column < to {
                data.extend_from_slice(&[7, 200, 90]);
            } else {
                data.extend_from_slice(&[100, 200, 90]);
            }
        }
    }
    Frame::from_buffer(width, height, 3, data).unwrap()
}

#[test]
fn a_zone_keeps_its_geometry() {
    let z = zone(20, 30, 320, 100, 16);
    assert_eq!(z.bounds(), Rect { x: 20, y: 30, width: 320, height: 100 });
    assert_eq!(z.origin(), Point { x: 20, y: 30 });
    assert_eq!(z.size(), Size { width: 320, height: 100 });
    assert_eq!(z.sequencer().step_count(), 16);
    assert_eq!(z.sequencer().position(), 0);
}

#[test]
fn active_regions_of_an_even_division_are_equal_and_tile_the_zone() {
    let mut z = zone(40, 8, 320, 50, 16);
    assert_eq!(z.active_width(), 20);
    let mut next_left = 40;
    for position in 0..16u32 {
        assert_eq!(z.sequencer().position(), position);
        assert_eq!(z.active_width(), 20);
        assert_eq!(z.active_origin_x(), 40 + 20 * position as i64);
        let r = z.active_rect();
        assert_eq!(r, Rect { x: next_left, y: 8, width: 20, height: 50 });
        next_left = r.x + r.width as i64;
        z.advance(250);
    }
    assert_eq!(next_left, 40 + 320);
    assert_eq!(z.sequencer().position(), 0);
}

#[test]
fn the_last_region_takes_the_remainder() {
    let mut z = zone(0, 0, 100, 10, 16);
    assert_eq!(z.active_width(), 6);
    let mut covered = 0u64;
    for position in 0..16u32 {
        let r = z.active_rect();
        assert_eq!(r.x, covered as i64);
        assert_eq!(z.active_origin_x(), 6 * position as i64);
        if position < 15 {
            assert_eq!(r.width, 6);
        } else {
            assert_eq!(r.width, 10);
        }
        covered += r.width;
        z.advance(250);
    }
    assert_eq!(covered, 100);
}

#[test]
fn a_zone_narrower_than_its_steps_is_active_on_the_last_step_only() {
    let mut z = zone(5, 5, 3, 4, 4);
    assert_eq!(z.active_width(), 0);
    for _ in 0..3 {
        assert_eq!(z.active_rect(), Rect { x: 5, y: 5, width: 0, height: 4 });
        z.advance(250);
    }
    assert_eq!(z.active_rect(), Rect { x: 5, y: 5, width: 3, height: 4 });
}

#[test]
fn a_zone_without_extent_is_accepted() {
    let z = zone(9, 9, 0, 0, 16);
    assert_eq!(z.active_width(), 0);
    assert_eq!(z.active_rect(), Rect { x: 9, y: 9, width: 0, height: 0 });
}

#[test]
fn a_zone_may_reach_the_largest_coordinate_and_no_further() {
    let fits = Rect { x: i64::MAX - 10, y: -4, width: 10, height: 4 + i64::MAX as u64 };
    assert!(Zone::new(fits, Sequencer::new(0)).is_some());
    let too_wide = Rect { x: i64::MAX - 10, y: 0, width: 11, height: 1 };
    assert!(Zone::new(too_wide, Sequencer::new(0)).is_none());
    let too_high = Rect { x: 0, y: 1, width: 1, height: i64::MAX as u64 };
    assert!(Zone::new(too_high, Sequencer::new(0)).is_none());
    let widest = Rect { x: i64::MIN, y: 0, width: u64::MAX, height: 0 };
    assert!(Zone::new(widest, Sequencer::new(0)).is_some());
}

#[test]
fn the_widest_zone_steps_without_overflow() {
    let bounds = Rect { x: i64::MIN, y: 0, width: u64::MAX, height: 1 };
    let mut z = Zone::new(bounds, Sequencer::with_grid(0, 2, 250)).unwrap();
    assert_eq!(z.active_width(), u64::MAX / 2);
    assert_eq!(z.active_rect(), Rect { x: i64::MIN, y: 0, width: u64::MAX / 2, height: 1 });
    z.advance(250);
    assert_eq!(z.active_origin_x(), -1);
    assert_eq!(z.active_rect(), Rect { x: -1, y: 0, width: u64::MAX / 2 + 1, height: 1 });
}

#[test]
fn a_zone_forwards_time_edges_and_rewinds_to_its_sequencer() {
    let mut z = zone(0, 0, 16, 1, 16);
    z.advance(600);
    assert_eq!(z.sequencer().position(), 2);
    assert_eq!(z.sequencer().accumulated_time_ms(), 100);
    z.reset();
    assert_eq!(z.sequencer().position(), 0);
    assert_eq!(z.sequencer().accumulated_time_ms(), 0);
    assert!(z.consume_edge());
    assert!(!z.consume_edge());
    assert_eq!(z.bounds(), Rect { x: 0, y: 0, width: 16, height: 1 });
}

#[test]
fn detection_measures_the_active_region_only() {
    // Zone over columns 4..20 of the frame, four steps of four columns.
    // Columns 8..10 match: half of the second region, nothing elsewhere.
    let frame = striped_frame(24, 3, 8, 10);
    let made = Zone::new(Rect { x: 4, y: 1, width: 16, height: 2 }, Sequencer::with_grid(5, 4, 250));
    let mut z = made.unwrap();
    assert_eq!(z.detect(&frame), Ok(TriggerEvent { identity: 5, velocity: 0 }));
    z.advance(250);
    // 4 of 8 pixels: 63.5 rounds to 64.
    assert_eq!(z.detect(&frame), Ok(TriggerEvent { identity: 5, velocity: 64 }));
    z.advance(250);
    assert_eq!(z.detect(&frame), Ok(TriggerEvent { identity: 5, velocity: 0 }));
    // Looking at the zone does not move it or spend its edge.
    assert_eq!(z.sequencer().position(), 2);
    assert!(z.sequencer().edge_flag());
}

#[test]
fn detection_fails_outside_the_frame_and_without_a_frame() {
    let frame = striped_frame(10, 4, 0, 10);
    let mut z = zone(0, 0, 20, 4, 2);
    assert_eq!(z.detect(&frame), Ok(TriggerEvent { identity: 0, velocity: 127 }));
    z.advance(250);
    assert_eq!(z.detect(&frame), Err(SampleError::OutOfBounds));
    let none = Frame::from_buffer(0, 0, 0, Vec::new()).unwrap();
    assert_eq!(z.detect(&none), Err(SampleError::NoFrameAvailable));
}

#[test]
fn detection_of_an_empty_region_gives_velocity_zero() {
    let frame = striped_frame(10, 4, 0, 10);
    let z = zone(2, 2, 0, 2, 16);
    assert_eq!(z.detect(&frame), Ok(TriggerEvent { identity: 0, velocity: 0 }));
}
