use zone_sequencer::sequencer::{Sequencer, DEFAULT_MS_PER_STEP, DEFAULT_STEP_COUNT};

/// Feeds the spans one by one, reads the edge after each, and returns how
/// many reads found it up.
fn edges_seen(s: &mut Sequencer, spans: &[u32]) -> u32 {
    let mut seen = 0;
    for &span in spans {
        s.advance(span);
        if s.consume_edge() {
            seen += 1;
        }
    }
    seen
}

#[test]
fn new_sequencer_rests_on_the_default_grid() {
    let s = Sequencer::new(42);
    assert_eq!(DEFAULT_STEP_COUNT, 16);
    assert_eq!(DEFAULT_MS_PER_STEP, 250);
    assert_eq!(s.step_count(), 16);
    assert_eq!(s.ms_per_step(), 250);
    assert_eq!(s.position(), 0);
    assert_eq!(s.accumulated_time_ms(), 0);
    assert!(!s.edge_flag());
    assert_eq!(s.identity(), 42);
}

#[test]
fn with_grid_takes_its_parameters() {
    let s = Sequencer::with_grid(3, 4, 125);
    assert_eq!(s.step_count(), 4);
    assert_eq!(s.ms_per_step(), 125);
    assert_eq!(s.position(), 0);
    assert_eq!(s.accumulated_time_ms(), 0);
    assert!(!s.edge_flag());
    assert_eq!(s.identity(), 3);
}

#[test]
fn time_short_of_a_step_is_carried() {
    let mut s = Sequencer::new(0);
    s.advance(100);
    assert_eq!(s.position(), 0);
    assert_eq!(s.accumulated_time_ms(), 100);
    assert!(!s.edge_flag());
    s.advance(149);
    assert_eq!(s.position(), 0);
    assert_eq!(s.accumulated_time_ms(), 249);
    assert!(!s.edge_flag());
    s.advance(1);
    assert_eq!(s.position(), 1);
    assert_eq!(s.accumulated_time_ms(), 0);
    assert!(s.edge_flag());
}

#[test]
fn advance_of_nothing_changes_nothing() {
    let mut s = Sequencer::new(0);
    s.advance(130);
    s.advance(0);
    assert_eq!(s.position(), 0);
    assert_eq!(s.accumulated_time_ms(), 130);
    assert!(!s.edge_flag());
}

#[test]
fn one_update_can_take_several_steps() {
    let mut s = Sequencer::new(0);
    s.advance(1130);
    assert_eq!(s.position(), 4);
    assert_eq!(s.accumulated_time_ms(), 130);
    assert!(s.consume_edge());
    assert!(!s.consume_edge());
}

#[test]
fn steps_do_not_depend_on_how_time_is_cut() {
    let cuts: [&[u32]; 5] = [
        &[1730],
        &[865, 865],
        &[1, 1729],
        &[250, 250, 250, 250, 250, 250, 230],
        &[17, 233, 500, 480, 499, 1],
    ];
    for cut in cuts {
        let mut s = Sequencer::with_grid(0, 5, 250);
        s.advance(120);
        let mut steps: u64 = 0;
        for &span in cut {
            let before = s.accumulated_time_ms() as u64;
            s.advance(span);
            steps += (before + span as u64) / 250;
        }
        // 120 + 1730 = 1850 = 7 * 250 + 100
        assert_eq!(steps, 7);
        assert_eq!(s.position(), 7 % 5);
        assert_eq!(s.accumulated_time_ms(), 100);
        assert!(s.edge_flag());
    }
}

#[test]
fn sixty_frames_a_second_fire_once_per_step() {
    let mut s = Sequencer::new(0);
    // 150 updates of 16 ms and 10 of 10 ms: 2500 ms, ten steps.
    let mut spans = vec![16u32; 150];
    spans.extend_from_slice(&[10u32; 10]);
    assert_eq!(edges_seen(&mut s, &spans), 10);
    assert_eq!(s.position(), 10);
    assert_eq!(s.accumulated_time_ms(), 0);
}

#[test]
fn an_edge_is_read_once() {
    let mut s = Sequencer::new(0);
    s.advance(250);
    assert!(s.consume_edge());
    assert!(!s.consume_edge());
}

#[test]
fn an_update_inside_the_step_raises_no_edge() {
    let mut s = Sequencer::new(0);
    s.advance(250);
    assert!(s.consume_edge());
    s.advance(249);
    assert!(!s.consume_edge());
    s.advance(1);
    assert!(s.consume_edge());
    assert!(!s.consume_edge());
}

#[test]
fn reading_without_an_edge_gives_false() {
    let mut s = Sequencer::new(0);
    assert!(!s.consume_edge());
    s.advance(10);
    assert!(!s.consume_edge());
}

#[test]
fn looking_at_the_flag_does_not_lower_it() {
    let mut s = Sequencer::new(0);
    s.advance(300);
    assert!(s.edge_flag());
    assert!(s.edge_flag());
    assert!(s.consume_edge());
    assert!(!s.edge_flag());
}

#[test]
fn position_wraps_after_step_count_steps() {
    let mut s = Sequencer::with_grid(0, 4, 250);
    s.advance(250);
    assert_eq!(s.position(), 1);
    for expected in [2, 3, 0, 1] {
        s.advance(250);
        assert_eq!(s.position(), expected);
    }
}

#[test]
fn position_wraps_in_a_single_update() {
    let mut s = Sequencer::new(0);
    s.advance(3 * 250 + 70);
    assert_eq!(s.position(), 3);
    s.advance(16 * 250);
    assert_eq!(s.position(), 3);
    assert_eq!(s.accumulated_time_ms(), 70);
}

#[test]
fn reset_rewinds_and_a_full_step_then_takes_one_step() {
    let mut s = Sequencer::new(0);
    s.advance(5 * 250 + 200);
    assert!(s.consume_edge());
    s.reset();
    assert_eq!(s.position(), 0);
    assert_eq!(s.accumulated_time_ms(), 0);
    assert!(!s.edge_flag());
    s.advance(250);
    assert_eq!(s.position(), 1);
    assert_eq!(s.accumulated_time_ms(), 0);
    assert!(s.consume_edge());
    assert!(!s.consume_edge());
}

#[test]
fn reset_keeps_a_pending_edge() {
    let mut s = Sequencer::new(9);
    s.advance(600);
    s.reset();
    assert_eq!(s.position(), 0);
    assert_eq!(s.accumulated_time_ms(), 0);
    assert!(s.edge_flag());
    assert!(s.consume_edge());
    assert_eq!(s.identity(), 9);
    assert_eq!(s.step_count(), 16);
    assert_eq!(s.ms_per_step(), 250);
}

#[test]
fn four_updates_on_a_grid_of_four() {
    // 100 + 100 + 100 + 200 = 500 ms on a 250 ms grid: two whole steps.
    let mut s = Sequencer::with_grid(0, 4, 250);
    s.advance(100);
    s.advance(100);
    assert!(!s.edge_flag());
    s.advance(100);
    assert_eq!(s.position(), 1);
    assert_eq!(s.accumulated_time_ms(), 50);
    s.advance(200);
    assert_eq!(s.position(), 2);
    assert_eq!(s.accumulated_time_ms(), 0);
    assert!(s.consume_edge());
    assert!(!s.consume_edge());
}

#[test]
fn three_hundred_and_fifty_ms_on_a_grid_of_four() {
    let mut s = Sequencer::with_grid(0, 4, 250);
    let seen = edges_seen(&mut s, &[100, 100, 100, 50]);
    assert_eq!(seen, 1);
    assert_eq!(s.position(), 1);
    assert_eq!(s.accumulated_time_ms(), 100);
}

#[test]
fn the_longest_update_on_the_finest_grid() {
    let mut s = Sequencer::with_grid(0, 7, 1);
    s.advance(u32::MAX);
    assert_eq!(s.position(), (u32::MAX % 7) as u32);
    assert_eq!(s.accumulated_time_ms(), 0);
    assert!(s.consume_edge());
}

#[test]
fn pending_time_and_elapsed_time_may_exceed_32_bits_together() {
    let mut s = Sequencer::with_grid(0, 3, u32::MAX);
    s.advance(u32::MAX - 1);
    assert_eq!(s.position(), 0);
    assert_eq!(s.accumulated_time_ms(), u32::MAX - 1);
    s.advance(u32::MAX);
    assert_eq!(s.position(), 1);
    assert_eq!(s.accumulated_time_ms(), u32::MAX - 1);
    assert!(s.consume_edge());
}

#[test]
fn a_grid_of_one_step_stays_in_place_and_still_fires() {
    let mut s = Sequencer::with_grid(0, 1, 10);
    s.advance(35);
    assert_eq!(s.position(), 0);
    assert_eq!(s.accumulated_time_ms(), 5);
    assert!(s.consume_edge());
}
