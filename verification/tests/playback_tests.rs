use vislumino::projection::playback::{advance_current_frame, Playback};

#[test]
fn count_frames_without_wrap() {
    // 0 1 2 3 4 5 6 | 0 1 2 3 4 5 6
    //     |     |
    //  start   end
    let initial_bouncing_back: Option<bool> = None;
    let mut current_bouncing_back: Option<bool> = None;
    assert_eq!(5, advance_current_frame(2, 3, 7, &initial_bouncing_back, &mut current_bouncing_back));
}

#[test]
fn count_frames_with_wrap_no_bounce() {
    // 0 1 2 3 4 | 0 1 2 3 4
    //     |       |
    //  start     end
    let initial_bouncing_back: Option<bool> = None;
    let mut current_bouncing_back: Option<bool> = None;
    assert_eq!(0, advance_current_frame(2, 3, 5, &initial_bouncing_back, &mut current_bouncing_back));
}

#[test]
fn count_frames_with_single_wrap_and_bounce_going_forward() {
    // 0 1 2 3 4 | 3 2 1 | 0 1 2 3 4
    //     |       |
    //  start     end
    let initial_bouncing_back = Some(false);
    let mut current_bouncing_back: Option<bool> = None;
    assert_eq!(3, advance_current_frame(2, 3, 5, &initial_bouncing_back, &mut current_bouncing_back));
    assert_eq!(true, *current_bouncing_back.as_ref().unwrap());
}

#[test]
fn count_frames_with_double_wrap_and_bounce_going_forward() {
    // 0 1 2 3 4 | 3 2 1 | 0 1 2 3 4
    //     |                 |
    //  start               end
    let initial_bouncing_back = Some(false);
    let mut current_bouncing_back: Option<bool> = None;
    assert_eq!(1, advance_current_frame(2, 7, 5, &initial_bouncing_back, &mut current_bouncing_back));
    assert_eq!(false, *current_bouncing_back.as_ref().unwrap());
}

#[test]
fn count_frames_with_single_wrap_and_bounce_going_backward() {
    // 0 1 2 3 4 | 3 2 1 | 0 1 2 3 4
    //               |     |
    //            start   end
    let initial_bouncing_back = Some(true);
    let mut current_bouncing_back: Option<bool> = None;
    assert_eq!(0, advance_current_frame(2, 2, 5, &initial_bouncing_back, &mut current_bouncing_back));
    assert_eq!(false, *current_bouncing_back.as_ref().unwrap());
}

#[test]
fn count_frames_with_double_wrap_and_bounce_going_backward() {
    // 0 1 2 3 4 | 3 2 1 | 0 1 2 3 4 | 3 2 1
    //               |                 |
    //             start              end
    let initial_bouncing_back = Some(true);
    let mut current_bouncing_back: Option<bool> = None;
    assert_eq!(3, advance_current_frame(2, 7, 5, &initial_bouncing_back, &mut current_bouncing_back));
    assert_eq!(true, *current_bouncing_back.as_ref().unwrap());
}

#[test]
fn single_frame_sequence_stays_on_frame_zero() {
    for initial in [None, Some(false), Some(true)] {
        let mut current = Some(true);
        assert_eq!(0, advance_current_frame(0, 12, 1, &initial, &mut current));
        assert_eq!(Some(true), current);
    }
}

#[test]
fn cyclic_playback_leaves_direction_alone() {
    let mut current = Some(true);
    assert_eq!(1, advance_current_frame(3, 2, 4, &None, &mut current));
    assert_eq!(Some(true), current);
}

#[test]
fn forward_bounce_walks_the_whole_wave() {
    // 0 1 2 3 | 2 1 | 0 1 2 3 | 2 1
    let frames = [0, 1, 2, 3, 2, 1, 0, 1, 2, 3, 2, 1, 0];
    let backward = [false, false, false, false, true, true, false, false, false, false, true, true, false];
    for (count, (frame, dir)) in frames.iter().zip(backward.iter()).enumerate() {
        let mut current = None;
        assert_eq!(*frame, advance_current_frame(0, count, 4, &Some(false), &mut current));
        assert_eq!(Some(*dir), current);
    }
}

#[test]
fn backward_bounce_walks_the_whole_wave() {
    // starting at 2, moving backward: 2 1 | 0 1 2 3 | 2 1 | 0
    let frames = [2, 1, 0, 1, 2, 3, 2, 1, 0];
    let backward = [true, true, false, false, false, false, true, true, false];
    for (count, (frame, dir)) in frames.iter().zip(backward.iter()).enumerate() {
        let mut current = None;
        assert_eq!(*frame, advance_current_frame(2, count, 4, &Some(true), &mut current));
        assert_eq!(Some(*dir), current);
    }
}

#[test]
fn backward_bounce_from_the_last_frame() {
    let mut current = None;
    assert_eq!(4, advance_current_frame(4, 0, 5, &Some(true), &mut current));
    assert_eq!(Some(true), current);
    assert_eq!(3, advance_current_frame(4, 1, 5, &Some(true), &mut current));
    assert_eq!(Some(true), current);
}

#[test]
fn bounce_over_two_frames_alternates() {
    let mut current = None;
    assert_eq!(1, advance_current_frame(0, 1, 2, &Some(false), &mut current));
    assert_eq!(0, advance_current_frame(0, 2, 2, &Some(false), &mut current));
    assert_eq!(1, advance_current_frame(1, 0, 2, &Some(true), &mut current));
    assert_eq!(0, advance_current_frame(1, 1, 2, &Some(true), &mut current));
}

#[test]
fn bounce_repeats_after_many_periods() {
    let mut current = None;
    let once = advance_current_frame(2, 3, 5, &Some(false), &mut current);
    let dir_once = current;
    let later = advance_current_frame(2, 3 + 8 * 1000, 5, &Some(false), &mut current);
    assert_eq!(once, later);
    assert_eq!(dir_once, current);
}

#[test]
fn large_counts_do_not_overflow() {
    let mut current = None;
    let frame = advance_current_frame(usize::MAX - 1, usize::MAX, usize::MAX, &Some(false), &mut current);
    assert!(frame < usize::MAX);
    let frame = advance_current_frame(usize::MAX - 1, usize::MAX, usize::MAX, &None, &mut current);
    assert_eq!(frame, usize::MAX - 1);
}

#[test]
fn playback_starts_stopped_and_bouncing() {
    let mut playback = Playback::new();
    assert!(!playback.playing());
    assert!(playback.bouncing_back_enabled());
    assert_eq!(None, playback.play(3, 5));
}

#[test]
fn playback_plays_from_the_frame_it_was_started_at() {
    let mut playback = Playback::new();
    playback.toggle_playing(2);
    assert!(playback.playing());
    assert_eq!(Some(3), playback.play(3, 5));
    // now moving backward: a reset goes on backward from the frame shown
    playback.reset(3);
    assert_eq!(Some(2), playback.play(1, 5));
    playback.toggle_playing(2);
    assert!(!playback.playing());
    assert_eq!(None, playback.play(1, 5));
}

#[test]
fn playback_without_bouncing_wraps() {
    let mut playback = Playback::new();
    playback.toggle_playing(2);
    playback.toggle_bouncing_back();
    assert!(!playback.bouncing_back_enabled());
    assert_eq!(Some(0), playback.play(3, 5));
    playback.toggle_bouncing_back();
    assert!(playback.bouncing_back_enabled());
    assert_eq!(Some(3), playback.play(3, 5));
}

#[test]
fn reset_takes_up_the_direction_last_seen() {
    let mut playback = Playback::new();
    playback.toggle_bouncing_back();
    playback.toggle_playing(2);
    // the direction last seen was forward, and a reset starts from it
    assert!(playback.bouncing_back_enabled());
    assert_eq!(Some(3), playback.play(3, 5));
}
