use cframe_player::controller::{AnimationController, AnimationState, LoopMode};

fn playing(frames: usize, mode: LoopMode) -> AnimationController {
    let mut c = AnimationController::new(24);
    c.set_frame_count(frames);
    c.set_loop_mode(mode);
    c.play();
    c
}

#[test]
fn a_new_controller_is_paused_and_loops() {
    let c = AnimationController::new(24);
    assert_eq!(c.state(), AnimationState::Paused);
    assert_eq!(c.loop_mode(), LoopMode::Loop);
    assert_eq!(c.fps(), 24);
    assert_eq!(c.frame_count(), 0);
    assert_eq!(c.current_frame(), 0);
    assert!(!c.is_playing());
}

#[test]
fn fps_never_drops_below_one() {
    let mut c = AnimationController::new(0);
    assert_eq!(c.fps(), 1);
    c.set_fps(30);
    assert_eq!(c.fps(), 30);
    c.set_fps(0);
    assert_eq!(c.fps(), 1);
    assert_eq!(c.interval_ms(), 1000);
}

#[test]
fn interval_is_the_integer_quotient() {
    assert_eq!(AnimationController::new(24).interval_ms(), 41);
    assert_eq!(AnimationController::new(60).interval_ms(), 16);
    assert_eq!(AnimationController::new(1).interval_ms(), 1000);
    assert_eq!(AnimationController::new(1000).interval_ms(), 1);
    assert_eq!(AnimationController::new(1001).interval_ms(), 0);
    assert_eq!(AnimationController::new(u32::MAX).interval_ms(), 0);
}

#[test]
fn step_forward_then_backward_returns() {
    let mut c = AnimationController::new(24);
    c.set_frame_count(10);
    for start in 0..9 {
        c.set_current_frame(start);
        c.step_forward();
        assert_eq!(c.current_frame(), start + 1);
        c.step_backward();
        assert_eq!(c.current_frame(), start);
    }
}

#[test]
fn steps_clamp_at_both_ends() {
    let mut c = AnimationController::new(24);
    c.set_frame_count(10);
    c.step_backward();
    assert_eq!(c.current_frame(), 0);
    c.step_backward();
    assert_eq!(c.current_frame(), 0);
    c.set_current_frame(9);
    c.step_forward();
    assert_eq!(c.current_frame(), 9);
    c.step_forward();
    assert_eq!(c.current_frame(), 9);
}

#[test]
fn steps_leave_the_state_alone() {
    let mut c = playing(5, LoopMode::Loop);
    c.step_forward();
    assert_eq!(c.state(), AnimationState::Playing);
    c.step_backward();
    assert_eq!(c.state(), AnimationState::Playing);
    c.toggle();
    c.step_forward();
    assert_eq!(c.state(), AnimationState::Paused);
}

#[test]
fn steps_without_frames_stay_at_zero() {
    let mut c = AnimationController::new(24);
    c.step_forward();
    assert_eq!(c.current_frame(), 0);
    c.step_backward();
    assert_eq!(c.current_frame(), 0);
    c.set_current_frame(7);
    assert_eq!(c.current_frame(), 0);
}

#[test]
fn set_current_frame_clamps() {
    let mut c = AnimationController::new(24);
    c.set_frame_count(4);
    c.set_current_frame(2);
    assert_eq!(c.current_frame(), 2);
    c.set_current_frame(4);
    assert_eq!(c.current_frame(), 3);
    c.set_current_frame(usize::MAX);
    assert_eq!(c.current_frame(), 3);
}

#[test]
fn shrinking_the_frame_count_pulls_the_index_back() {
    let mut c = AnimationController::new(24);
    c.set_frame_count(10);
    c.set_current_frame(8);
    c.set_frame_count(5);
    assert_eq!(c.current_frame(), 4);
    c.set_frame_count(0);
    assert_eq!(c.current_frame(), 0);
}

#[test]
fn loop_mode_cycles_without_leaving_playing() {
    let mut c = playing(3, LoopMode::Loop);
    let mut seen = Vec::new();
    for _ in 0..7 {
        assert!(c.tick());
        assert_eq!(c.state(), AnimationState::Playing);
        seen.push(c.current_frame());
    }
    assert_eq!(seen, vec![1, 2, 0, 1, 2, 0, 1]);
}

#[test]
fn once_mode_finishes_on_the_last_frame() {
    let mut c = playing(3, LoopMode::Once);
    assert!(c.tick());
    assert!(c.tick());
    assert_eq!(c.current_frame(), 2);
    assert_eq!(c.state(), AnimationState::Playing);
    assert!(!c.tick());
    assert_eq!(c.current_frame(), 2);
    assert_eq!(c.state(), AnimationState::Finished);
    for _ in 0..3 {
        assert!(!c.tick());
        assert_eq!(c.current_frame(), 2);
        assert_eq!(c.state(), AnimationState::Finished);
    }
}

#[test]
fn a_single_frame_loop_reports_no_change() {
    let mut c = playing(1, LoopMode::Loop);
    assert!(!c.tick());
    assert_eq!(c.current_frame(), 0);
    assert_eq!(c.state(), AnimationState::Playing);
}

#[test]
fn ticks_do_nothing_unless_playing() {
    let mut c = AnimationController::new(24);
    c.set_frame_count(3);
    assert!(!c.tick());
    assert_eq!(c.current_frame(), 0);
    assert_eq!(c.state(), AnimationState::Paused);
    let mut empty = AnimationController::new(24);
    empty.set_loop_mode(LoopMode::Once);
    empty.play();
    assert!(!empty.tick());
    assert_eq!(empty.state(), AnimationState::Playing);
}

#[test]
fn toggle_switches_between_playing_and_paused() {
    let mut c = AnimationController::new(24);
    c.set_frame_count(3);
    c.toggle();
    assert_eq!(c.state(), AnimationState::Playing);
    assert!(c.is_playing());
    c.toggle();
    assert_eq!(c.state(), AnimationState::Paused);
}

#[test]
fn play_and_toggle_restart_a_finished_animation() {
    let mut c = playing(2, LoopMode::Once);
    c.tick();
    c.tick();
    assert_eq!(c.state(), AnimationState::Finished);
    c.toggle();
    assert_eq!(c.state(), AnimationState::Playing);
    assert_eq!(c.current_frame(), 0);
    c.tick();
    c.tick();
    assert_eq!(c.state(), AnimationState::Finished);
    c.play();
    assert_eq!(c.state(), AnimationState::Playing);
    assert_eq!(c.current_frame(), 0);
}

#[test]
fn play_keeps_the_frame_of_a_paused_animation() {
    let mut c = AnimationController::new(24);
    c.set_frame_count(5);
    c.set_current_frame(3);
    c.play();
    assert_eq!(c.current_frame(), 3);
    assert_eq!(c.state(), AnimationState::Playing);
}

#[test]
fn loop_mode_changes_only_the_policy() {
    let mut c = playing(2, LoopMode::Once);
    c.tick();
    c.tick();
    c.set_loop_mode(LoopMode::Loop);
    assert_eq!(c.loop_mode(), LoopMode::Loop);
    assert_eq!(c.state(), AnimationState::Finished);
    assert_eq!(c.current_frame(), 1);
}

#[test]
fn loop_mode_takes_effect_at_the_next_boundary() {
    let mut c = playing(3, LoopMode::Loop);
    c.tick();
    c.set_loop_mode(LoopMode::Once);
    assert!(c.tick());
    assert!(!c.tick());
    assert_eq!(c.state(), AnimationState::Finished);
}
