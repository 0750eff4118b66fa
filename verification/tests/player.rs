use cframe_player::controller::{AnimationController, AnimationState, LoopMode};
use cframe_player::player::{
    command_for, handle_event, poll_timeout_nanos, run_command, tick_if_due, Command, Event, Key, Reaction,
};

fn controller(frames: usize) -> AnimationController {
    let mut c = AnimationController::new(10);
    c.set_frame_count(frames);
    c
}

#[test]
fn keys_map_to_commands() {
    assert_eq!(command_for(Key::Char('q')), Some(Command::Quit));
    assert_eq!(command_for(Key::Esc), Some(Command::Quit));
    assert_eq!(command_for(Key::Char(' ')), Some(Command::TogglePlayback));
    assert_eq!(command_for(Key::Right), Some(Command::StepForward));
    assert_eq!(command_for(Key::Left), Some(Command::StepBackward));
    assert_eq!(command_for(Key::Home), Some(Command::FirstFrame));
    assert_eq!(command_for(Key::End), Some(Command::LastFrame));
    assert_eq!(command_for(Key::Char('+')), Some(Command::Faster));
    assert_eq!(command_for(Key::Char('=')), Some(Command::Faster));
    assert_eq!(command_for(Key::Char('-')), Some(Command::Slower));
    assert_eq!(command_for(Key::Char('_')), Some(Command::Slower));
    assert_eq!(command_for(Key::Char('l')), Some(Command::SwitchLoopMode));
    assert_eq!(command_for(Key::Char('Q')), None);
    assert_eq!(command_for(Key::Char('x')), None);
    assert_eq!(command_for(Key::Other), None);
}

#[test]
fn quit_leaves_the_loop() {
    let mut c = controller(3);
    let r = handle_event(&mut c, Event::KeyPress(Key::Char('q')));
    assert_eq!(r, Reaction { quit: true, redraw: false, restart_clock: false, skip_tick: true });
}

#[test]
fn toggle_and_rate_restart_the_clock() {
    let mut c = controller(3);
    let r = handle_event(&mut c, Event::KeyPress(Key::Char(' ')));
    assert_eq!(r, Reaction { quit: false, redraw: true, restart_clock: true, skip_tick: false });
    assert_eq!(c.state(), AnimationState::Playing);
    let r = handle_event(&mut c, Event::KeyPress(Key::Char('+')));
    assert!(r.restart_clock && r.redraw);
    assert_eq!(c.fps(), 11);
    handle_event(&mut c, Event::KeyPress(Key::Char('-')));
    handle_event(&mut c, Event::KeyPress(Key::Char('-')));
    assert_eq!(c.fps(), 9);
}

#[test]
fn the_rate_saturates_at_both_ends() {
    let mut c = AnimationController::new(1);
    run_command(&mut c, Command::Slower);
    assert_eq!(c.fps(), 1);
    c.set_fps(u32::MAX);
    run_command(&mut c, Command::Faster);
    assert_eq!(c.fps(), u32::MAX);
}

#[test]
fn navigation_keys_move_the_frame_and_redraw() {
    let mut c = controller(5);
    let plain = Reaction { quit: false, redraw: true, restart_clock: false, skip_tick: false };
    assert_eq!(handle_event(&mut c, Event::KeyPress(Key::End)), plain);
    assert_eq!(c.current_frame(), 4);
    assert_eq!(handle_event(&mut c, Event::KeyPress(Key::Left)), plain);
    assert_eq!(c.current_frame(), 3);
    assert_eq!(handle_event(&mut c, Event::KeyPress(Key::Right)), plain);
    assert_eq!(c.current_frame(), 4);
    assert_eq!(handle_event(&mut c, Event::KeyPress(Key::Home)), plain);
    assert_eq!(c.current_frame(), 0);
    assert_eq!(handle_event(&mut c, Event::KeyPress(Key::Char('l'))), plain);
    assert_eq!(c.loop_mode(), LoopMode::Once);
    handle_event(&mut c, Event::KeyPress(Key::Char('l')));
    assert_eq!(c.loop_mode(), LoopMode::Loop);
}

#[test]
fn the_last_frame_of_nothing_is_frame_zero() {
    let mut c = controller(0);
    run_command(&mut c, Command::LastFrame);
    assert_eq!(c.current_frame(), 0);
}

#[test]
fn other_events_change_nothing() {
    let mut c = controller(5);
    c.set_current_frame(2);
    let idle = Reaction { quit: false, redraw: false, restart_clock: false, skip_tick: false };
    assert_eq!(handle_event(&mut c, Event::Other), idle);
    assert_eq!(handle_event(&mut c, Event::KeyPress(Key::Char('z'))), idle);
    assert_eq!(
        handle_event(&mut c, Event::KeyRelease),
        Reaction { quit: false, redraw: false, restart_clock: false, skip_tick: true }
    );
    assert_eq!(
        handle_event(&mut c, Event::Resize),
        Reaction { quit: false, redraw: true, restart_clock: false, skip_tick: false }
    );
    assert_eq!(c.current_frame(), 2);
    assert_eq!(c.state(), AnimationState::Paused);
    assert_eq!(c.fps(), 10);
}

#[test]
fn the_wait_is_the_rest_of_the_interval() {
    let mut c = controller(5);
    assert_eq!(poll_timeout_nanos(&c, 0), 250_000_000);
    assert_eq!(poll_timeout_nanos(&c, u64::MAX), 250_000_000);
    c.play();
    assert_eq!(poll_timeout_nanos(&c, 0), 100_000_000);
    assert_eq!(poll_timeout_nanos(&c, 30_000_001), 69_999_999);
    assert_eq!(poll_timeout_nanos(&c, 100_000_000), 0);
    assert_eq!(poll_timeout_nanos(&c, u64::MAX), 0);
    c.set_fps(5000);
    assert_eq!(poll_timeout_nanos(&c, 0), 0);
}

#[test]
fn a_frame_is_due_when_the_interval_has_passed() {
    let mut c = controller(3);
    assert!(!tick_if_due(&mut c, u64::MAX));
    assert_eq!(c.current_frame(), 0);
    c.play();
    assert!(!tick_if_due(&mut c, 99_999_999));
    assert_eq!(c.current_frame(), 0);
    assert!(tick_if_due(&mut c, 100_000_000));
    assert_eq!(c.current_frame(), 1);
    // a long stall still advances one frame only
    assert!(tick_if_due(&mut c, 10_000_000_000));
    assert_eq!(c.current_frame(), 2);
}

#[test]
fn the_tick_that_finishes_is_due_too() {
    let mut c = controller(1);
    c.set_loop_mode(LoopMode::Once);
    c.play();
    assert!(tick_if_due(&mut c, 100_000_000));
    assert_eq!(c.state(), AnimationState::Finished);
    assert!(!tick_if_due(&mut c, 100_000_000));
}
