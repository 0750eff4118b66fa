//! The decisions of the playback loop.
//!
//! The loop itself waits for the terminal and draws; what it decides between
//! two waits is computed here: how long to wait, what an input does to the
//! controller, and whether a frame is due.

use crate::controller::{AnimationController, AnimationState, ControllerModel, LoopMode};
use vstd::prelude::*;

verus! {

/// How long the loop waits for input while playback is halted, in
/// nanoseconds.
pub const IDLE_WAIT_NANOS: u64 = 250_000_000;

/// Nanoseconds in a millisecond.
pub const NANOS_PER_MILLI: u64 = 1_000_000;

/// A key of the keyboard, as far as the player tells keys apart.
#[derive(Clone, Copy, Debug, PartialEq, Eq)]
pub enum Key {
    Char(char),
    Esc,
    Left,
    Right,
    Home,
    End,
    Other,
}

/// What arrived from the terminal.
#[derive(Clone, Copy, Debug, PartialEq, Eq)]
pub enum Event {
    /// The terminal changed its size.
    Resize,
    /// A key went down, or repeats.
    KeyPress(Key),
    /// A key went up.
    KeyRelease,
    /// Anything else.
    Other,
}

/// What a key asks of the player.
#[derive(Clone, Copy, Debug, PartialEq, Eq, Structural)]
pub enum Command {
    Quit,
    TogglePlayback,
    StepForward,
    StepBackward,
    FirstFrame,
    LastFrame,
    Faster,
    Slower,
    SwitchLoopMode,
}

/// What the loop does after an event.
#[derive(Clone, Copy, Debug, PartialEq, Eq, Structural)]
pub struct Reaction {
    /// Leave the loop.
    pub quit: bool,
    /// Draw the current frame again.
    pub redraw: bool,
    /// Measure the frame interval from now.
    pub restart_clock: bool,
    /// Go back to waiting without looking whether a frame is due.
    pub skip_tick: bool,
}

/// The command bound to a key, if any.
pub open spec fn command_of(key: Key) -> Option<Command> {
    match key {
        Key::Esc => Some(Command::Quit),
        Key::Right => Some(Command::StepForward),
        Key::Left => Some(Command::StepBackward),
        Key::Home => Some(Command::FirstFrame),
        Key::End => Some(Command::LastFrame),
        Key::Other => None,
        Key::Char(c) => if c == 'q' {
            Some(Command::Quit)
        } else if c == ' ' {
            Some(Command::TogglePlayback)
        } else if c == '+' || c == '=' {
            Some(Command::Faster)
        } else if c == '-' || c == '_' {
            Some(Command::Slower)
        } else if c == 'l' {
            Some(Command::SwitchLoopMode)
        } else {
            None
        },
    }
}

/// The other loop mode.
pub open spec fn other_mode(mode: LoopMode) -> LoopMode {
    match mode {
        LoopMode::Loop => LoopMode::Once,
        LoopMode::Once => LoopMode::Loop,
    }
}

/// The controller after a command.
pub open spec fn after_command(m: ControllerModel, command: Command) -> ControllerModel {
    match command {
        Command::Quit => m,
        Command::TogglePlayback => m.toggle(),
        Command::StepForward => m.step_forward(),
        Command::StepBackward => m.step_backward(),
        Command::FirstFrame => m.set_current_frame(0),
        Command::LastFrame => m.set_current_frame(m.last_index()),
        Command::Faster => m.set_fps(
            if m.fps >= u32::MAX {
                u32::MAX as nat
            } else {
                m.fps + 1
            },
        ),
        Command::Slower => m.set_fps((m.fps - 1) as nat),
        Command::SwitchLoopMode => m.set_loop_mode(other_mode(m.loop_mode)),
    }
}

/// What the loop does after a command.
pub open spec fn reaction_to_command(command: Command) -> Reaction {
    match command {
        Command::Quit => Reaction {
            quit: true,
            redraw: false,
            restart_clock: false,
            skip_tick: true,
        },
        Command::TogglePlayback | Command::Faster | Command::Slower => Reaction {
            quit: false,
            redraw: true,
            restart_clock: true,
            skip_tick: false,
        },
        _ => Reaction { quit: false, redraw: true, restart_clock: false, skip_tick: false },
    }
}

/// The controller after an event.
pub open spec fn after_event(m: ControllerModel, event: Event) -> ControllerModel {
    match event {
        Event::KeyPress(key) => match command_of(key) {
            Some(command) => after_command(m, command),
            None => m,
        },
        _ => m,
    }
}

/// What the loop does after an event.
pub open spec fn reaction_to(event: Event) -> Reaction {
    match event {
        Event::Resize => Reaction {
            quit: false,
            redraw: true,
            restart_clock: false,
            skip_tick: false,
        },
        Event::KeyRelease => Reaction {
            quit: false,
            redraw: false,
            restart_clock: false,
            skip_tick: true,
        },
        Event::KeyPress(key) => match command_of(key) {
            Some(command) => reaction_to_command(command),
            None => Reaction {
                quit: false,
                redraw: false,
                restart_clock: false,
                skip_tick: false,
            },
        },
        Event::Other => Reaction {
            quit: false,
            redraw: false,
            restart_clock: false,
            skip_tick: false,
        },
    }
}

/// How long the loop may wait for input, given the time since the last
/// frame: the rest of the frame interval while playing, a quarter of a
/// second otherwise.
pub open spec fn wait_nanos(m: ControllerModel, elapsed_nanos: nat) -> nat {
    if m.state == AnimationState::Playing {
        if elapsed_nanos >= m.interval_ms() * 1_000_000 {
            0
        } else {
            (m.interval_ms() * 1_000_000 - elapsed_nanos) as nat
        }
    } else {
        250_000_000
    }
}

/// Whether the next frame is due after `elapsed_nanos`.
pub open spec fn frame_due(m: ControllerModel, elapsed_nanos: nat) -> bool {
    m.state == AnimationState::Playing && elapsed_nanos >= m.interval_ms() * 1_000_000
}

/// The command bound to a key, if any.
pub fn command_for(key: Key) -> (command: Option<Command>)
    ensures
        command == command_of(key),
{
    match key {
        Key::Esc => Some(Command::Quit),
        Key::Right => Some(Command::StepForward),
        Key::Left => Some(Command::StepBackward),
        Key::Home => Some(Command::FirstFrame),
        Key::End => Some(Command::LastFrame),
        Key::Other => None,
        Key::Char(c) => {
            if c == 'q' {
                Some(Command::Quit)
            } else if c == ' ' {
                Some(Command::TogglePlayback)
            } else if c == '+' || c == '=' {
                Some(Command::Faster)
            } else if c == '-' || c == '_' {
                Some(Command::Slower)
            } else if c == 'l' {
                Some(Command::SwitchLoopMode)
            } else {
                None
            }
        },
    }
}

/// Carries out a command on the controller and says what the loop does
/// next.
pub fn run_command(controller: &mut AnimationController, command: Command) -> (reaction: Reaction)
    ensures
        final(controller)@ == after_command(old(controller)@, command),
        final(controller)@.wf(),
        reaction == reaction_to_command(command),
{
    proof {
        use_type_invariant(&*controller);
    }
    let fps: u32 = controller.fps();
    let count: usize = controller.frame_count();
    match command {
        Command::Quit => {
            return Reaction { quit: true, redraw: false, restart_clock: false, skip_tick: true };
        },
        Command::TogglePlayback => {
            controller.toggle();
            Reaction { quit: false, redraw: true, restart_clock: true, skip_tick: false }
        },
        Command::StepForward => {
            controller.step_forward();
            Reaction { quit: false, redraw: true, restart_clock: false, skip_tick: false }
        },
        Command::StepBackward => {
            controller.step_backward();
            Reaction { quit: false, redraw: true, restart_clock: false, skip_tick: false }
        },
        Command::FirstFrame => {
            controller.set_current_frame(0);
            Reaction { quit: false, redraw: true, restart_clock: false, skip_tick: false }
        },
        Command::LastFrame => {
            controller.set_current_frame(if count == 0 { 0 } else { count - 1 });
            Reaction { quit: false, redraw: true, restart_clock: false, skip_tick: false }
        },
        Command::Faster => {
            controller.set_fps(if fps == u32::MAX { fps } else { fps + 1 });
            Reaction { quit: false, redraw: true, restart_clock: true, skip_tick: false }
        },
        Command::Slower => {
            controller.set_fps(fps - 1);
            Reaction { quit: false, redraw: true, restart_clock: true, skip_tick: false }
        },
        Command::SwitchLoopMode => {
            let next: LoopMode = match controller.loop_mode() {
                LoopMode::Loop => LoopMode::Once,
                LoopMode::Once => LoopMode::Loop,
            };
            controller.set_loop_mode(next);
            Reaction { quit: false, redraw: true, restart_clock: false, skip_tick: false }
        },
    }
}

/// Handles one event from the terminal: changes the controller as the event
/// asks and says what the loop does next.
pub fn handle_event(controller: &mut AnimationController, event: Event) -> (reaction: Reaction)
    ensures
        final(controller)@ == after_event(old(controller)@, event),
        final(controller)@.wf(),
        reaction == reaction_to(event),
{
    proof {
        use_type_invariant(&*controller);
    }
    match event {
        Event::Resize => Reaction {
            quit: false,
            redraw: true,
            restart_clock: false,
            skip_tick: false,
        },
        Event::KeyRelease => Reaction {
            quit: false,
            redraw: false,
            restart_clock: false,
            skip_tick: true,
        },
        Event::KeyPress(key) => match command_for(key) {
            Some(command) => run_command(controller, command),
            None => Reaction {
                quit: false,
                redraw: false,
                restart_clock: false,
                skip_tick: false,
            },
        },
        Event::Other => Reaction {
            quit: false,
            redraw: false,
            restart_clock: false,
            skip_tick: false,
        },
    }
}

/// How long the loop may wait for input, in nanoseconds, when
/// `elapsed_nanos` have passed since the last frame.
pub fn poll_timeout_nanos(controller: &AnimationController, elapsed_nanos: u64) -> (wait: u64)
    ensures
        wait == wait_nanos(controller@, elapsed_nanos as nat),
{
    if controller.is_playing() {
        let interval: u64 = controller.interval_ms() as u64 * NANOS_PER_MILLI;
        if elapsed_nanos >= interval {
            0
        } else {
            interval - elapsed_nanos
        }
    } else {
        IDLE_WAIT_NANOS
    }
}

/// Advances playback by one frame if the frame interval has passed. Returns
/// whether it was: the loop then draws again and measures the next interval
/// from now, however late the frame is.
pub fn tick_if_due(controller: &mut AnimationController, elapsed_nanos: u64) -> (due: bool)
    ensures
        due == frame_due(old(controller)@, elapsed_nanos as nat),
        final(controller)@ == (if due {
            old(controller)@.tick()
        } else {
            old(controller)@
        }),
        final(controller)@.wf(),
{
    proof {
        use_type_invariant(&*controller);
    }
    if controller.is_playing() {
        let interval: u64 = controller.interval_ms() as u64 * NANOS_PER_MILLI;
        if elapsed_nanos >= interval {
            controller.tick();
            return true;
        }
    }
    false
}

} // verus!
