//! Playback state machine over an ordered sequence of frames.

use vstd::prelude::*;

verus! {

/// What the controller does when playback runs past the last frame.
#[derive(Clone, Copy, Debug, PartialEq, Eq, Structural)]
pub enum LoopMode {
    /// Stop on the last frame.
    Once,
    /// Start again from the first frame.
    Loop,
}

/// Playback state of the controller.
#[derive(Clone, Copy, Debug, PartialEq, Eq, Structural)]
pub enum AnimationState {
    /// Frames advance on every tick.
    Playing,
    /// Playback is halted and can be resumed.
    Paused,
    /// Playback ran past the last frame in `LoopMode::Once`.
    Finished,
}

/// Mathematical model of an [`AnimationController`].
pub struct ControllerModel {
    pub fps: nat,
    pub frame_count: nat,
    pub current_frame: nat,
    pub state: AnimationState,
    pub loop_mode: LoopMode,
}

impl ControllerModel {
    /// The rate is positive and the index addresses a frame (or is 0 when
    /// there are none).
    pub open spec fn wf(self) -> bool {
        &&& self.fps >= 1
        &&& if self.frame_count == 0 {
            self.current_frame == 0
        } else {
            self.current_frame < self.frame_count
        }
    }

    /// Index of the last frame; 0 when there are no frames.
    pub open spec fn last_index(self) -> nat {
        if self.frame_count == 0 {
            0
        } else {
            (self.frame_count - 1) as nat
        }
    }

    /// The index `i` clamped into the valid range.
    pub open spec fn clamp_index(self, i: nat) -> nat {
        if i < self.frame_count {
            i
        } else {
            self.last_index()
        }
    }

    /// A fresh controller: paused, looping, no frames, rate at least 1.
    pub open spec fn initial(fps: nat) -> ControllerModel {
        ControllerModel {
            fps: if fps < 1 { 1 } else { fps },
            frame_count: 0,
            current_frame: 0,
            state: AnimationState::Paused,
            loop_mode: LoopMode::Loop,
        }
    }

    pub open spec fn set_frame_count(self, count: nat) -> ControllerModel {
        ControllerModel {
            frame_count: count,
            current_frame: if count == 0 {
                0
            } else if self.current_frame >= count {
                (count - 1) as nat
            } else {
                self.current_frame
            },
            ..self
        }
    }

    pub open spec fn set_fps(self, fps: nat) -> ControllerModel {
        ControllerModel { fps: if fps < 1 { 1 } else { fps }, ..self }
    }

    pub open spec fn set_loop_mode(self, mode: LoopMode) -> ControllerModel {
        ControllerModel { loop_mode: mode, ..self }
    }

    pub open spec fn set_current_frame(self, i: nat) -> ControllerModel {
        ControllerModel { current_frame: self.clamp_index(i), ..self }
    }

    /// Playback starts; a finished animation is rewound to its first frame.
    pub open spec fn play(self) -> ControllerModel {
        if self.state == AnimationState::Finished {
            ControllerModel { state: AnimationState::Playing, current_frame: 0, ..self }
        } else {
            ControllerModel { state: AnimationState::Playing, ..self }
        }
    }

    pub open spec fn toggle(self) -> ControllerModel {
        match self.state {
            AnimationState::Playing => ControllerModel { state: AnimationState::Paused, ..self },
            AnimationState::Paused => ControllerModel { state: AnimationState::Playing, ..self },
            AnimationState::Finished => self.play(),
        }
    }

    pub open spec fn step_forward(self) -> ControllerModel {
        ControllerModel { current_frame: self.clamp_index(self.current_frame + 1), ..self }
    }

    pub open spec fn step_backward(self) -> ControllerModel {
        ControllerModel {
            current_frame: if self.current_frame == 0 {
                0
            } else {
                (self.current_frame - 1) as nat
            },
            ..self
        }
    }

    /// One time-driven advancement.
    pub open spec fn tick(self) -> ControllerModel {
        if self.state != AnimationState::Playing || self.frame_count == 0 {
            self
        } else if self.current_frame + 1 < self.frame_count {
            ControllerModel { current_frame: self.current_frame + 1, ..self }
        } else {
            match self.loop_mode {
                LoopMode::Loop => ControllerModel { current_frame: 0, ..self },
                LoopMode::Once => ControllerModel { state: AnimationState::Finished, ..self },
            }
        }
    }

    /// `n` ticks in a row.
    pub open spec fn ticks(self, n: nat) -> ControllerModel
        decreases n,
    {
        if n == 0 {
            self
        } else {
            self.ticks((n - 1) as nat).tick()
        }
    }

    /// Milliseconds between two frames: `1000 / fps`, rounded down.
    pub open spec fn interval_ms(self) -> nat {
        if self.fps == 0 {
            1000
        } else {
            1000nat / self.fps
        }
    }
}

/// Playback controller: which frame is shown, whether frames advance, how
/// fast, and what happens past the last frame.
pub struct AnimationController {
    fps: u32,
    frame_count: usize,
    current_frame: usize,
    state: AnimationState,
    loop_mode: LoopMode,
}

impl View for AnimationController {
    type V = ControllerModel;

    closed spec fn view(&self) -> ControllerModel {
        ControllerModel {
            fps: self.fps as nat,
            frame_count: self.frame_count as nat,
            current_frame: self.current_frame as nat,
            state: self.state,
            loop_mode: self.loop_mode,
        }
    }
}

impl AnimationController {
    /// Holds of every controller: its model is well-formed.
    #[verifier::type_invariant]
    pub open spec fn inv(self) -> bool {
        self@.wf()
    }

    /// A paused, looping controller without frames. A rate of 0 is raised
    /// to 1.
    pub fn new(fps: u32) -> (c: AnimationController)
        ensures
            c@ == ControllerModel::initial(fps as nat),
            c@.wf(),
    {
        AnimationController {
            fps: if fps < 1 { 1 } else { fps },
            frame_count: 0,
            current_frame: 0,
            state: AnimationState::Paused,
            loop_mode: LoopMode::Loop,
        }
    }

    /// Attaches the number of loaded frames and pulls the index back into
    /// range.
    pub fn set_frame_count(&mut self, count: usize)
        ensures
            final(self)@ == old(self)@.set_frame_count(count as nat),
            final(self)@.wf(),
    {
        proof {
            use_type_invariant(&*self);
        }
        let current: usize = if count == 0 {
            0
        } else if self.current_frame >= count {
            count - 1
        } else {
            self.current_frame
        };
        *self = AnimationController {
            fps: self.fps,
            frame_count: count,
            current_frame: current,
            state: self.state,
            loop_mode: self.loop_mode,
        };
    }

    pub fn frame_count(&self) -> (n: usize)
        ensures
            n == self@.frame_count,
    {
        self.frame_count
    }

    /// Sets the playback rate; 0 is raised to 1.
    pub fn set_fps(&mut self, fps: u32)
        ensures
            final(self)@ == old(self)@.set_fps(fps as nat),
            final(self)@.wf(),
    {
        proof {
            use_type_invariant(&*self);
        }
        self.fps = if fps < 1 { 1 } else { fps };
    }

    pub fn fps(&self) -> (fps: u32)
        ensures
            fps == self@.fps,
            fps >= 1,
    {
        proof {
            use_type_invariant(self);
        }
        self.fps
    }

    /// Milliseconds between two frames, `1000 / fps` rounded down. Above
    /// 1000 frames per second this is 0.
    pub fn interval_ms(&self) -> (ms: u32)
        ensures
            ms == self@.interval_ms(),
            ms <= 1000,
    {
        proof {
            use_type_invariant(self);
        }
        1000 / self.fps
    }

    /// Sets what happens past the last frame. Nothing else changes.
    pub fn set_loop_mode(&mut self, mode: LoopMode)
        ensures
            final(self)@ == old(self)@.set_loop_mode(mode),
            final(self)@.wf(),
    {
        proof {
            use_type_invariant(&*self);
        }
        self.loop_mode = mode;
    }

    pub fn loop_mode(&self) -> (mode: LoopMode)
        ensures
            mode == self@.loop_mode,
    {
        self.loop_mode
    }

    /// Starts playback. A finished animation starts over from its first
    /// frame.
    pub fn play(&mut self)
        ensures
            final(self)@ == old(self)@.play(),
            final(self)@.wf(),
    {
        proof {
            use_type_invariant(&*self);
        }
        let current: usize = match self.state {
            AnimationState::Finished => 0,
            _ => self.current_frame,
        };
        *self = AnimationController {
            fps: self.fps,
            frame_count: self.frame_count,
            current_frame: current,
            state: AnimationState::Playing,
            loop_mode: self.loop_mode,
        };
    }

    /// Switches between playing and paused; a finished animation is played
    /// again as by [`AnimationController::play`].
    pub fn toggle(&mut self)
        ensures
            final(self)@ == old(self)@.toggle(),
            final(self)@.wf(),
    {
        proof {
            use_type_invariant(&*self);
        }
        match self.state {
            AnimationState::Playing => {
                self.state = AnimationState::Paused;
            },
            AnimationState::Paused => {
                self.state = AnimationState::Playing;
            },
            AnimationState::Finished => {
                self.play();
            },
        }
    }

    pub fn state(&self) -> (state: AnimationState)
        ensures
            state == self@.state,
    {
        self.state
    }

    pub fn is_playing(&self) -> (playing: bool)
        ensures
            playing == (self@.state == AnimationState::Playing),
    {
        match self.state {
            AnimationState::Playing => true,
            _ => false,
        }
    }

    pub fn current_frame(&self) -> (i: usize)
        ensures
            i == self@.current_frame,
            self@.frame_count > 0 ==> i < self@.frame_count,
            self@.frame_count == 0 ==> i == 0,
    {
        proof {
            use_type_invariant(self);
        }
        self.current_frame
    }

    /// Jumps to frame `i`, or to the last frame when `i` is out of range.
    pub fn set_current_frame(&mut self, i: usize)
        ensures
            final(self)@ == old(self)@.set_current_frame(i as nat),
            final(self)@.wf(),
    {
        proof {
            use_type_invariant(&*self);
        }
        if i < self.frame_count {
            self.current_frame = i;
        } else if self.frame_count == 0 {
            self.current_frame = 0;
        } else {
            self.current_frame = self.frame_count - 1;
        }
    }

    /// Moves one frame on and stays on the last frame.
    pub fn step_forward(&mut self)
        ensures
            final(self)@ == old(self)@.step_forward(),
            final(self)@.wf(),
    {
        proof {
            use_type_invariant(&*self);
        }
        if self.frame_count > 0 && self.current_frame < self.frame_count - 1 {
            self.current_frame = self.current_frame + 1;
        }
    }

    /// Moves one frame back and stays on the first frame.
    pub fn step_backward(&mut self)
        ensures
            final(self)@ == old(self)@.step_backward(),
            final(self)@.wf(),
    {
        proof {
            use_type_invariant(&*self);
        }
        if self.current_frame > 0 {
            self.current_frame = self.current_frame - 1;
        }
    }

    /// Advances playback by one frame interval and tells whether the frame
    /// index changed.
    ///
    /// Only a playing controller with frames moves. Past the last frame a
    /// looping controller returns to frame 0; otherwise the index stays and
    /// the controller becomes finished.
    pub fn tick(&mut self) -> (changed: bool)
        ensures
            final(self)@ == old(self)@.tick(),
            changed == (final(self)@.current_frame != old(self)@.current_frame),
            final(self)@.wf(),
    {
        proof {
            use_type_invariant(&*self);
        }
        match self.state {
            AnimationState::Playing => {},
            _ => {
                return false;
            },
        }
        if self.frame_count == 0 {
            return false;
        }
        if self.current_frame < self.frame_count - 1 {
            self.current_frame = self.current_frame + 1;
            return true;
        }
        match self.loop_mode {
            LoopMode::Loop => {
                let moved: bool = self.current_frame != 0;
                self.current_frame = 0;
                moved
            },
            LoopMode::Once => {
                self.state = AnimationState::Finished;
                false
            },
        }
    }
}

/// Every operation keeps a well-formed controller well-formed: the rate
/// stays positive and the index keeps addressing a frame.
pub proof fn lemma_operations_preserve_wf(m: ControllerModel, i: nat, fps: nat, mode: LoopMode)
    requires
        m.wf(),
    ensures
        ControllerModel::initial(fps).wf(),
        m.set_frame_count(i).wf(),
        m.set_fps(fps).wf(),
        m.set_loop_mode(mode).wf(),
        m.set_current_frame(i).wf(),
        m.play().wf(),
        m.toggle().wf(),
        m.step_forward().wf(),
        m.step_backward().wf(),
        m.tick().wf(),
{
}

/// Only a tick finishes playback, and only when the controller is playing
/// its last frame in `LoopMode::Once`. No other operation enters the
/// finished state.
pub proof fn lemma_finished_only_by_tick(m: ControllerModel, i: nat, fps: nat, mode: LoopMode)
    requires
        m.wf(),
        m.state != AnimationState::Finished,
    ensures
        m.tick().state == AnimationState::Finished <==> m.state == AnimationState::Playing
            && m.loop_mode == LoopMode::Once && m.frame_count > 0 && m.current_frame
            == m.last_index(),
        m.set_frame_count(i).state != AnimationState::Finished,
        m.set_fps(fps).state != AnimationState::Finished,
        m.set_loop_mode(mode).state != AnimationState::Finished,
        m.set_current_frame(i).state != AnimationState::Finished,
        m.play().state != AnimationState::Finished,
        m.toggle().state != AnimationState::Finished,
        m.step_forward().state != AnimationState::Finished,
        m.step_backward().state != AnimationState::Finished,
{
}

/// A step forward followed by a step backward returns to where it started,
/// from every frame but the last.
pub proof fn lemma_step_forward_then_backward(m: ControllerModel)
    requires
        m.wf(),
        m.current_frame + 1 < m.frame_count,
    ensures
        m.step_forward().step_backward() == m,
{
}

/// On the first frame a step backward changes nothing, and on the last frame
/// a step forward changes nothing; repeating either clamped step therefore
/// gives the same controller as taking it once.
pub proof fn lemma_step_clamped_at_boundary(m: ControllerModel)
    requires
        m.wf(),
    ensures
        m.current_frame == 0 ==> m.step_backward() == m,
        m.current_frame == m.last_index() ==> m.step_forward() == m,
        m.current_frame == 0 ==> m.step_backward().step_backward() == m.step_backward(),
        m.current_frame == m.last_index() ==> m.step_forward().step_forward()
            == m.step_forward(),
{
}

/// A looping controller that is playing stays playing, and after `n` ticks
/// shows frame `(current_frame + n) % frame_count`: it walks through every
/// index and starts again at 0.
pub proof fn lemma_loop_ticks_cycle(m: ControllerModel, n: nat)
    requires
        m.wf(),
        m.frame_count > 0,
        m.state == AnimationState::Playing,
        m.loop_mode == LoopMode::Loop,
    ensures
        m.ticks(n) == (ControllerModel {
            current_frame: ((m.current_frame + n) % m.frame_count) as nat,
            ..m
        }),
    decreases n,
{
    if n == 0 {
        vstd::arithmetic::div_mod::lemma_small_mod(m.current_frame, m.frame_count);
    } else {
        lemma_loop_ticks_cycle(m, (n - 1) as nat);
        lemma_mod_successor(m.current_frame + n - 1, m.frame_count as int);
    }
}

/// The remainder of a successor: one more, or back to 0 at the divisor.
proof fn lemma_mod_successor(x: int, k: int)
    requires
        0 <= x,
        0 < k,
    ensures
        (x + 1) % k == if x % k + 1 < k {
            x % k + 1
        } else {
            0
        },
{
    vstd::arithmetic::div_mod::lemma_fundamental_div_mod(x, k);
    vstd::arithmetic::div_mod::lemma_mod_pos_bound(x, k);
    if x % k + 1 < k {
        vstd::arithmetic::div_mod::lemma_fundamental_div_mod_converse(
            x + 1,
            k,
            x / k,
            x % k + 1,
        );
    } else {
        assert(k * (x / k + 1) == k * (x / k) + k) by (nonlinear_arith);
        vstd::arithmetic::div_mod::lemma_fundamental_div_mod_converse(x + 1, k, x / k + 1, 0);
    }
}

/// A controller playing in `LoopMode::Once` advances one frame per tick up
/// to the last frame; the tick after that finishes playback on the last
/// frame, and there it stays.
pub proof fn lemma_once_ticks_finish(m: ControllerModel, n: nat)
    requires
        m.wf(),
        m.frame_count > 0,
        m.state == AnimationState::Playing,
        m.loop_mode == LoopMode::Once,
    ensures
        m.current_frame + n < m.frame_count ==> m.ticks(n) == (ControllerModel {
            current_frame: m.current_frame + n,
            ..m
        }),
        m.current_frame + n >= m.frame_count ==> m.ticks(n) == (ControllerModel {
            current_frame: m.last_index(),
            state: AnimationState::Finished,
            ..m
        }),
    decreases n,
{
    if n > 0 {
        lemma_once_ticks_finish(m, (n - 1) as nat);
    }
}

/// A tick changes nothing unless the controller is playing; in particular a
/// finished controller keeps its frame.
pub proof fn lemma_tick_idle_unless_playing(m: ControllerModel, n: nat)
    requires
        m.state != AnimationState::Playing,
    ensures
        m.tick() == m,
        m.ticks(n) == m,
    decreases n,
{
    if n > 0 {
        lemma_tick_idle_unless_playing(m, (n - 1) as nat);
    }
}

/// The rate never drops below 1: a request for 0 frames per second gives 1.
pub proof fn lemma_fps_floor(m: ControllerModel, fps: nat)
    ensures
        m.set_fps(0).fps == 1,
        m.set_fps(fps).fps >= 1,
        ControllerModel::initial(0).fps == 1,
        fps >= 1 ==> m.set_fps(fps).fps == fps,
{
}

} // verus!
