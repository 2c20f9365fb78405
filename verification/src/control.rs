//! The signals by which a front end steers a run: cancel, pause and pace.

use vstd::prelude::*;

verus! {

/// The step delay, in milliseconds, with which every run begins.
pub const DEFAULT_DELAY: u16 = 500;

/// The step delay, in milliseconds, before an instruction that is let
/// through as a single step.
pub const SINGLE_STEP_DELAY: u16 = 10;

/// The largest slider position whose delay fits the delay's type.
pub const MAX_SLIDER: u16 = 6553;

/// The control state that the run and its controller share.
#[derive(Debug, Clone, Copy, PartialEq, Eq, Structural)]
pub struct ControlState {
    /// The run is to stop before its next instruction.
    pub cancel_requested: bool,
    /// The run is to wait before its next instruction.
    pub paused: bool,
    /// Milliseconds to sleep before each instruction.
    pub step_delay: u16,
    /// One instruction is to be let through although the run is paused.
    pub step_requested: bool,
}

/// What the thread that runs a program is to do next.
#[derive(Debug, Clone, Copy, PartialEq, Eq, Structural)]
pub enum Directive {
    /// Stop: the run has ended or was cancelled.
    Halt,
    /// Wait until the control state changes, then ask again.
    Park,
    /// Wait for one input value and hand it to the interpreter.
    Receive,
    /// Sleep this many milliseconds, then let the interpreter take a step.
    Step(u16),
}

/// The step delay, in milliseconds, for a position of the speed slider.
pub fn slider_delay(position: u16) -> (delay: u16)
    requires
        position <= MAX_SLIDER,
    ensures
        delay == position * 10,
{
    position * 10
}

impl ControlState {
    /// The state at the start of every run.
    pub open spec fn initial() -> ControlState {
        ControlState {
            cancel_requested: false,
            paused: false,
            step_delay: DEFAULT_DELAY,
            step_requested: false,
        }
    }

    /// The run is held: it is paused and no single step is asked for.
    pub open spec fn held(self) -> bool {
        self.paused && !self.step_requested
    }

    /// The delay before the next instruction: the minimal one for a single
    /// step, else the one that was set.
    pub open spec fn pace(self) -> u16 {
        if self.step_requested {
            SINGLE_STEP_DELAY
        } else {
            self.step_delay
        }
    }

    /// The state after an instruction was let through as a single step: the
    /// request is used up and the run is paused again.
    pub open spec fn step_taken(self) -> ControlState {
        ControlState { paused: true, step_requested: false, ..self }
    }

    /// A control state as every run starts with: not cancelled, not paused,
    /// at the default pace.
    pub fn new() -> (control: ControlState)
        ensures
            control == Self::initial(),
    {
        ControlState {
            cancel_requested: false,
            paused: false,
            step_delay: DEFAULT_DELAY,
            step_requested: false,
        }
    }

    /// Puts the state back to that of a fresh run.
    pub fn begin_run(&mut self)
        ensures
            *final(self) == Self::initial(),
    {
        self.cancel_requested = false;
        self.paused = false;
        self.step_delay = DEFAULT_DELAY;
        self.step_requested = false;
    }

    /// Asks the run to stop.  Nothing but a new run takes the request back.
    pub fn request_cancel(&mut self)
        ensures
            *final(self) == (ControlState { cancel_requested: true, ..*old(self) }),
    {
        self.cancel_requested = true;
    }

    /// Holds the run before its next instruction.  A single step that was
    /// asked for and not yet taken is dropped.
    pub fn pause(&mut self)
        ensures
            *final(self) == (ControlState { paused: true, step_requested: false, ..*old(self) }),
            final(self).held(),
    {
        self.paused = true;
        self.step_requested = false;
    }

    /// Lets a paused run go on.
    pub fn resume(&mut self)
        ensures
            *final(self) == (ControlState { paused: false, step_requested: false, ..*old(self) }),
            !final(self).held(),
    {
        self.paused = false;
        self.step_requested = false;
    }

    /// Pauses a run that is going, and lets a paused one go on.
    pub fn toggle_pause(&mut self)
        ensures
            *final(self) == (ControlState {
                paused: !old(self).paused,
                step_requested: false,
                ..*old(self)
            }),
    {
        self.paused = !self.paused;
        self.step_requested = false;
    }

    /// Sets the delay before each instruction, in milliseconds.
    pub fn set_speed(&mut self, step_delay_millis: u16)
        ensures
            *final(self) == (ControlState { step_delay: step_delay_millis, ..*old(self) }),
    {
        self.step_delay = step_delay_millis;
    }

    /// Asks for a single step: one instruction is let through, after the
    /// minimal delay, and then the run is paused.  A run that is going is
    /// paused in the same way, after its next instruction.
    pub fn step(&mut self)
        ensures
            *final(self) == (ControlState { paused: true, step_requested: true, ..*old(self) }),
            !final(self).held(),
            final(self).pace() == SINGLE_STEP_DELAY,
    {
        self.paused = true;
        self.step_requested = true;
    }

    /// Marks a single step as taken.
    pub fn take_step(&mut self)
        ensures
            *final(self) == old(self).step_taken(),
            final(self).held(),
    {
        self.paused = true;
        self.step_requested = false;
    }
}

} // verus!
