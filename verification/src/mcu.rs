//! The life cycle of the simulated microcontroller.

use vstd::prelude::*;

verus! {

/// What the reset signals of a microcontroller have amounted to.
#[derive(Debug, PartialEq, Eq, Structural)]
pub struct McuState {
    /// Whether the very first reset, the one at power-on, has happened.
    pub powered_on: bool,
    /// The number of resets since power-on.
    pub reset_count: u64,
}

impl Default for McuState {
    fn default() -> (state: McuState)
        ensures
            state == (McuState { powered_on: false, reset_count: 0 }),
    {
        McuState { powered_on: false, reset_count: 0 }
    }
}

impl McuState {
    /// The state after one more reset signal: the first one powers the
    /// microcontroller on, each later one is counted.
    pub open spec fn after_reset(self) -> McuState {
        if self.powered_on {
            McuState { powered_on: true, reset_count: (self.reset_count + 1) as u64 }
        } else {
            McuState { powered_on: true, reset_count: self.reset_count }
        }
    }

    /// Whether the microcontroller has been reset after it was first started.
    pub fn has_reset(&self) -> (reset: bool)
        ensures
            reset == (self.reset_count > 0),
    {
        self.reset_count > 0
    }

    /// Takes note of a reset signal.
    pub fn on_reset(&mut self)
        requires
            old(self).powered_on ==> old(self).reset_count < u64::MAX,
        ensures
            *final(self) == old(self).after_reset(),
    {
        if !self.powered_on {
            self.powered_on = true;
        } else {
            self.reset_count += 1;
        }
    }
}

/// The state of a simulated AVR, as the simulator numbers it.
#[derive(Copy, Clone, Debug, PartialEq, Eq, Structural)]
pub enum State {
    /// Before initialization is finished.
    Limbo,
    /// All is stopped, timers included.
    Stopped,
    /// Running freely.
    Running,
    /// Sleeping until an interrupt.
    Sleeping,
    /// Run one instruction.
    Step,
    /// One instruction was run.
    StepDone,
    /// The simulation stopped gracefully.
    Done,
    /// The simulation crashed.
    Crashed,
}

/// What the run does after a cycle.
#[derive(Copy, Clone, Debug, PartialEq, Eq, Structural)]
pub enum Step {
    /// Run the next cycle.
    Continue,
    /// End the run: the simulation has stopped gracefully.
    Finish,
    /// Give the run up: the simulation has crashed.
    Crash,
}

impl State {
    /// The number that the simulator gives the state.
    pub open spec fn code(self) -> int {
        match self {
            State::Limbo => 0,
            State::Stopped => 1,
            State::Running => 2,
            State::Sleeping => 3,
            State::Step => 4,
            State::StepDone => 5,
            State::Done => 6,
            State::Crashed => 7,
        }
    }

    /// Whether the simulation goes on in the state.
    pub open spec fn running(self) -> bool {
        !(self == State::Stopped || self == State::Done || self == State::Crashed)
    }

    /// Whether the simulation goes on in the state, whatever it is doing.
    pub fn is_running(&self) -> (running: bool)
        ensures
            running == self.running(),
    {
        match *self {
            State::Limbo => true,
            State::Stopped => false,
            State::Running => true,
            State::Sleeping => true,
            State::Step => true,
            State::StepDone => true,
            State::Done => false,
            State::Crashed => false,
        }
    }

    /// What the run does after a cycle that left the simulator in the
    /// state: it ends when the simulation is done, is given up when the
    /// simulation has crashed, and goes on in every other state, also while
    /// the simulation is stopped for a debugger.
    pub open spec fn next_step(self) -> Step {
        match self {
            State::Crashed => Step::Crash,
            State::Done => Step::Finish,
            _ => Step::Continue,
        }
    }

    /// What the run does after a cycle that left the simulator in the state.
    pub fn step(&self) -> (step: Step)
        ensures
            step == self.next_step(),
    {
        match *self {
            State::Running | State::Stopped => Step::Continue,
            State::Crashed => Step::Crash,
            state => {
                if !state.is_running() {
                    Step::Finish
                } else {
                    Step::Continue
                }
            },
        }
    }

    /// The state that the simulator numbers `v`.
    pub fn from(v: i32) -> (state: State)
        requires
            0 <= v <= 7,
        ensures
            state.code() == v,
    {
        match v {
            0 => State::Limbo,
            1 => State::Stopped,
            2 => State::Running,
            3 => State::Sleeping,
            4 => State::Step,
            5 => State::StepDone,
            6 => State::Done,
            _ => State::Crashed,
        }
    }
}

} // verus!
