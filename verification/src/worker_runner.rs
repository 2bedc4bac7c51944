//! The lifecycle of a background worker: the run status that makes a second start and a
//! stop before any start no-ops, and the bookkeeping of the stop token and worker task
//! that the runtime holds.
use vstd::prelude::*;

verus! {

/// The run status of a worker runner.
#[allow(non_camel_case_types)]
#[derive(Debug, Clone, Copy, PartialEq, Eq, Structural)]
pub enum RunStatus {
    IDLE,
    ACTIVE,
}

/// The byte that stands for a run status: 0 for idle, 1 for active.
pub open spec fn run_status_code(status: RunStatus) -> u8 {
    match status {
        RunStatus::IDLE => 0,
        RunStatus::ACTIVE => 1,
    }
}

impl From<RunStatus> for u8 {
    fn from(status: RunStatus) -> (r: u8) {
        match status {
            RunStatus::IDLE => 0,
            RunStatus::ACTIVE => 1,
        }
    }
}

impl vstd::std_specs::convert::FromSpecImpl<RunStatus> for u8 {
    open spec fn obeys_from_spec() -> bool {
        true
    }

    open spec fn from_spec(v: RunStatus) -> u8 {
        run_status_code(v)
    }
}

/// The lifecycle state of a worker runner: the run status byte, whether a stop token was
/// handed out by a start, and whether the worker task is held.
pub struct WorkerRunner {
    run_status: u8,
    has_stop_token: bool,
    has_worker_task: bool,
}

/// The abstract state of a worker runner.
pub struct RunnerView {
    pub run_status: u8,
    pub has_stop_token: bool,
    pub has_worker_task: bool,
}

impl View for WorkerRunner {
    type V = RunnerView;

    closed spec fn view(&self) -> RunnerView {
        RunnerView {
            run_status: self.run_status,
            has_stop_token: self.has_stop_token,
            has_worker_task: self.has_worker_task,
        }
    }
}

impl WorkerRunner {
    /// An idle runner, with no stop token and no worker task.
    pub fn new() -> (r: Self)
        ensures
            r@ == (RunnerView {
                run_status: run_status_code(RunStatus::IDLE),
                has_stop_token: false,
                has_worker_task: false,
            }),
    {
        WorkerRunner { run_status: RunStatus::IDLE.into(), has_stop_token: false, has_worker_task: false }
    }

    /// The run status byte.
    pub fn get_run_status(&self) -> (r: u8)
        ensures
            r == self@.run_status,
    {
        self.run_status
    }

    /// Moves the run status from idle to active (`to_running`) or from active to idle, and
    /// says whether it moved: it does exactly when the status was the expected one.
    fn try_switch_run_status(&mut self, to_running: bool) -> (switched: bool)
        ensures
            ({
                let (expected, next) = if to_running {
                    (RunStatus::IDLE, RunStatus::ACTIVE)
                } else {
                    (RunStatus::ACTIVE, RunStatus::IDLE)
                };
                &&& switched == (old(self)@.run_status == run_status_code(expected))
                &&& final(self)@ == (RunnerView {
                    run_status: if switched { run_status_code(next) } else { old(self)@.run_status },
                    ..old(self)@
                })
            }),
    {
        let (expected_current_state, expected_new_state) = if to_running {
            (RunStatus::IDLE, RunStatus::ACTIVE)
        } else {
            (RunStatus::ACTIVE, RunStatus::IDLE)
        };
        let expected: u8 = expected_current_state.into();
        if self.run_status == expected {
            self.run_status = expected_new_state.into();
            true
        } else {
            false
        }
    }

    /// Decides a start: if the runner is idle it becomes active and holds a stop token,
    /// and the result says the worker is to be started; if it is already active nothing
    /// changes.
    pub fn start(&mut self) -> (r: bool)
        ensures
            r == (old(self)@.run_status == run_status_code(RunStatus::IDLE)),
            r ==> final(self)@ == (RunnerView {
                run_status: run_status_code(RunStatus::ACTIVE),
                has_stop_token: true,
                ..old(self)@
            }),
            !r ==> final(self)@ == old(self)@,
    {
        if !self.try_switch_run_status(true) {
            return false;
        }
        self.has_stop_token = true;
        true
    }

    /// Records that the worker's task runs and is held.
    pub fn worker_started(&mut self)
        ensures
            final(self)@ == (RunnerView { has_worker_task: true, ..old(self)@ }),
    {
        self.has_worker_task = true;
    }

    /// Decides a stop: takes the stop token. Without one the worker was never started and
    /// there is nothing to stop; the result says whether there was one.
    pub fn stop(&mut self) -> (r: bool)
        ensures
            r == old(self)@.has_stop_token,
            final(self)@ == (RunnerView { has_stop_token: false, ..old(self)@ }),
    {
        let had_token = self.has_stop_token;
        self.has_stop_token = false;
        had_token
    }

    /// Takes the worker task to await its end; the result says whether one was held.
    pub fn take_worker_task(&mut self) -> (r: bool)
        ensures
            r == old(self)@.has_worker_task,
            final(self)@ == (RunnerView { has_worker_task: false, ..old(self)@ }),
    {
        let had_task = self.has_worker_task;
        self.has_worker_task = false;
        had_task
    }

    /// Brings the runner back to its initial state: no task, no token, and idle.
    pub fn reset(&mut self)
        ensures
            final(self)@ == (RunnerView {
                run_status: if old(self)@.run_status == run_status_code(RunStatus::ACTIVE) {
                    run_status_code(RunStatus::IDLE)
                } else {
                    old(self)@.run_status
                },
                has_stop_token: false,
                has_worker_task: false,
            }),
    {
        self.has_worker_task = false;
        self.has_stop_token = false;
        self.try_switch_run_status(false);
    }
}

} // verus!
