//! The supervisor of the external streaming process: a state machine that
//! owns at most one child at a time and is fed the events the surrounding
//! runtime observes on it (launch result, exit, signal outcome).

use vstd::prelude::*;
use crate::config::{Config, spec_command, spec_ip_configured, spec_test_tone_command};
use crate::text::str_views;

verus! {

/// The lifecycle state of the supervised streaming process.
#[derive(Clone, Copy, Debug, PartialEq, Eq, Structural)]
pub enum SupervisorState {
    /// No child process is owned.
    Idle,
    /// An invocation was built and its launch was requested.
    Starting,
    /// A launched child process is owned.
    Running,
}

/// What a non-blocking check of the child reports when it has ended.
#[derive(Clone, Copy, Debug, PartialEq, Eq, Structural)]
pub enum ProcessExit {
    /// The child ended with a success status.
    Normal,
    /// The child ended with a failure status or was killed from outside.
    Abnormal,
}

/// The liveness reported by one poll.
#[derive(Clone, Copy, Debug, PartialEq, Eq, Structural)]
pub enum LivenessStatus {
    /// No child is owned; there is nothing to watch.
    Idle,
    /// The owned child is still running.
    StillRunning,
    /// The owned child ended on its own with a success status.
    ExitedNormally,
    /// The owned child ended on its own abnormally.
    ExitedAbnormally,
}

/// How the runtime's attempt to signal and reap the child ended.
#[derive(Clone, Copy, Debug, PartialEq, Eq, Structural)]
pub enum SignalOutcome {
    /// The termination signal was delivered and the child was reaped.
    Delivered,
    /// The child was already gone when the signal was sent.
    AlreadyGone,
    /// Signalling a still-alive child failed.
    Failed,
}

/// Why a start request was refused.
#[derive(Clone, Copy, Debug, PartialEq, Eq, Structural)]
pub enum StartError {
    /// A child is already owned; a second launch is a caller error.
    AlreadyActive,
    /// No destination host is configured.
    NotConfigured,
}

/// Why a stop request reported failure.
#[derive(Clone, Copy, Debug, PartialEq, Eq, Structural)]
pub enum StopError {
    /// Signalling a still-alive child failed for a reason other than the
    /// child being already gone.
    SignalFailed,
}

/// Owns the lifecycle of at most one streaming process at a time. The
/// runtime around it launches, signals and observes the actual child and
/// reports every event here; the supervisor decides what each event means
/// and never leaves a state other than idle after an exit or a stop.
pub struct StreamSupervisor {
    state: SupervisorState,
}

impl View for StreamSupervisor {
    type V = SupervisorState;

    closed spec fn view(&self) -> SupervisorState {
        self.state
    }
}

impl StreamSupervisor {
    /// A supervisor that owns nothing.
    pub fn new() -> (s: Self)
        ensures
            s@ == SupervisorState::Idle,
    {
        StreamSupervisor { state: SupervisorState::Idle }
    }

    /// The current lifecycle state.
    pub fn state(&self) -> (r: SupervisorState)
        ensures
            r == self@,
    {
        self.state
    }

    /// Requests a start. With the supervisor idle and a destination
    /// configured this yields the argument vector to launch and moves to
    /// `Starting`; in any other case it refuses and changes nothing, so a
    /// start while a child is owned has no side effect.
    pub fn begin_start(&mut self, config: &Config, source_name: &str) -> (r: Result<
        Vec<String>,
        StartError,
    >)
        ensures
            old(self)@ != SupervisorState::Idle ==> r == Err::<Vec<String>, StartError>(
                StartError::AlreadyActive,
            ) && final(self)@ == old(self)@,
            old(self)@ == SupervisorState::Idle && !spec_ip_configured(config@) ==> r == Err::<
                Vec<String>,
                StartError,
            >(StartError::NotConfigured) && final(self)@ == old(self)@,
            old(self)@ == SupervisorState::Idle && spec_ip_configured(config@) ==> ({
                &&& final(self)@ == SupervisorState::Starting
                &&& r matches Ok(v) && str_views(v@) == spec_command(config@, source_name@)
            }),
    {
        match self.state {
            SupervisorState::Idle => {
                if !config.is_ip_configured() {
                    Err(StartError::NotConfigured)
                } else {
                    self.state = SupervisorState::Starting;
                    Ok(config.build_ffmpeg_command(source_name))
                }
            },
            _ => Err(StartError::AlreadyActive),
        }
    }

    /// Reports how the requested launch went: on success the supervisor
    /// owns the child and runs; on failure it returns to idle.
    pub fn confirm_start(&mut self, launched: bool)
        requires
            old(self)@ == SupervisorState::Starting,
        ensures
            final(self)@ == (if launched {
                SupervisorState::Running
            } else {
                SupervisorState::Idle
            }),
    {
        if launched {
            self.state = SupervisorState::Running;
        } else {
            self.state = SupervisorState::Idle;
        }
    }

    /// One non-blocking poll, fed with what the runtime observed of the
    /// owned child: `None` while it still runs, or its exit kind. On either
    /// exit the supervisor releases the child and is idle again. Without an
    /// owned child the poll reports idle and changes nothing.
    pub fn poll(&mut self, observed: Option<ProcessExit>) -> (r: LivenessStatus)
        ensures
            old(self)@ != SupervisorState::Running ==> r == LivenessStatus::Idle && final(self)@
                == old(self)@,
            old(self)@ == SupervisorState::Running && observed is None ==> r
                == LivenessStatus::StillRunning && final(self)@ == SupervisorState::Running,
            old(self)@ == SupervisorState::Running && observed == Some(ProcessExit::Normal) ==> r
                == LivenessStatus::ExitedNormally && final(self)@ == SupervisorState::Idle,
            old(self)@ == SupervisorState::Running && observed == Some(ProcessExit::Abnormal) ==> r
                == LivenessStatus::ExitedAbnormally && final(self)@ == SupervisorState::Idle,
    {
        match self.state {
            SupervisorState::Running => {
                match observed {
                    None => LivenessStatus::StillRunning,
                    Some(ProcessExit::Normal) => {
                        self.state = SupervisorState::Idle;
                        LivenessStatus::ExitedNormally
                    },
                    Some(ProcessExit::Abnormal) => {
                        self.state = SupervisorState::Idle;
                        LivenessStatus::ExitedAbnormally
                    },
                }
            },
            _ => LivenessStatus::Idle,
        }
    }

    /// Ends the stream. After a stop the supervisor is idle whatever
    /// happened, so a race between a natural exit and an explicit stop can
    /// never strand it outside idle; failure is reported only when
    /// signalling a still-alive child failed. A stop without an owned child
    /// — including one whose exit was already detected — is a successful
    /// no-op.
    pub fn stop(&mut self, outcome: SignalOutcome) -> (r: Result<(), StopError>)
        ensures
            final(self)@ == SupervisorState::Idle,
            old(self)@ == SupervisorState::Running ==> (r is Err <==> outcome
                == SignalOutcome::Failed),
            old(self)@ != SupervisorState::Running ==> r is Ok,
    {
        let was_running = match self.state {
            SupervisorState::Running => true,
            _ => false,
        };
        self.state = SupervisorState::Idle;
        if was_running {
            match outcome {
                SignalOutcome::Failed => Err(StopError::SignalFailed),
                _ => Ok(()),
            }
        } else {
            Ok(())
        }
    }

    /// Builds the fire-and-forget test-tone invocation for the configured
    /// destination. It never touches the owned child: the runtime launches
    /// it as an independent short-lived process.
    pub fn test_tone_command(&self, config: &Config) -> (r: Vec<String>)
        ensures
            str_views(r@) == spec_test_tone_command(config@),
    {
        config.build_test_tone_command()
    }
}

} // verus!
