//! The session lifecycle state machine: a session is started once, runs
//! its render loop, and is torn down so that the terminal device is
//! restored to its normal mode exactly once, however many teardown
//! requests race.
//!
//! The machine only decides; the caller owns the device and performs the
//! transitions it is told to: put the device into managed mode on a start,
//! restore it on a stop that reports a restore is due.

use vstd::prelude::*;

verus! {

/// Where a session stands in its life.
#[derive(Clone, Copy, PartialEq, Eq, Structural, Debug)]
pub enum SessionPhase {
    /// Created, render loop not yet started.
    Uninitialized,
    /// Render loop running, device in managed mode.
    Running,
    /// Torn down; a session is never restarted.
    Stopped,
}

/// The lifecycle state: the phase, whether the device currently sits in
/// managed (raw input, alternate screen, mouse capture) mode, and how many
/// times it has been restored to normal mode.
#[derive(Clone, Copy, PartialEq, Eq, Structural, Debug)]
#[verifier::ext_equal]
pub struct SessionState {
    pub phase: SessionPhase,
    pub device_managed: bool,
    pub restore_count: u32,
}

impl SessionState {
    /// The lifecycle invariant: the device is in managed mode exactly
    /// while the session runs, and it is restored at most once, and only
    /// by the teardown.
    pub open spec fn wf(self) -> bool {
        &&& (self.phase is Running <==> self.device_managed)
        &&& (self.phase is Stopped ==> self.restore_count <= 1)
        &&& (!(self.phase is Stopped) ==> self.restore_count == 0)
    }

    /// What one teardown request does: the session ends, and the device is
    /// restored now exactly when the session was running.
    pub open spec fn spec_stop(self) -> (SessionState, bool) {
        if self.phase is Running {
            (
                SessionState {
                    phase: SessionPhase::Stopped,
                    device_managed: false,
                    restore_count: (self.restore_count + 1) as u32,
                },
                true,
            )
        } else {
            (SessionState { phase: SessionPhase::Stopped, device_managed: false, ..self }, false)
        }
    }

    /// A session before anything happened: device in normal mode, never
    /// restored.
    pub fn new() -> (s: SessionState)
        ensures
            s.phase is Uninitialized,
            !s.device_managed,
            s.restore_count == 0,
            s.wf(),
    {
        SessionState {
            phase: SessionPhase::Uninitialized,
            device_managed: false,
            restore_count: 0,
        }
    }

    /// Starts the session: the caller has just put the device into managed
    /// mode and spawns the render loop.  A stopped session is never
    /// restarted; callers create a new one.
    pub fn start(&mut self)
        requires
            old(self).phase is Uninitialized,
            old(self).wf(),
        ensures
            final(self).phase is Running,
            final(self).device_managed,
            final(self).restore_count == old(self).restore_count,
            final(self).wf(),
    {
        self.phase = SessionPhase::Running;
        self.device_managed = true;
    }

    /// Tears the session down.  Returns whether the caller must restore
    /// the device now; any further stop finds the session already stopped
    /// and restores nothing.
    pub fn stop(&mut self) -> (restore_now: bool)
        requires
            old(self).wf(),
        ensures
            *final(self) == old(self).spec_stop().0,
            restore_now == old(self).spec_stop().1,
            final(self).wf(),
            !final(self).device_managed,
            final(self).restore_count <= 1,
    {
        let was_running = matches!(self.phase, SessionPhase::Running);
        self.phase = SessionPhase::Stopped;
        self.device_managed = false;
        if was_running {
            self.restore_count = self.restore_count + 1;
            return true;
        }
        false
    }
}

/// Teardown is idempotent: stopping an already-stopped session changes
/// nothing, asks for no second restore, and leaves the device out of
/// managed mode with at most one restore ever performed.
pub proof fn lemma_stop_idempotent(s: SessionState)
    ensures
        s.spec_stop().0.spec_stop().0 == s.spec_stop().0,
        s.spec_stop().0.spec_stop().1 == false,
        !s.spec_stop().0.device_managed,
        s.wf() ==> s.spec_stop().0.restore_count <= 1,
        s.wf() ==> s.spec_stop().0.wf(),
{
    assert(s.spec_stop().0.spec_stop().0 =~= s.spec_stop().0);
}

} // verus!
