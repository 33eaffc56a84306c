//! What a pipeline asks of the application that hosts it.
//!
//! The host owns the event channels and the scheduler. Registering a kind
//! of pipeline with it is a short list of steps for the host to perform.
//! Registering the same kind again asks for nothing: registration is
//! idempotent.

use vstd::prelude::*;

verus! {

/// One step that the host performs for a pipeline.
#[derive(Clone, Copy, PartialEq, Eq, Debug, Structural)]
pub enum HostAction {
    /// Make the channel of input events known.
    DeclareInputChannel,
    /// Make the channel of output events known.
    DeclareOutputChannel,
    /// Schedule the per-pass driver, to run only while input is pending.
    InstallGatedDriver,
}

/// The steps of a first registration, in order.
pub open spec fn registration_plan() -> Seq<HostAction> {
    seq![
        HostAction::DeclareInputChannel,
        HostAction::DeclareOutputChannel,
        HostAction::InstallGatedDriver,
    ]
}

/// Whether one kind of pipeline has been registered with the host.
pub struct Installation {
    installed: bool,
}

impl Installation {
    /// Whether the kind has been registered.
    pub closed spec fn is_installed(&self) -> bool {
        self.installed
    }

    /// The state of a kind that has not been registered.
    pub fn new() -> (r: Self)
        ensures
            !r.is_installed(),
    {
        Installation { installed: false }
    }

    /// Tells whether the kind has been registered.
    pub fn installed(&self) -> (r: bool)
        ensures
            r == self.is_installed(),
    {
        self.installed
    }

    /// Registers the kind and returns what the host has to do for it: the
    /// whole plan the first time, nothing from then on.
    pub fn install(&mut self) -> (actions: Vec<HostAction>)
        ensures
            final(self).is_installed(),
            actions@ == if old(self).is_installed() {
                Seq::<HostAction>::empty()
            } else {
                registration_plan()
            },
    {
        let mut actions: Vec<HostAction> = Vec::new();
        if !self.installed {
            actions.push(HostAction::DeclareInputChannel);
            actions.push(HostAction::DeclareOutputChannel);
            actions.push(HostAction::InstallGatedDriver);
            self.installed = true;
        }
        assert(actions@ =~= if old(self).is_installed() {
            Seq::<HostAction>::empty()
        } else {
            registration_plan()
        });
        actions
    }
}

} // verus!
