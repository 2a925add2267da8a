//! The sandbox: what a guest is started with, what it leaves behind, and
//! what of that is the outcome of the run.
//!
//! Every run has a guest of its own. The guest gets three pipes and nothing
//! else: its standard input holds the source text, its standard output and
//! standard error start out empty. It has no files, no network and no
//! environment.

use vstd::prelude::*;
use crate::ext::executor::{Outcome, OutcomeView};

verus! {

/// What a guest is started with.
#[derive(Debug, Clone, PartialEq, Eq)]
pub struct GuestSetup {
    /// What the guest reads from its standard input.
    pub stdin: Vec<u8>,
    /// What its standard output holds at the start.
    pub stdout: Vec<u8>,
    /// What its standard error holds at the start.
    pub stderr: Vec<u8>,
    /// Whether the guest may reach files.
    pub filesystem: bool,
    /// Whether the guest may reach the network.
    pub network: bool,
    /// Whether the guest sees the worker's environment.
    pub environment: bool,
}

/// How a sandboxed guest exited.
#[derive(Debug, Clone, Copy, PartialEq, Eq, Structural)]
pub enum GuestExit {
    /// The guest ran to its end and reported no failure.
    Clean,
    /// The guest trapped, or reported a failure.
    Failed,
}

/// What a sandboxed guest left behind.
#[derive(Debug, Clone, PartialEq, Eq)]
pub struct GuestRun {
    pub exit: GuestExit,
    /// What the guest wrote to its standard output.
    pub stdout: Vec<u8>,
    /// What the guest wrote to its standard error.
    pub stderr: Vec<u8>,
}

/// What a guest is started with to run `source`: the source on its
/// standard input, empty output pipes, and no other capability.
pub fn guest_setup(source: Vec<u8>) -> (setup: GuestSetup)
    ensures
        setup.stdin@ == source@,
        setup.stdout@ == Seq::<u8>::empty(),
        setup.stderr@ == Seq::<u8>::empty(),
        !setup.filesystem,
        !setup.network,
        !setup.environment,
{
    GuestSetup {
        stdin: source,
        stdout: Vec::new(),
        stderr: Vec::new(),
        filesystem: false,
        network: false,
        environment: false,
    }
}

/// The outcome of a run in the sandbox. A guest that exited cleanly gives
/// its standard output, one that failed gives its standard error, and both
/// count as output. Where no guest could be started, the reason is the
/// diagnostic.
pub fn sandbox_outcome(run: Result<GuestRun, String>) -> (outcome: Outcome)
    ensures
        outcome@ == match run {
            Ok(guest) => match guest.exit {
                GuestExit::Clean => OutcomeView::Success(guest.stdout@),
                GuestExit::Failed => OutcomeView::Success(guest.stderr@),
            },
            Err(message) => OutcomeView::Failure(message@),
        },
{
    match run {
        Ok(guest) => match guest.exit {
            GuestExit::Clean => Outcome::Success(guest.stdout),
            GuestExit::Failed => Outcome::Success(guest.stderr),
        },
        Err(message) => Outcome::Failure(message),
    }
}

} // verus!
