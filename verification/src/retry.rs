//! When the process around the client dials again.
//!
//! Every attempt makes a fresh control connection and a fresh client. A
//! handshake that succeeds fills the budget again.

use crate::net::error::Error;
use vstd::prelude::*;

verus! {

/// Number of attempts in a row that may fail to shake hands.
pub const MAX_ATTEMPTS: u32 = 5;

/// What to do when a client has returned.
#[derive(Clone, Copy, Debug, PartialEq, Eq, Hash, Structural)]
pub enum Verdict {
    /// The client shut down gracefully: leave with success.
    Exit,
    /// The control connection died: dial again, if the budget allows.
    Reconnect,
    /// The failure is fatal: leave with it.
    Abort(Error),
}

/// The verdict on an outcome: success ends the process, a reconnectable
/// failure asks for a new connection, every other failure is fatal.
pub open spec fn verdict_on(outcome: Result<(), Error>) -> Verdict {
    match outcome {
        Ok(()) => Verdict::Exit,
        Err(e) => if e.reconnectable() {
            Verdict::Reconnect
        } else {
            Verdict::Abort(e)
        },
    }
}

/// The attempts that are left before the process gives up.
#[derive(Clone, Copy, Debug, PartialEq, Eq)]
pub struct RetryBudget {
    left: u32,
}

impl View for RetryBudget {
    type V = nat;

    closed spec fn view(&self) -> nat {
        self.left as nat
    }
}

impl RetryBudget {
    /// A full budget.
    pub fn new() -> (budget: RetryBudget)
        ensures
            budget@ == MAX_ATTEMPTS,
    {
        RetryBudget { left: MAX_ATTEMPTS }
    }

    /// Number of attempts that are left.
    pub fn left(&self) -> (n: u32)
        ensures
            n == self@,
    {
        self.left
    }

    /// Asks for one more attempt. Where one is left it is taken; where none
    /// is, the process has to give up.
    pub fn next_attempt(&mut self) -> (granted: bool)
        ensures
            granted == (old(self)@ > 0),
            final(self)@ == after_attempts(old(self)@, 1),
    {
        if self.left == 0 {
            false
        } else {
            self.left = self.left - 1;
            true
        }
    }

    /// The handshake succeeded: the budget is full again.
    pub fn handshake_succeeded(&mut self)
        ensures
            final(self)@ == MAX_ATTEMPTS,
    {
        self.left = MAX_ATTEMPTS;
    }

    /// A client has returned: fills the budget where its connection was
    /// established, and says what to do about its outcome.
    pub fn after_client(&mut self, established: bool, outcome: Result<(), Error>) -> (verdict:
        Verdict)
        ensures
            verdict == verdict_on(outcome),
            final(self)@ == if established {
                MAX_ATTEMPTS as nat
            } else {
                old(self)@
            },
    {
        if established {
            self.handshake_succeeded();
        }
        RetryBudget::decide(outcome)
    }

    /// What to do after a client returned with `outcome`.
    pub fn decide(outcome: Result<(), Error>) -> (verdict: Verdict)
        ensures
            verdict == verdict_on(outcome),
    {
        match outcome {
            Ok(()) => Verdict::Exit,
            Err(e) => if e.is_reconnectable() {
                Verdict::Reconnect
            } else {
                Verdict::Abort(e)
            },
        }
    }
}

/// What is left of a budget after `n` attempts were asked for.
pub open spec fn after_attempts(budget: nat, n: nat) -> nat {
    if n <= budget {
        (budget - n) as nat
    } else {
        0
    }
}

/// Asking `n` times and then `m` times is asking `n + m` times.
pub proof fn lemma_attempts_add_up(budget: nat, n: nat, m: nat)
    ensures
        after_attempts(after_attempts(budget, n), m) == after_attempts(budget, n + m),
{
}

/// Of the attempts asked for in a row on a full budget, the first
/// `MAX_ATTEMPTS` are granted and no other: the attempt after `n` earlier
/// ones is granted exactly where `n < MAX_ATTEMPTS`.
pub proof fn lemma_attempts_are_bounded(n: nat)
    ensures
        after_attempts(MAX_ATTEMPTS as nat, n) > 0 <==> n < MAX_ATTEMPTS,
{
}

} // verus!
