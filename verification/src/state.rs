//! The lifecycle state machine for a managed download.
//!
//! States are protocol-neutral and stored as their text form (`as_str`);
//! `parse` reads that form back, so a stored state survives process
//! boundaries.

use vstd::prelude::*;

use crate::error::Error;
use crate::text::{push_str, str_equal};

verus! {

/// The lifecycle state of a managed download.
#[derive(Debug, Clone, Copy, PartialEq, Eq, Hash, Structural)]
pub enum DownloadState {
    /// Accepted by the manager but not yet handed to a backend.
    Queued,
    /// A backend has been asked to begin; no bytes have arrived yet.
    Starting,
    /// Bytes are actively being transferred.
    Downloading,
    /// The running transfer was stopped by the user and can be resumed.
    Paused,
    /// The transfer finished and the file is on disk.
    Completed,
    /// The transfer ended in an error.
    Failed,
    /// The user cancelled the transfer; it will not be retried.
    Cancelled,
}

/// The legal successors of each state, in the documented order.
pub open spec fn successors(s: DownloadState) -> Seq<DownloadState> {
    match s {
        DownloadState::Queued => seq![
            DownloadState::Starting,
            DownloadState::Failed,
            DownloadState::Cancelled,
        ],
        DownloadState::Starting => seq![
            DownloadState::Downloading,
            DownloadState::Completed,
            DownloadState::Paused,
            DownloadState::Failed,
            DownloadState::Cancelled,
        ],
        DownloadState::Downloading => seq![
            DownloadState::Paused,
            DownloadState::Completed,
            DownloadState::Failed,
            DownloadState::Cancelled,
        ],
        DownloadState::Paused => seq![DownloadState::Queued, DownloadState::Cancelled],
        DownloadState::Completed => seq![],
        DownloadState::Failed => seq![DownloadState::Queued, DownloadState::Cancelled],
        DownloadState::Cancelled => seq![],
    }
}

/// `true` when a download may move from `from` to `to`.
pub open spec fn allows(from: DownloadState, to: DownloadState) -> bool {
    match from {
        DownloadState::Queued => to == DownloadState::Starting || to == DownloadState::Failed || to
            == DownloadState::Cancelled,
        DownloadState::Starting => to != DownloadState::Queued && to != DownloadState::Starting,
        DownloadState::Downloading => to == DownloadState::Paused || to == DownloadState::Completed
            || to == DownloadState::Failed || to == DownloadState::Cancelled,
        DownloadState::Paused => to == DownloadState::Queued || to == DownloadState::Cancelled,
        DownloadState::Completed => false,
        DownloadState::Failed => to == DownloadState::Queued || to == DownloadState::Cancelled,
        DownloadState::Cancelled => false,
    }
}

/// A state with no successor.
pub open spec fn is_terminal(s: DownloadState) -> bool {
    s == DownloadState::Completed || s == DownloadState::Cancelled
}

/// The stored text form of a state.
pub open spec fn state_text(s: DownloadState) -> Seq<char> {
    match s {
        DownloadState::Queued => "queued"@,
        DownloadState::Starting => "starting"@,
        DownloadState::Downloading => "downloading"@,
        DownloadState::Paused => "paused"@,
        DownloadState::Completed => "completed"@,
        DownloadState::Failed => "failed"@,
        DownloadState::Cancelled => "cancelled"@,
    }
}

/// The state whose text form is `t`, if any.
pub open spec fn state_from_text(t: Seq<char>) -> Option<DownloadState> {
    if t == "queued"@ {
        Some(DownloadState::Queued)
    } else if t == "starting"@ {
        Some(DownloadState::Starting)
    } else if t == "downloading"@ {
        Some(DownloadState::Downloading)
    } else if t == "paused"@ {
        Some(DownloadState::Paused)
    } else if t == "completed"@ {
        Some(DownloadState::Completed)
    } else if t == "failed"@ {
        Some(DownloadState::Failed)
    } else if t == "cancelled"@ {
        Some(DownloadState::Cancelled)
    } else {
        None
    }
}

/// The message of the error returned for an illegal transition.
pub open spec fn transition_message(from: DownloadState, to: DownloadState) -> Seq<char> {
    "invalid download state transition: "@ + state_text(from) + " -> "@ + state_text(to)
}

impl DownloadState {
    /// Returns the states a download in `self` may legally move to.
    pub fn next_states(self) -> (r: Vec<DownloadState>)
        ensures
            r@ == successors(self),
    {
        match self {
            DownloadState::Queued => vec![
                DownloadState::Starting,
                DownloadState::Failed,
                DownloadState::Cancelled,
            ],
            DownloadState::Starting => vec![
                DownloadState::Downloading,
                DownloadState::Completed,
                DownloadState::Paused,
                DownloadState::Failed,
                DownloadState::Cancelled,
            ],
            DownloadState::Downloading => vec![
                DownloadState::Paused,
                DownloadState::Completed,
                DownloadState::Failed,
                DownloadState::Cancelled,
            ],
            DownloadState::Paused => vec![DownloadState::Queued, DownloadState::Cancelled],
            DownloadState::Completed => vec![],
            DownloadState::Failed => vec![DownloadState::Queued, DownloadState::Cancelled],
            DownloadState::Cancelled => vec![],
        }
    }

    /// Returns `true` if a transition from `self` to `next` is legal.
    pub fn is_valid_transition(self, next: DownloadState) -> (r: bool)
        ensures
            r == allows(self, next),
            r == successors(self).contains(next),
    {
        let succ = self.next_states();
        let n = succ.len();
        proof {
            lemma_successors_match_allows(self, next);
        }
        for i in 0..n
            invariant
                n == succ@.len(),
                succ@ == successors(self),
                forall|j: int| 0 <= j < i ==> succ@[j] != next,
        {
            if succ[i] == next {
                assert(succ@[i as int] == next);
                return true;
            }
        }
        false
    }

    /// Validates and applies a transition, returning the new state.
    ///
    /// An illegal transition is refused with [`Error::Internal`].
    pub fn transition(self, next: DownloadState) -> (r: Result<DownloadState, Error>)
        ensures
            allows(self, next) ==> r == Ok::<DownloadState, Error>(next),
            !allows(self, next) ==> (r matches Err(Error::Internal(m)) && m@ == transition_message(
                self,
                next,
            )),
    {
        if self.is_valid_transition(next) {
            Ok(next)
        } else {
            let mut m = String::new();
            push_str(&mut m, "invalid download state transition: ");
            push_str(&mut m, self.as_str());
            push_str(&mut m, " -> ");
            push_str(&mut m, next.as_str());
            Err(Error::Internal(m))
        }
    }

    /// The stored text form of the state (`queued`, `starting`, ...).
    pub fn as_str(self) -> (r: &'static str)
        ensures
            r@ == state_text(self),
    {
        match self {
            DownloadState::Queued => "queued",
            DownloadState::Starting => "starting",
            DownloadState::Downloading => "downloading",
            DownloadState::Paused => "paused",
            DownloadState::Completed => "completed",
            DownloadState::Failed => "failed",
            DownloadState::Cancelled => "cancelled",
        }
    }

    /// Parses a state from its stored text form.
    ///
    /// An unknown text is refused with [`Error::Internal`].
    pub fn parse(s: &str) -> (r: Result<DownloadState, Error>)
        ensures
            state_from_text(s@) matches Some(st) ==> r == Ok::<DownloadState, Error>(st),
            state_from_text(s@) is None ==> (r matches Err(Error::Internal(m)) && m@
                == "unknown download state: "@ + s@),
    {
        if str_equal(s, "queued") {
            Ok(DownloadState::Queued)
        } else if str_equal(s, "starting") {
            Ok(DownloadState::Starting)
        } else if str_equal(s, "downloading") {
            Ok(DownloadState::Downloading)
        } else if str_equal(s, "paused") {
            Ok(DownloadState::Paused)
        } else if str_equal(s, "completed") {
            Ok(DownloadState::Completed)
        } else if str_equal(s, "failed") {
            Ok(DownloadState::Failed)
        } else if str_equal(s, "cancelled") {
            Ok(DownloadState::Cancelled)
        } else {
            let mut m = String::new();
            push_str(&mut m, "unknown download state: ");
            push_str(&mut m, s);
            Err(Error::Internal(m))
        }
    }
}

/// The explicit successor lists and the transition relation agree.
pub proof fn lemma_successors_match_allows(from: DownloadState, to: DownloadState)
    ensures
        successors(from).contains(to) == allows(from, to),
{
    let s = successors(from);
    if allows(from, to) {
        match from {
            DownloadState::Queued => {
                if to == DownloadState::Starting { assert(s[0] == to); }
                else if to == DownloadState::Failed { assert(s[1] == to); }
                else { assert(s[2] == to); }
            },
            DownloadState::Starting => {
                if to == DownloadState::Downloading { assert(s[0] == to); }
                else if to == DownloadState::Completed { assert(s[1] == to); }
                else if to == DownloadState::Paused { assert(s[2] == to); }
                else if to == DownloadState::Failed { assert(s[3] == to); }
                else { assert(s[4] == to); }
            },
            DownloadState::Downloading => {
                if to == DownloadState::Paused { assert(s[0] == to); }
                else if to == DownloadState::Completed { assert(s[1] == to); }
                else if to == DownloadState::Failed { assert(s[2] == to); }
                else { assert(s[3] == to); }
            },
            DownloadState::Paused | DownloadState::Failed => {
                if to == DownloadState::Queued { assert(s[0] == to); }
                else { assert(s[1] == to); }
            },
            _ => {},
        }
    }
}

/// A transition succeeds exactly when it is listed among the successors, and
/// then yields the requested state; the two terminal states have none.
pub proof fn law_transition_table(from: DownloadState, to: DownloadState)
    ensures
        allows(from, to) <==> successors(from).contains(to),
        is_terminal(from) <==> successors(from).len() == 0,
        is_terminal(from) ==> !allows(from, to),
{
    lemma_successors_match_allows(from, to);
}

/// Every state's text form parses back to that state, and no two states
/// share a text form.
pub proof fn law_text_round_trip(s: DownloadState, t: DownloadState)
    ensures
        state_from_text(state_text(s)) == Some(s),
        state_text(s) == state_text(t) ==> s == t,
{
    reveal_strlit("queued");
    reveal_strlit("starting");
    reveal_strlit("downloading");
    reveal_strlit("paused");
    reveal_strlit("completed");
    reveal_strlit("failed");
    reveal_strlit("cancelled");
    assert("queued"@.len() == 6 && "paused"@.len() == 6 && "failed"@.len() == 6);
    assert("starting"@.len() == 8 && "downloading"@.len() == 11);
    assert("completed"@.len() == 9 && "cancelled"@.len() == 9);
    assert("queued"@[0] != "paused"@[0] && "queued"@[0] != "failed"@[0] && "paused"@[0]
        != "failed"@[0]);
    assert("completed"@[1] != "cancelled"@[1]);
}

} // verus!
