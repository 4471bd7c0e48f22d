//! The reindex command channel's decisions. The update loop blocks for one
//! command, drains whatever else is pending, and acts once: bursts of
//! reindex requests coalesce into a single scan, and an exit request, at
//! the head or anywhere in the drain, terminates the loop. The channel
//! itself, and the worker that blocks on it, live outside the library;
//! they hand the drained batch to `coalesce`.

use vstd::prelude::*;

verus! {

use crate::db::Db;

/// What a producer may ask of the update loop.
#[derive(Debug, PartialEq, Eq, Structural, Clone, Copy)]
pub enum Command {
    REINDEX,
    EXIT,
}

/// What the update loop does after one drain.
#[derive(Debug, PartialEq, Eq, Structural, Clone, Copy)]
pub enum LoopAction {
    Scan,
    Terminate,
}

/// The decision one blocking receive and one drain lead to.
pub open spec fn coalesce_spec(head: Command, pending: Seq<Command>, disconnected: bool)
    -> LoopAction {
    if head is EXIT || disconnected || (exists|i: int|
        0 <= i < pending.len() && pending[i] is EXIT) {
        LoopAction::Terminate
    } else {
        LoopAction::Scan
    }
}

/// Decides what one wake-up of the update loop does: `head` is the command
/// the blocking receive yielded, `pending` the commands a non-blocking
/// drain found after it, and `disconnected` whether the drain saw the
/// channel close. Any exit, or a closed channel, terminates; anything else
/// is one scan, however many reindex requests were drained.
pub fn coalesce(head: &Command, pending: &Vec<Command>, disconnected: bool) -> (r: LoopAction)
    ensures
        r == coalesce_spec(*head, pending@, disconnected),
{
    if matches!(head, Command::EXIT) || disconnected {
        return LoopAction::Terminate;
    }
    let n = pending.len();
    let mut i: usize = 0;
    #[verifier::loop_isolation(false)]
    while i < n
        invariant
            i <= n,
            forall|k: int| 0 <= k < i ==> !(pending@[k] is EXIT),
        decreases n - i,
    {
        if matches!(&pending[i], Command::EXIT) {
            return LoopAction::Terminate;
        }
        i = i + 1;
    }
    LoopAction::Scan
}

/// Coalescing: however many reindex requests pile up while one scan is in
/// flight, draining them yields exactly one further scan, never more.
pub proof fn lemma_coalescing(head: Command, pending: Seq<Command>)
    requires
        head is REINDEX,
        forall|i: int| 0 <= i < pending.len() ==> (#[trigger] pending[i]) is REINDEX,
    ensures
        coalesce_spec(head, pending, false) == LoopAction::Scan,
{
}

/// How long the periodic self-trigger sleeps between reindex requests: the
/// stored setting, or half an hour when none can be read.
pub fn sleep_duration(db: &Db) -> (r: i32)
    ensures
        r == match db@.settings {
            Some(s) => s.index_sleep_duration_seconds,
            None => 1800,
        },
{
    match db.misc_settings() {
        Some(m) => m.index_sleep_duration_seconds,
        None => 1800,
    }
}

} // verus!
