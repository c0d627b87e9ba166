//! Compaction of history: whether it runs, and how far.

use vstd::prelude::*;
use crate::state::ServerState;
use crate::types::{FastetcdLogEntry, FastetcdLogResponse};

verus! {

/// How the retention window is measured.
#[derive(Debug, Clone, Copy, PartialEq, Eq, Structural)]
pub enum Mode {
    /// Keep the most recent revisions.
    Revision,
}

/// Whether history is compacted in the background at all.
pub fn spawns(mode: Mode, retention: i64) -> (r: bool)
    ensures
        r == (retention > 0),
{
    retention > 0
}

/// The revision to compact to so that the most recent `retention` ones
/// stay: none if there is no more history than that, or if it was
/// compacted as far already.
pub open spec fn target(current: i64, already: i64, retention: i64) -> Option<int> {
    let t = current - retention;
    if t <= already || t <= 0 {
        None
    } else {
        Some(t)
    }
}

/// What to propose to keep the most recent `retention` revisions: only the
/// leader proposes.
pub fn compact_to_retention(
    state: &ServerState,
    current: i64,
    already: i64,
    retention: i64,
) -> (r: Option<FastetcdLogEntry>)
    requires
        i64::MIN <= current - retention <= i64::MAX,
    ensures
        r == (if state.metrics.current_leader != Some(state.member_id) {
            None
        } else {
            match target(current, already, retention) {
                Some(t) => Some(FastetcdLogEntry::Compact { rev: t as i64 }),
                None => None,
            }
        }),
{
    if !state.is_leader() {
        return None;
    }
    let t: i64 = current - retention;
    if t <= already || t <= 0 {
        return None;
    }
    Some(FastetcdLogEntry::Compact { rev: t })
}

/// The revision that was compacted to, of what became of a proposal. One
/// that failed compacted nothing.
pub fn compacted(target: i64, outcome: Option<FastetcdLogResponse>) -> (r: Option<i64>)
    ensures
        r == (match outcome {
            None => None,
            Some(FastetcdLogResponse::Compact { compact_rev }) => Some(compact_rev),
            Some(_) => Some(target),
        }),
{
    match outcome {
        None => None,
        Some(FastetcdLogResponse::Compact { compact_rev }) => Some(compact_rev),
        Some(_) => Some(target),
    }
}

/// Compaction never moves back, never touches the window, and leaves
/// exactly the most recent `retention` revisions when it runs.
pub proof fn law_compaction_keeps_the_window(current: i64, already: i64, retention: i64)
    requires
        retention > 0,
    ensures
        target(current, already, retention) is Some ==> {
            &&& target(current, already, retention)->0 > already
            &&& target(current, already, retention)->0 > 0
            &&& current - target(current, already, retention)->0 == retention
        },
        target(current, already, retention) is None <==> current - retention <= already || current
            <= retention,
{
}

} // verus!
