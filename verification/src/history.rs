//! Snapshot history and replay positions.
use vstd::prelude::*;
use crate::snapshot::Snapshot;
use std::collections::VecDeque;
use std::time::Instant;

verus! {

broadcast use vstd::std_specs::vecdeque::axiom_spec_len;

#[verifier::external_type_specification]
#[verifier::external_body]
pub struct ExInstant(Instant);

/// Calls `Instant::now`: the current moment. Nothing is promised of the
/// value.
#[verifier::external_body]
fn now() -> Instant {
    Instant::now()
}

/// A snapshot together with the moment it was recorded.
pub struct SnapshotEntry {
    pub snapshot: Snapshot,
    pub timestamp: Instant,
}

/// The entries kept after appending one to `h` with room for `max_size`:
/// the newest `max_size` of them.
pub open spec fn trimmed<T>(h: Seq<T>, max_size: nat) -> Seq<T> {
    if h.len() > max_size {
        h.skip(h.len() - max_size)
    } else {
        h
    }
}

/// Add a snapshot to history, dropping the oldest entries beyond `max_size`.
pub fn add_to_history(history: &mut VecDeque<SnapshotEntry>, snapshot: Snapshot, max_size: usize)
    ensures
        final(history)@.len() == if old(history)@.len() + 1 > max_size {
            max_size as int
        } else {
            old(history)@.len() + 1int
        },
        ({
            let appended = old(history)@.push(final(history)@.last());
            max_size > 0 ==> final(history)@ == trimmed(appended, max_size as nat)
                && final(history)@.last().snapshot == snapshot
        }),
{
    history.push_back(SnapshotEntry { snapshot, timestamp: now() });
    let ghost appended = history@;
    while history.len() > max_size
        invariant
            appended.len() >= 1,
            history@.len() <= appended.len(),
            history@ == appended.skip(appended.len() - history@.len()),
            history@.len() >= max_size || history@ == appended,
        decreases history@.len(),
    {
        history.pop_front();
        assert(history@ =~= appended.skip(appended.len() - history@.len()));
    }
    proof {
        if max_size > 0 {
            assert(history@.last() == appended.last());
            assert(appended =~= old(history)@.push(history@.last()));
            if appended.len() > max_size {
                assert(history@.len() == max_size);
            } else {
                assert(history@ =~= appended);
            }
        } else {
            assert(history@.len() == 0);
        }
    }
}

/// Get the snapshot at the playback position, if there is one.
pub fn get_playback_snapshot(history: &VecDeque<SnapshotEntry>, position: Option<usize>) -> (r: Option<
    &Snapshot,
>)
    ensures
        match position {
            Some(pos) => if pos < history@.len() {
                r == Some(&history@[pos as int].snapshot)
            } else {
                r is None
            },
            None => r is None,
        },
{
    match position {
        Some(pos) => {
            if pos < history.len() {
                Some(&history[pos].snapshot)
            } else {
                None
            }
        },
        None => None,
    }
}

/// Adjust playback position after history changes: a position past the
/// end moves to the last entry (or to 0 when the history is empty).
pub fn adjust_playback_position(position: &mut Option<usize>, history_len: usize)
    ensures
        match *old(position) {
            Some(pos) => if pos >= history_len {
                *final(position) == Some(if history_len == 0 {
                    0usize
                } else {
                    (history_len - 1) as usize
                })
            } else {
                *final(position) == Some(pos)
            },
            None => *final(position) is None,
        },
{
    if let Some(pos) = *position {
        if pos >= history_len {
            *position = Some(history_len.saturating_sub(1));
        }
    }
}

} // verus!
