//! The marker manager backed by a single marker file, together with the
//! guarantees the protocol gives across successive reconcile calls.

use vstd::prelude::*;
use crate::download_marker::{MarkerFile, lemma_encode_injective};
use crate::marker_manager::{
    MarkerManager, MarkerStore, ReconcileOutcome, is_stale, reconcile_transition,
};

verus! {

/// Keeps the fingerprint of the cached artifact in one marker file.
pub struct FileMarkerManager {}

impl FileMarkerManager {
    pub fn new() -> (r: FileMarkerManager) {
        FileMarkerManager {}
    }
}

impl MarkerManager for FileMarkerManager {
    fn invoke_if_different(
        &self,
        store: &mut MarkerStore,
        marker_file: &MarkerFile,
        refresh_ok: bool,
    ) -> (r: ReconcileOutcome) {
        let encoded = marker_file.encode();
        let fresh = match &store.contents {
            None => false,
            Some(stored) => *stored == encoded,
        };
        if fresh {
            return ReconcileOutcome::Fresh;
        }
        // The stale claim goes first, before any destructive work: from
        // here to a successful commit there is no marker at all.
        store.contents = None;
        if refresh_ok {
            store.contents = Some(encoded);
            ReconcileOutcome::Refreshed
        } else {
            ReconcileOutcome::RefreshFailed
        }
    }
}

/// Reconciling twice with the same fingerprint refreshes at most once:
/// whatever the marker held before, after one successful call the second
/// call finds the marker fresh, leaves it untouched and does not invoke
/// the refresh.
pub proof fn lemma_reconcile_idempotent(
    contents: Option<Seq<char>>,
    expected: Seq<char>,
    refresh_ok_second: bool,
)
    ensures
        ({
            let (first, _) = reconcile_transition(contents, expected, true);
            let (second, outcome) = reconcile_transition(first, expected, refresh_ok_second);
            outcome == ReconcileOutcome::Fresh && second == first
        }),
{
}

/// After a successful reconcile with one fingerprint, reconciling with a
/// different fingerprint finds the cache stale, refreshes exactly once
/// and leaves the marker holding the new fingerprint.
pub proof fn lemma_reconcile_staleness_on_change(
    contents: Option<Seq<char>>,
    first: MarkerFile,
    second: MarkerFile,
)
    requires
        !first.sha256@.contains('\n'),
        !second.sha256@.contains('\n'),
        first.sha256@ != second.sha256@ || first.url@ != second.url@,
    ensures
        ({
            let (after_first, _) = reconcile_transition(contents, first.encode_spec(), true);
            let (after_second, outcome) = reconcile_transition(
                after_first,
                second.encode_spec(),
                true,
            );
            outcome == ReconcileOutcome::Refreshed && after_second == Some(second.encode_spec())
        }),
{
    if first.encode_spec() == second.encode_spec() {
        lemma_encode_injective(first, second);
    }
}

/// If the refresh fails, no marker exists afterwards — whether or not one
/// existed before — so the next reconcile call, with any fingerprint,
/// finds the cache stale and retries.
pub proof fn lemma_refresh_failure_leaves_no_marker(
    contents: Option<Seq<char>>,
    expected: Seq<char>,
    any_later: Seq<char>,
)
    requires
        is_stale(contents, expected),
    ensures
        ({
            let (after, outcome) = reconcile_transition(contents, expected, false);
            after is None && outcome == ReconcileOutcome::RefreshFailed && is_stale(
                after,
                any_later,
            )
        }),
{
}

} // verus!
