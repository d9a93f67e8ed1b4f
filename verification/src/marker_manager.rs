//! The reconcile protocol that guards the cache.
//!
//! The persisted marker is modeled as a value: either absent or holding
//! the serialized fingerprint of what the cache claims to contain.  One
//! transition function states the whole protocol — compare, delete the
//! stale claim before any destructive work, refresh, and commit the new
//! claim only on success — and the manager trait is bound to it.

use vstd::prelude::*;
use crate::download_marker::MarkerFile;

verus! {

/// The state of the marker file: `None` when no marker exists, otherwise
/// its exact contents.
pub struct MarkerStore {
    pub contents: Option<String>,
}

impl MarkerStore {
    /// The marker contents as a character sequence, if a marker exists.
    pub open spec fn view_contents(self) -> Option<Seq<char>> {
        match self.contents {
            None => None,
            Some(c) => Some(c@),
        }
    }

    pub fn new() -> (r: MarkerStore)
        ensures
            r.view_contents() is None,
    {
        MarkerStore { contents: None }
    }

    /// Whether the stored marker differs from the expected fingerprint,
    /// exactly `is_stale`; a caller that must act between the staleness
    /// decision and the commit asks here and commits through
    /// `MarkerManager::invoke_if_different`.
    pub fn is_stale(&self, marker_file: &MarkerFile) -> (r: bool)
        ensures
            r == is_stale(self.view_contents(), marker_file.encode_spec()),
    {
        let encoded = marker_file.encode();
        match &self.contents {
            None => true,
            Some(stored) => !(*stored == encoded),
        }
    }
}

/// What one reconcile call did.
#[derive(Clone, Copy, Debug, PartialEq, Eq, Structural)]
pub enum ReconcileOutcome {
    /// The stored marker matched; the refresh was not invoked.
    Fresh,
    /// The cache was stale; the refresh ran and the marker was rewritten.
    Refreshed,
    /// The cache was stale; the refresh failed and no marker remains.
    RefreshFailed,
}

/// The cache is stale when no marker exists or the stored bytes differ
/// from the expected serialized fingerprint.
pub open spec fn is_stale(contents: Option<Seq<char>>, expected: Seq<char>) -> bool {
    match contents {
        None => true,
        Some(c) => c != expected,
    }
}

/// The whole protocol as one step: a fresh marker is left untouched and
/// the refresh is not invoked; a stale marker is deleted before the
/// refresh runs, so a failed refresh leaves no marker, and only a
/// successful refresh commits the expected fingerprint.
pub open spec fn reconcile_transition(
    contents: Option<Seq<char>>,
    expected: Seq<char>,
    refresh_ok: bool,
) -> (Option<Seq<char>>, ReconcileOutcome) {
    if !is_stale(contents, expected) {
        (contents, ReconcileOutcome::Fresh)
    } else if refresh_ok {
        (Some(expected), ReconcileOutcome::Refreshed)
    } else {
        (None, ReconcileOutcome::RefreshFailed)
    }
}

/// Keepers of the marker protocol: every implementation must follow
/// `reconcile_transition` exactly.
pub trait MarkerManager {
    /// Compares the stored marker against `marker_file` and refreshes the
    /// cache only on a mismatch.  `refresh_ok` reports whether the
    /// caller's refresh work (fetch and expand) succeeded; it is consulted
    /// only when the cache is stale.
    fn invoke_if_different(
        &self,
        store: &mut MarkerStore,
        marker_file: &MarkerFile,
        refresh_ok: bool,
    ) -> (r: ReconcileOutcome)
        ensures
            ({
                let (next, outcome) = reconcile_transition(
                    old(store).view_contents(),
                    marker_file.encode_spec(),
                    refresh_ok,
                );
                final(store).view_contents() == next && r == outcome
            }),
    ;
}

} // verus!
