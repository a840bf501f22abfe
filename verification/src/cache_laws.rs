//! When a remembered scan result must count.

use crate::cache::{
    after_matching, holds_path, matched, CacheView, FileFingerprint, ScanContext, ScanResult,
};
use vstd::prelude::*;

verus! {

/// Two looks at a file agree where its size and the time of its last change are the same, and
/// only there.
pub proof fn law_looks_agree_by_size_and_time(a: FileFingerprint, b: FileFingerprint)
    ensures
        a.agrees(b) <==> a.size == b.size && a.modified == b.modified,
        a.agrees(a),
        a.agrees(b) ==> b.agrees(a),
{
}

/// A result that was stored for another file, another policy, another context or before the
/// last clearing is not given, and is forgotten.
pub proof fn law_other_results_are_not_given(
    cache: CacheView,
    path: Seq<char>,
    fingerprint: FileFingerprint,
    policy_epoch: u64,
    require_current_decision: bool,
    expected: Option<ScanContext>,
    found: Option<ScanResult>,
    now: u128,
)
    requires
        matched(
            cache,
            path,
            fingerprint,
            policy_epoch,
            require_current_decision,
            expected,
            found,
        ),
        !holds_path(cache.entries, path) || cache.entry(path).fingerprint != Some(fingerprint)
            || cache.entry(path).policy_epoch != policy_epoch || cache.entry(path).generation
            != cache.generation || (expected is Some && cache.entry(path).result.context
            != expected->0),
    ensures
        found is None,
        after_matching(cache, path, fingerprint, policy_epoch, expected, now) == cache.forgotten(
            path,
        ),
{
}

/// A result that was stored for the same file, policy and context since the last clearing is
/// given, unless a current decision is asked for and decisions have changed since.
pub proof fn law_same_results_are_given(
    cache: CacheView,
    path: Seq<char>,
    fingerprint: FileFingerprint,
    policy_epoch: u64,
    require_current_decision: bool,
    expected: Option<ScanContext>,
    found: Option<ScanResult>,
)
    requires
        matched(
            cache,
            path,
            fingerprint,
            policy_epoch,
            require_current_decision,
            expected,
            found,
        ),
        holds_path(cache.entries, path),
        cache.entry(path).fingerprint == Some(fingerprint),
        cache.entry(path).policy_epoch == policy_epoch,
        cache.entry(path).generation == cache.generation,
        expected is None || cache.entry(path).result.context == expected->0,
    ensures
        !require_current_decision || cache.entry(path).decision_generation
            == cache.decision_generation ==> found is Some && found->0@ == cache.entry(path).result,
        require_current_decision && cache.entry(path).decision_generation
            != cache.decision_generation ==> found is None,
{
}

/// Clearing empties the cache and starts new generations; a change of decisions keeps the
/// entries and starts a new generation of decisions alone.
pub proof fn law_clearing_starts_anew(cache: CacheView)
    ensures
        cache.emptied().entries.len() == 0,
        cache.emptied().generation != cache.generation,
        cache.emptied().decision_generation != cache.decision_generation,
        cache.redecided().entries == cache.entries,
        cache.redecided().generation == cache.generation,
        cache.redecided().decision_generation != cache.decision_generation,
{
}

} // verus!
