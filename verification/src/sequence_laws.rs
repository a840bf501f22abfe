//! What it means for a chain to be found in a stream of events.

use crate::behavior::BehaviorEventKind;
use crate::sequence::{
    chain_starts, follows, next_of_kind, stands_from, strict_matches, strict_position,
    tolerant_matches, tolerant_position, MatchView, SignatureView,
};
use vstd::prelude::*;

verus! {

/// The events from `at` on are those of the pattern, one for one.
pub open spec fn pattern_at(
    events: Seq<BehaviorEventKind>,
    pattern: Seq<BehaviorEventKind>,
    at: int,
) -> bool {
    0 <= at && at + pattern.len() <= events.len() && forall|k: int|
        0 <= k < pattern.len() ==> #[trigger] events[at + k] == pattern[k]
}

/// A pattern of one event or more, which stands at `at` and nowhere before.
pub open spec fn pattern_first_at(
    events: Seq<BehaviorEventKind>,
    pattern: Seq<BehaviorEventKind>,
    at: int,
) -> bool {
    pattern.len() > 0 && pattern_at(events, pattern, at) && forall|k: int|
        0 <= k < at ==> !#[trigger] pattern_at(events, pattern, k)
}

proof fn lemma_stands(
    events: Seq<BehaviorEventKind>,
    pattern: Seq<BehaviorEventKind>,
    at: int,
)
    ensures
        stands_from(events, pattern, at) == pattern_at(events, pattern, at),
{
    if 0 <= at && at + pattern.len() <= events.len() {
        let part = events.subrange(at, at + pattern.len());
        if pattern_at(events, pattern, at) {
            assert forall|k: int| 0 <= k < pattern.len() implies part[k] == pattern[k] by {
                assert(events[at + k] == pattern[k]);
            }
            assert(part =~= pattern);
        }
        if part == pattern {
            assert forall|k: int| 0 <= k < pattern.len() implies #[trigger] events[at + k]
                == pattern[k] by {
                assert(part[k] == events[at + k]);
            }
        }
    }
}

proof fn lemma_strict_position(
    events: Seq<BehaviorEventKind>,
    pattern: Seq<BehaviorEventKind>,
    start: int,
)
    requires
        0 <= start,
    ensures
        match strict_position(events, pattern, start) {
            Some(at) => {
                &&& start <= at
                &&& pattern.len() > 0
                &&& pattern_at(events, pattern, at as int)
                &&& forall|k: int| start <= k < at ==> !#[trigger] pattern_at(events, pattern, k)
            },
            None => pattern.len() > 0 ==> forall|k: int|
                start <= k ==> !#[trigger] pattern_at(events, pattern, k),
        },
    decreases events.len() - start,
{
    if start < events.len() && pattern.len() > 0 {
        lemma_stands(events, pattern, start);
        if !stands_from(events, pattern, start) {
            lemma_strict_position(events, pattern, start + 1);
        }
    }
}

/// The match of one strict signature stands among the matches of all.
proof fn lemma_strict_match_kept(
    signatures: Seq<SignatureView>,
    events: Seq<BehaviorEventKind>,
    i: int,
    at: nat,
)
    requires
        0 <= i < signatures.len(),
        !signatures[i].tolerant,
        strict_position(events, signatures[i].pattern, 0) == Some(at),
    ensures
        strict_matches(signatures, events).contains(
            (MatchView { signature_name: signatures[i].name, matched_at: at, tolerant: false }),
        ),
    decreases signatures.len(),
{
    let m = MatchView { signature_name: signatures[i].name, matched_at: at, tolerant: false };
    let before = strict_matches(signatures.drop_last(), events);
    let all = strict_matches(signatures, events);
    if i == signatures.len() - 1 {
        assert(all == before.push(m));
        assert(all[before.len() as int] == m);
    } else {
        assert(signatures.drop_last()[i] == signatures[i]);
        lemma_strict_match_kept(signatures.drop_last(), events, i, at);
        let k = before.index_of(m);
        assert(all[k] == m);
    }
}

/// A strict chain is found wherever it stands: whatever events come before it and behind it,
/// its signature is reported, at the place where the chain first stands.
pub proof fn law_strict_chain_is_found(
    signatures: Seq<SignatureView>,
    i: int,
    a: Seq<BehaviorEventKind>,
    b: Seq<BehaviorEventKind>,
)
    requires
        0 <= i < signatures.len(),
        !signatures[i].tolerant,
        signatures[i].pattern.len() > 0,
    ensures
        exists|m: MatchView| #[trigger]
            strict_matches(signatures, a + signatures[i].pattern + b).contains(m)
                && m.signature_name == signatures[i].name && !m.tolerant && m.matched_at <= a.len(),
{
    let p = signatures[i].pattern;
    let events = a + p + b;
    lemma_strict_position(events, p, 0);
    assert(pattern_at(events, p, a.len() as int));
    let at = strict_position(events, p, 0)->0;
    lemma_strict_match_kept(signatures, events, i, at);
}

/// A strict match is the first place where its whole pattern stands, event by event.
pub proof fn law_strict_match_stands(
    signatures: Seq<SignatureView>,
    events: Seq<BehaviorEventKind>,
    m: MatchView,
)
    requires
        strict_matches(signatures, events).contains(m),
    ensures
        !m.tolerant,
        exists|i: int|
            0 <= i < signatures.len() && !(#[trigger] signatures[i]).tolerant && signatures[i].name
                == m.signature_name && pattern_first_at(
                events,
                signatures[i].pattern,
                m.matched_at as int,
            ),
    decreases signatures.len(),
{
    let all = strict_matches(signatures, events);
    let k = all.index_of(m);
    let front = signatures.drop_last();
    let before = strict_matches(front, events);
    if k < before.len() {
        assert(before[k] == m);
        law_strict_match_stands(front, events, m);
        let i = choose|i: int|
            0 <= i < front.len() && !(#[trigger] front[i]).tolerant && front[i].name
                == m.signature_name && pattern_first_at(
                events,
                front[i].pattern,
                m.matched_at as int,
            );
        assert(signatures[i] == front[i]);
    } else {
        let s = signatures.last();
        assert(signatures[signatures.len() - 1] == s);
        lemma_strict_position(events, s.pattern, 0);
    }
}

/// Events that come later never hide a strict match: it is still reported, at the same place.
pub proof fn law_strict_match_outlasts_later_events(
    signatures: Seq<SignatureView>,
    events: Seq<BehaviorEventKind>,
    later: Seq<BehaviorEventKind>,
    m: MatchView,
)
    requires
        strict_matches(signatures, events).contains(m),
    ensures
        strict_matches(signatures, events + later).contains(m),
{
    law_strict_match_stands(signatures, events, m);
    let i = choose|i: int|
        0 <= i < signatures.len() && !(#[trigger] signatures[i]).tolerant && signatures[i].name
            == m.signature_name && pattern_first_at(
            events,
            signatures[i].pattern,
            m.matched_at as int,
        );
    let p = signatures[i].pattern;
    let longer = events + later;
    lemma_strict_position(longer, p, 0);
    assert forall|k: int| 0 <= k <= m.matched_at implies #[trigger] pattern_at(longer, p, k)
        == pattern_at(events, p, k) by {
        if pattern_at(events, p, k) {
            assert forall|j: int| 0 <= j < p.len() implies #[trigger] longer[k + j] == p[j] by {
                assert(events[k + j] == p[j]);
            }
        }
        if pattern_at(longer, p, k) {
            assert forall|j: int| 0 <= j < p.len() implies #[trigger] events[k + j] == p[j] by {
                assert(longer[k + j] == p[j]);
            }
        }
    }
    assert(pattern_at(longer, p, m.matched_at as int));
    let found = strict_position(longer, p, 0)->0;
    assert(pattern_at(longer, p, found as int));
    assert(!(found < m.matched_at)) by {
        if found < m.matched_at {
            assert(pattern_at(events, p, found as int));
        }
    }
    lemma_strict_match_kept(signatures, longer, i, m.matched_at);
}

/// Signatures are matched one by one: those of two lists give the matches of the first and
/// behind them those of the second, and one signature gives one match at most.
pub proof fn law_strict_signatures_match_one_by_one(
    first: Seq<SignatureView>,
    second: Seq<SignatureView>,
    one: SignatureView,
    events: Seq<BehaviorEventKind>,
)
    ensures
        strict_matches(first + second, events) == strict_matches(first, events) + strict_matches(
            second,
            events,
        ),
        strict_matches(seq![one], events).len() <= 1,
    decreases second.len(),
{
    reveal_with_fuel(strict_matches, 2);
    assert(seq![one].drop_last() =~= Seq::empty());
    if second.len() == 0 {
        assert(first + second =~= first);
        assert(strict_matches(first, events) + Seq::<MatchView>::empty() =~= strict_matches(
            first,
            events,
        ));
    } else {
        law_strict_signatures_match_one_by_one(first, second.drop_last(), one, events);
        assert((first + second).drop_last() =~= first + second.drop_last());
        assert((first + second).last() == second.last());
        assert(strict_matches(first + second, events) =~= strict_matches(first, events)
            + strict_matches(second, events));
    }
}

/// From one step of a chain to the next: the next lies behind it, with at most `max_gap` events
/// in between, none of which is of its kind.
pub open spec fn steps_on(
    events: Seq<BehaviorEventKind>,
    kind: BehaviorEventKind,
    from: int,
    to: int,
    max_gap: nat,
) -> bool {
    &&& from < to < events.len()
    &&& to - from <= max_gap + 1
    &&& events[to] == kind
    &&& forall|e: int| from < e < to ==> #[trigger] events[e] != kind
}

/// The steps of a chain lie at `places`, each the next event of its kind behind the one before
/// it, with at most `max_gap` other events in between; the whole spans at most `max_span`
/// events.
pub open spec fn chain_lies_at(
    events: Seq<BehaviorEventKind>,
    pattern: Seq<BehaviorEventKind>,
    places: Seq<int>,
    max_gap: nat,
    max_span: nat,
) -> bool {
    &&& pattern.len() > 0
    &&& places.len() == pattern.len()
    &&& 0 <= places[0] < events.len()
    &&& events[places[0]] == pattern[0]
    &&& places.last() - places[0] < max_span
    &&& forall|k: int|
        0 < k < places.len() ==> #[trigger] steps_on(
            events,
            pattern[k],
            places[k - 1],
            places[k],
            max_gap,
        )
}

proof fn lemma_next(events: Seq<BehaviorEventKind>, kind: BehaviorEventKind, from: int)
    requires
        0 <= from,
    ensures
        match next_of_kind(events, kind, from) {
            Some(p) => from <= p < events.len() && events[p] == kind && forall|e: int|
                from <= e < p ==> #[trigger] events[e] != kind,
            None => forall|e: int| from <= e < events.len() ==> #[trigger] events[e] != kind,
        },
    decreases events.len() - from,
{
    if from < events.len() && events[from] != kind {
        lemma_next(events, kind, from + 1);
    }
}

proof fn lemma_places_grow(
    events: Seq<BehaviorEventKind>,
    pattern: Seq<BehaviorEventKind>,
    places: Seq<int>,
    max_gap: nat,
    max_span: nat,
    k: int,
)
    requires
        chain_lies_at(events, pattern, places, max_gap, max_span),
        0 <= k < places.len(),
    ensures
        places[0] <= places[k] <= places.last(),
    decreases places.len() - k,
{
    if k + 1 < places.len() {
        assert(steps_on(events, pattern[k + 1], places[k + 1 - 1], places[k + 1], max_gap));
        lemma_places_grow(events, pattern, places, max_gap, max_span, k + 1);
    }
    lemma_places_rise(events, pattern, places, max_gap, max_span, k);
}

proof fn lemma_places_rise(
    events: Seq<BehaviorEventKind>,
    pattern: Seq<BehaviorEventKind>,
    places: Seq<int>,
    max_gap: nat,
    max_span: nat,
    k: int,
)
    requires
        chain_lies_at(events, pattern, places, max_gap, max_span),
        0 <= k < places.len(),
    ensures
        places[0] <= places[k],
    decreases k,
{
    if k > 0 {
        assert(steps_on(events, pattern[k], places[k - 1], places[k], max_gap));
        lemma_places_rise(events, pattern, places, max_gap, max_span, k - 1);
    }
}

/// A chain that lies in the events is followed.
proof fn lemma_chain_followed(
    events: Seq<BehaviorEventKind>,
    pattern: Seq<BehaviorEventKind>,
    places: Seq<int>,
    max_gap: nat,
    max_span: nat,
    step: int,
)
    requires
        chain_lies_at(events, pattern, places, max_gap, max_span),
        1 <= step <= pattern.len(),
    ensures
        follows(events, pattern, step, places[0], places[step - 1], max_gap, max_span),
    decreases pattern.len() - step,
{
    if step < pattern.len() {
        lemma_chain_followed(events, pattern, places, max_gap, max_span, step + 1);
        assert(steps_on(events, pattern[step], places[step - 1], places[step], max_gap));
        lemma_places_rise(events, pattern, places, max_gap, max_span, step - 1);
        lemma_places_grow(events, pattern, places, max_gap, max_span, step);
        lemma_next(events, pattern[step], places[step - 1] + 1);
        let p = next_of_kind(events, pattern[step], places[step - 1] + 1);
        assert(p == Some(places[step]));
    }
}

/// Where the steps lie that are followed from `step` on.
proof fn lemma_followed_places(
    events: Seq<BehaviorEventKind>,
    pattern: Seq<BehaviorEventKind>,
    places: Seq<int>,
    max_gap: nat,
    max_span: nat,
    step: int,
) -> (all: Seq<int>)
    requires
        1 <= step <= pattern.len(),
        places.len() == step,
        chain_lies_at(events, pattern.take(step), places, max_gap, max_span),
        follows(events, pattern, step, places[0], places[step - 1], max_gap, max_span),
    ensures
        chain_lies_at(events, pattern, all, max_gap, max_span),
        all[0] == places[0],
    decreases pattern.len() - step,
{
    if step == pattern.len() {
        assert(pattern.take(step) =~= pattern);
        places
    } else {
        lemma_places_rise(events, pattern.take(step), places, max_gap, max_span, step - 1);
        lemma_next(events, pattern[step], places[step - 1] + 1);
        let p = next_of_kind(events, pattern[step], places[step - 1] + 1)->0;
        let more = places.push(p);
        let part = pattern.take(step + 1);
        assert(part[0] == pattern.take(step)[0]);
        assert forall|k: int| 0 < k < more.len() implies #[trigger] steps_on(
            events,
            part[k],
            more[k - 1],
            more[k],
            max_gap,
        ) by {
            if k < step {
                assert(steps_on(events, pattern.take(step)[k], places[k - 1], places[k], max_gap));
                assert(part[k] == pattern.take(step)[k]);
            }
        }
        lemma_followed_places(events, pattern, more, max_gap, max_span, step + 1)
    }
}

proof fn lemma_chain_starts(
    events: Seq<BehaviorEventKind>,
    pattern: Seq<BehaviorEventKind>,
    start: int,
    max_gap: nat,
    max_span: nat,
)
    requires
        0 <= start < events.len(),
    ensures
        chain_starts(events, pattern, start, max_gap, max_span) == exists|places: Seq<int>|
            #[trigger] chain_lies_at(events, pattern, places, max_gap, max_span) && places[0]
                == start,
{
    if chain_starts(events, pattern, start, max_gap, max_span) {
        let places = seq![start];
        assert(pattern.take(1)[0] == pattern[0]);
        assert(chain_lies_at(events, pattern.take(1), places, max_gap, max_span));
        let all = lemma_followed_places(events, pattern, places, max_gap, max_span, 1);
        assert(chain_lies_at(events, pattern, all, max_gap, max_span) && all[0] == start);
    }
    if exists|places: Seq<int>| #[trigger]
        chain_lies_at(events, pattern, places, max_gap, max_span) && places[0] == start {
        let places = choose|places: Seq<int>| #[trigger]
            chain_lies_at(events, pattern, places, max_gap, max_span) && places[0] == start;
        lemma_chain_followed(events, pattern, places, max_gap, max_span, 1);
        lemma_places_rise(events, pattern, places, max_gap, max_span, places.len() - 1);
    }
}

proof fn lemma_tolerant_position(
    events: Seq<BehaviorEventKind>,
    pattern: Seq<BehaviorEventKind>,
    from: int,
    max_gap: nat,
    max_span: nat,
)
    requires
        0 <= from,
    ensures
        match tolerant_position(events, pattern, from, max_gap, max_span) {
            Some(at) => from <= at < events.len() && (exists|places: Seq<int>| #[trigger]
                chain_lies_at(events, pattern, places, max_gap, max_span) && places[0] == at)
                && forall|places: Seq<int>| #[trigger]
                chain_lies_at(events, pattern, places, max_gap, max_span) ==> !(from <= places[0]
                    < at),
            None => forall|places: Seq<int>| #[trigger]
                chain_lies_at(events, pattern, places, max_gap, max_span) ==> places[0] < from,
        },
    decreases events.len() - from,
{
    if from < events.len() {
        lemma_chain_starts(events, pattern, from, max_gap, max_span);
        if !chain_starts(events, pattern, from, max_gap, max_span) {
            lemma_tolerant_position(events, pattern, from + 1, max_gap, max_span);
        }
    }
}

proof fn lemma_tolerant_match_kept(
    signatures: Seq<SignatureView>,
    events: Seq<BehaviorEventKind>,
    max_gap: nat,
    max_span: nat,
    i: int,
    at: nat,
)
    requires
        0 <= i < signatures.len(),
        signatures[i].tolerant,
        tolerant_position(events, signatures[i].pattern, 0, max_gap, max_span) == Some(at),
    ensures
        tolerant_matches(signatures, events, max_gap, max_span).contains(
            (MatchView { signature_name: signatures[i].name, matched_at: at, tolerant: true }),
        ),
    decreases signatures.len(),
{
    let m = MatchView { signature_name: signatures[i].name, matched_at: at, tolerant: true };
    let before = tolerant_matches(signatures.drop_last(), events, max_gap, max_span);
    let all = tolerant_matches(signatures, events, max_gap, max_span);
    if i == signatures.len() - 1 {
        assert(all == before.push(m));
        assert(all[before.len() as int] == m);
    } else {
        assert(signatures.drop_last()[i] == signatures[i]);
        lemma_tolerant_match_kept(signatures.drop_last(), events, max_gap, max_span, i, at);
        let k = before.index_of(m);
        assert(all[k] == m);
    }
}

/// A tolerant chain is found wherever its steps lie close enough, at the place of its first
/// step or before.
pub proof fn law_tolerant_chain_is_found(
    signatures: Seq<SignatureView>,
    i: int,
    events: Seq<BehaviorEventKind>,
    places: Seq<int>,
    max_gap: nat,
    max_span: nat,
)
    requires
        0 <= i < signatures.len(),
        signatures[i].tolerant,
        chain_lies_at(events, signatures[i].pattern, places, max_gap, max_span),
    ensures
        exists|m: MatchView| #[trigger]
            tolerant_matches(signatures, events, max_gap, max_span).contains(m)
                && m.signature_name == signatures[i].name && m.tolerant && m.matched_at
                <= places[0],
{
    let p = signatures[i].pattern;
    lemma_tolerant_position(events, p, 0, max_gap, max_span);
    let at = tolerant_position(events, p, 0, max_gap, max_span)->0;
    lemma_tolerant_match_kept(signatures, events, max_gap, max_span, i, at);
}

/// A tolerant match is the first place where a chain begins whose steps lie close enough.
pub proof fn law_tolerant_match_lies(
    signatures: Seq<SignatureView>,
    events: Seq<BehaviorEventKind>,
    max_gap: nat,
    max_span: nat,
    m: MatchView,
)
    requires
        tolerant_matches(signatures, events, max_gap, max_span).contains(m),
    ensures
        m.tolerant,
        exists|i: int, places: Seq<int>|
            0 <= i < signatures.len() && (#[trigger] signatures[i]).tolerant && signatures[i].name
                == m.signature_name && #[trigger] chain_lies_at(
                events,
                signatures[i].pattern,
                places,
                max_gap,
                max_span,
            ) && places[0] == m.matched_at && forall|other: Seq<int>| #[trigger]
                chain_lies_at(events, signatures[i].pattern, other, max_gap, max_span)
                    ==> m.matched_at <= other[0],
    decreases signatures.len(),
{
    let all = tolerant_matches(signatures, events, max_gap, max_span);
    let k = all.index_of(m);
    let front = signatures.drop_last();
    let before = tolerant_matches(front, events, max_gap, max_span);
    if k < before.len() {
        assert(before[k] == m);
        law_tolerant_match_lies(front, events, max_gap, max_span, m);
        let (i, places) = choose|i: int, places: Seq<int>|
            0 <= i < front.len() && (#[trigger] front[i]).tolerant && front[i].name
                == m.signature_name && #[trigger] chain_lies_at(
                events,
                front[i].pattern,
                places,
                max_gap,
                max_span,
            ) && places[0] == m.matched_at && forall|other: Seq<int>| #[trigger]
                chain_lies_at(events, front[i].pattern, other, max_gap, max_span) ==> m.matched_at
                    <= other[0];
        assert(signatures[i] == front[i]);
        assert(chain_lies_at(events, signatures[i].pattern, places, max_gap, max_span));
    } else {
        let s = signatures.last();
        assert(signatures[signatures.len() - 1] == s);
        lemma_tolerant_position(events, s.pattern, 0, max_gap, max_span);
        let places = choose|places: Seq<int>| #[trigger]
            chain_lies_at(events, s.pattern, places, max_gap, max_span) && places[0]
                == m.matched_at;
        assert(chain_lies_at(
            events,
            signatures[signatures.len() - 1].pattern,
            places,
            max_gap,
            max_span,
        ));
    }
}

/// A chain whose events follow one another directly is found at any gap, where its length is
/// within the span.
pub proof fn law_tolerant_chain_without_gaps_is_found(
    signatures: Seq<SignatureView>,
    i: int,
    a: Seq<BehaviorEventKind>,
    b: Seq<BehaviorEventKind>,
    max_gap: nat,
    max_span: nat,
)
    requires
        0 <= i < signatures.len(),
        signatures[i].tolerant,
        0 < signatures[i].pattern.len() <= max_span,
    ensures
        exists|m: MatchView| #[trigger]
            tolerant_matches(
                signatures,
                a + signatures[i].pattern + b,
                max_gap,
                max_span,
            ).contains(m) && m.signature_name == signatures[i].name && m.tolerant && m.matched_at
                <= a.len(),
{
    let p = signatures[i].pattern;
    let events = a + p + b;
    let places = Seq::new(p.len(), |k: int| a.len() + k);
    assert(events[a.len() as int] == p[0]);
    assert forall|k: int| 0 < k < places.len() implies #[trigger] steps_on(
        events,
        p[k],
        places[k - 1],
        places[k],
        max_gap,
    ) by {
        assert(events[a.len() + k] == p[k]);
    }
    law_tolerant_chain_is_found(signatures, i, events, places, max_gap, max_span);
}

/// Wider limits never lose a chain, nor find it later.
pub proof fn law_longer_span_keeps_tolerant_chains(
    signatures: Seq<SignatureView>,
    events: Seq<BehaviorEventKind>,
    max_gap: nat,
    max_span: nat,
    wider_gap: nat,
    longer_span: nat,
    m: MatchView,
)
    requires
        tolerant_matches(signatures, events, max_gap, max_span).contains(m),
        max_gap <= wider_gap,
        max_span <= longer_span,
    ensures
        exists|n: MatchView| #[trigger]
            tolerant_matches(signatures, events, wider_gap, longer_span).contains(n)
                && n.signature_name == m.signature_name && n.matched_at <= m.matched_at,
{
    law_tolerant_match_lies(signatures, events, max_gap, max_span, m);
    let (i, places) = choose|i: int, places: Seq<int>|
        0 <= i < signatures.len() && (#[trigger] signatures[i]).tolerant && signatures[i].name
            == m.signature_name && #[trigger] chain_lies_at(
            events,
            signatures[i].pattern,
            places,
            max_gap,
            max_span,
        ) && places[0] == m.matched_at;
    assert forall|k: int| 0 < k < places.len() implies #[trigger] steps_on(
        events,
        signatures[i].pattern[k],
        places[k - 1],
        places[k],
        wider_gap,
    ) by {
        assert(steps_on(events, signatures[i].pattern[k], places[k - 1], places[k], max_gap));
    }
    assert(chain_lies_at(events, signatures[i].pattern, places, wider_gap, longer_span));
    law_tolerant_chain_is_found(signatures, i, events, places, wider_gap, longer_span);
}

/// Tolerant signatures, too, are matched one by one and in order.
pub proof fn law_tolerant_signatures_match_one_by_one(
    first: Seq<SignatureView>,
    second: Seq<SignatureView>,
    one: SignatureView,
    events: Seq<BehaviorEventKind>,
    max_gap: nat,
    max_span: nat,
)
    ensures
        tolerant_matches(first + second, events, max_gap, max_span) == tolerant_matches(
            first,
            events,
            max_gap,
            max_span,
        ) + tolerant_matches(second, events, max_gap, max_span),
        tolerant_matches(seq![one], events, max_gap, max_span).len() <= 1,
    decreases second.len(),
{
    reveal_with_fuel(tolerant_matches, 2);
    assert(seq![one].drop_last() =~= Seq::empty());
    let head = tolerant_matches(first, events, max_gap, max_span);
    if second.len() == 0 {
        assert(first + second =~= first);
        assert(head + Seq::<MatchView>::empty() =~= head);
    } else {
        law_tolerant_signatures_match_one_by_one(
            first,
            second.drop_last(),
            one,
            events,
            max_gap,
            max_span,
        );
        assert((first + second).drop_last() =~= first + second.drop_last());
        assert((first + second).last() == second.last());
        assert(tolerant_matches(first + second, events, max_gap, max_span) =~= head
            + tolerant_matches(second, events, max_gap, max_span));
    }
}

} // verus!
