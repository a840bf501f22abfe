//! How sums of weights grow, and what that means where evidence is added up.

use crate::behavior::{
    bonus_labels, bonus_terms, counted, event_label, has_kind, window_indicators, window_score,
    window_terms, BehaviorEventKind, EventView,
};
use crate::monotone::{
    lemma_granule_below, lemma_granule_large, lemma_multiple, lemma_rounded_monotone,
};
use crate::score::{
    granule, is_power_of_two, lemma_granule_positive, lemma_granule_power, lemma_nearest_bound,
    lemma_powers_divide, nearest, ratio_units, rounded, Score, ONE_UNITS,
};
use crate::total::{total_units, units_of};
use vstd::arithmetic::div_mod::lemma_fundamental_div_mod;
use vstd::prelude::*;

verus! {

/// Rounding again changes nothing.
pub proof fn law_rounding_settles(n: nat)
    ensures
        rounded(rounded(n)) == rounded(n),
{
    let s = granule(n);
    let m = nearest(n, s);
    let v = rounded(n);
    lemma_granule_positive(n);
    lemma_granule_power(n);
    lemma_granule_large(n);
    lemma_nearest_bound(n, s);
    assert(n / s < 0x100_0000) by (nonlinear_arith)
        requires
            n < 0x100_0000 * s,
            s >= 1,
    ;
    assert(m <= 0x100_0000);
    let t = granule(v);
    lemma_granule_positive(v);
    lemma_granule_power(v);
    if m < 0x100_0000 {
        assert(v < 0x100_0000 * s) by (nonlinear_arith)
            requires
                v == m * s,
                m < 0x100_0000,
                s >= 1,
        ;
        lemma_granule_below(v, s);
        lemma_powers_divide(t, s);
        lemma_multiple(m, s, t);
    } else {
        assert(v < 0x100_0000 * (2 * s)) by (nonlinear_arith)
            requires
                v == m * s,
                m == 0x100_0000,
                s >= 1,
        ;
        assert(is_power_of_two(2 * s));
        lemma_granule_below(v, 2 * s);
        lemma_powers_divide(t, 2 * s);
        assert(v == 0x80_0000 * (2 * s)) by (nonlinear_arith)
            requires
                v == m * s,
                m == 0x100_0000,
        ;
        lemma_multiple(0x80_0000, 2 * s, t);
    }
    lemma_fundamental_div_mod(v as int, t as int);
    assert(nearest(v, t) == v / t);
    assert((v / t) * t == v) by (nonlinear_arith)
        requires
            v == t as int * (v as int / t as int),
    ;
}

/// Rounding keeps order, so what is added never makes a sum smaller.
pub proof fn law_adding_never_shrinks(a: nat, b: nat, more: nat)
    requires
        rounded(a) <= rounded(b),
    ensures
        rounded(rounded(a) + more) <= rounded(rounded(b) + more),
        rounded(a) <= rounded(rounded(b) + more),
{
    lemma_rounded_monotone(rounded(a) + more, rounded(b) + more);
    lemma_rounded_monotone(rounded(b), rounded(b) + more);
    law_rounding_settles(b);
}

/// A sum is a rounded number.
pub proof fn lemma_total_settled(terms: Seq<nat>)
    ensures
        rounded(total_units(terms)) == total_units(terms),
{
    if terms.len() > 0 {
        law_rounding_settles(total_units(terms.drop_last()) + terms.last());
    } else {
        lemma_zero_settled();
    }
}

proof fn lemma_zero_settled()
    ensures
        rounded(0) == 0,
{
    assert(granule(0) == 1);
    assert(0nat / 1nat == 0 && 0nat % 1nat == 0);
    assert(nearest(0, 1) == 0);
}

/// The terms of one sum are those of another with more in between.
pub open spec fn terms_among(few: Seq<nat>, many: Seq<nat>) -> bool
    decreases many.len(),
{
    if many.len() == 0 {
        few.len() == 0
    } else {
        terms_among(few, many.drop_last()) || (few.len() > 0 && few.last() == many.last()
            && terms_among(few.drop_last(), many.drop_last()))
    }
}

/// A sum with more terms in between is no smaller.
pub proof fn law_more_terms_sum_no_less(few: Seq<nat>, many: Seq<nat>)
    requires
        terms_among(few, many),
    ensures
        total_units(few) <= total_units(many),
    decreases many.len(),
{
    if many.len() > 0 {
        let rest = many.drop_last();
        lemma_total_settled(few);
        lemma_total_settled(rest);
        if terms_among(few, rest) {
            law_more_terms_sum_no_less(few, rest);
            law_adding_never_shrinks(total_units(few), total_units(rest), many.last());
        } else {
            law_more_terms_sum_no_less(few.drop_last(), rest);
            lemma_total_settled(few.drop_last());
            law_adding_never_shrinks(total_units(few.drop_last()), total_units(rest), many.last());
        }
    }
}

/// Terms behind others, in the same order.
pub proof fn lemma_among_joined(a: Seq<nat>, b: Seq<nat>, c: Seq<nat>, d: Seq<nat>)
    requires
        terms_among(a, b),
        terms_among(c, d),
    ensures
        terms_among(a + c, b + d),
    decreases d.len(),
{
    if d.len() == 0 {
        assert(a + c =~= a);
        assert(b + d =~= b);
    } else {
        assert((b + d).drop_last() =~= b + d.drop_last());
        if terms_among(c, d.drop_last()) {
            lemma_among_joined(a, b, c, d.drop_last());
        } else {
            lemma_among_joined(a, b, c.drop_last(), d.drop_last());
            assert((a + c).drop_last() =~= a + c.drop_last());
        }
    }
}

pub proof fn lemma_among_itself(a: Seq<nat>)
    ensures
        terms_among(a, a),
        terms_among(Seq::empty(), a),
    decreases a.len(),
{
    if a.len() > 0 {
        lemma_among_itself(a.drop_last());
    }
}

pub proof fn lemma_units_joined(a: Seq<Score>, b: Seq<Score>)
    ensures
        units_of(a + b) == units_of(a) + units_of(b),
{
    assert(units_of(a + b) =~= units_of(a) + units_of(b));
}

/// The single-precision number nearest to a fraction is at most half a step away from it.
pub proof fn law_ratio_is_nearest(num: nat, den: nat)
    requires
        den > 0,
    ensures
        ({
            let step = granule(num * ONE_UNITS as nat / den);
            let units = ratio_units(num, den);
            &&& 2 * (units * den) <= 2 * (num * ONE_UNITS) + den * step
            &&& 2 * (num * ONE_UNITS) <= 2 * (units * den) + den * step
            &&& units % step == 0
        }),
{
    let n = num * ONE_UNITS as nat;
    let g = granule(n / den);
    lemma_granule_positive(n / den);
    let step = den * g;
    assert(step > 0) by (nonlinear_arith)
        requires
            step == den * g,
            den > 0,
            g > 0,
    ;
    let m = nearest(n, step);
    lemma_fundamental_div_mod(n as int, step as int);
    let q = n / step;
    let r = n % step;
    assert(n == step * q + r);
    assert((m * g) * den == m * step) by (nonlinear_arith)
        requires
            step == den * g,
    ;
    assert(m == q || m == q + 1);
    assert(m == q + 1 ==> m * step == step * q + step) by (nonlinear_arith);
    assert(m == q ==> m * step == step * q) by (nonlinear_arith);
    vstd::arithmetic::div_mod::lemma_mod_multiples_basic(m as int, g as int);
}

/// A window with one more event scores no less, and nothing that was noted is lost: evidence
/// cannot be washed out by more behaviour.
pub proof fn law_more_events_score_no_less(
    events: Seq<EventView>,
    e: EventView,
    weight: spec_fn(BehaviorEventKind) -> Option<Score>,
)
    ensures
        window_score(events, weight).units <= window_score(events.push(e), weight).units,
        forall|t: Seq<char>| #[trigger]
            window_indicators(events, weight).contains(t) ==> window_indicators(
                events.push(e),
                weight,
            ).contains(t),
{
    let more = events.push(e);
    assert(more.drop_last() =~= events);
    assert forall|kind: BehaviorEventKind| has_kind(events, kind) implies #[trigger] has_kind(
        more,
        kind,
    ) by {
        let i = choose|i: int| 0 <= i < events.len() && (#[trigger] events[i]).kind == kind;
        assert(more[i].kind == kind);
    }
    let value = |x: EventView| weight(x.kind).unwrap();
    let a = counted(events, weight).map_values(value);
    let b = counted(more, weight).map_values(value);
    lemma_among_itself(units_of(a));
    assert(terms_among(units_of(a), units_of(b))) by {
        if counted(more, weight) != counted(events, weight) {
            assert(b =~= a.push(value(e)));
            assert(units_of(b).drop_last() =~= units_of(a));
        }
    }
    lemma_bonus_grows(events, more);
    lemma_units_joined(a, bonus_terms(events));
    lemma_units_joined(b, bonus_terms(more));
    lemma_among_joined(
        units_of(a),
        units_of(b),
        units_of(bonus_terms(events)),
        units_of(bonus_terms(more)),
    );
    law_more_terms_sum_no_less(
        units_of(window_terms(events, weight)),
        units_of(window_terms(more, weight)),
    );
    let label = |x: EventView| event_label(x);
    let la = counted(events, weight).map_values(label);
    let lb = counted(more, weight).map_values(label);
    assert forall|t: Seq<char>| #[trigger]
        window_indicators(events, weight).contains(t) implies window_indicators(
        more,
        weight,
    ).contains(t) by {
        let all = la + bonus_labels(events);
        let k = all.index_of(t);
        if k < la.len() {
            assert(lb[k] == t);
            assert((lb + bonus_labels(more))[k] == t);
        } else {
            assert(bonus_labels(events)[k - la.len()] == t);
            let m = lemma_bonus_label_kept(events, more, k - la.len());
            assert((lb + bonus_labels(more))[lb.len() + m] == t);
        }
    }
}

proof fn lemma_bonus_label_kept(events: Seq<EventView>, more: Seq<EventView>, k: int) -> (m: int)
    requires
        forall|kind: BehaviorEventKind| has_kind(events, kind) ==> #[trigger] has_kind(more, kind),
        0 <= k < bonus_labels(events).len(),
    ensures
        0 <= m < bonus_labels(more).len(),
        bonus_labels(more)[m] == bonus_labels(events)[k],
{
    lemma_kinds_kept(events, more);
    let t = bonus_labels(events)[k];
    let all = bonus_labels(more);
    let a = crate::behavior::injection_and_collection(more);
    let b = crate::behavior::credentials_and_network(more);
    let first: int = if a {
        1
    } else {
        0
    };
    let second: int = if b {
        first + 1
    } else {
        first
    };
    if t == "correlation:injection_plus_collection"@ && a {
        assert(all[0] == t);
        0
    } else if t == "correlation:credential_plus_network"@ && b {
        assert(all[first] == t);
        first
    } else {
        assert(all[second] == t);
        second
    }
}

proof fn lemma_kinds_kept(events: Seq<EventView>, more: Seq<EventView>)
    requires
        forall|kind: BehaviorEventKind| has_kind(events, kind) ==> #[trigger] has_kind(more, kind),
    ensures
        crate::behavior::injection_and_collection(events)
            ==> crate::behavior::injection_and_collection(more),
        crate::behavior::credentials_and_network(events)
            ==> crate::behavior::credentials_and_network(more),
        crate::behavior::destruction_and_encryption(events)
            ==> crate::behavior::destruction_and_encryption(more),
{
    assert(has_kind(events, BehaviorEventKind::ProcessInject) ==> has_kind(
        more,
        BehaviorEventKind::ProcessInject,
    ));
    assert(has_kind(events, BehaviorEventKind::FileWrite) ==> has_kind(
        more,
        BehaviorEventKind::FileWrite,
    ));
    assert(has_kind(events, BehaviorEventKind::RegistryWrite) ==> has_kind(
        more,
        BehaviorEventKind::RegistryWrite,
    ));
    assert(has_kind(events, BehaviorEventKind::CredentialAccess) ==> has_kind(
        more,
        BehaviorEventKind::CredentialAccess,
    ));
    assert(has_kind(events, BehaviorEventKind::NetworkConnect) ==> has_kind(
        more,
        BehaviorEventKind::NetworkConnect,
    ));
    assert(has_kind(events, BehaviorEventKind::DnsQuery) ==> has_kind(
        more,
        BehaviorEventKind::DnsQuery,
    ));
    assert(has_kind(events, BehaviorEventKind::BackupDeletion) ==> has_kind(
        more,
        BehaviorEventKind::BackupDeletion,
    ));
    assert(has_kind(events, BehaviorEventKind::RansomwareEncryption) ==> has_kind(
        more,
        BehaviorEventKind::RansomwareEncryption,
    ));
}

proof fn lemma_term_if_grows(few: bool, many: bool, hundredths: nat)
    requires
        few ==> many,
    ensures
        terms_among(
            units_of(crate::behavior::term_if(few, hundredths)),
            units_of(crate::behavior::term_if(many, hundredths)),
        ),
{
    reveal_with_fuel(terms_among, 2);
    let a = units_of(crate::behavior::term_if(few, hundredths));
    let b = units_of(crate::behavior::term_if(many, hundredths));
    lemma_among_itself(b);
    if !few {
        assert(a =~= Seq::empty());
    }
}

proof fn lemma_bonus_grows(events: Seq<EventView>, more: Seq<EventView>)
    requires
        forall|kind: BehaviorEventKind| has_kind(events, kind) ==> #[trigger] has_kind(more, kind),
    ensures
        terms_among(units_of(bonus_terms(events)), units_of(bonus_terms(more))),
{
    lemma_kinds_kept(events, more);
    let a = crate::behavior::injection_and_collection(events);
    let b = crate::behavior::credentials_and_network(events);
    let c = crate::behavior::destruction_and_encryption(events);
    let x = crate::behavior::injection_and_collection(more);
    let y = crate::behavior::credentials_and_network(more);
    let z = crate::behavior::destruction_and_encryption(more);
    lemma_term_if_grows(a, x, 18);
    lemma_term_if_grows(b, y, 18);
    lemma_term_if_grows(c, z, 24);
    let ta = crate::behavior::term_if(a, 18);
    let tb = crate::behavior::term_if(b, 18);
    let tc = crate::behavior::term_if(c, 24);
    let tx = crate::behavior::term_if(x, 18);
    let ty = crate::behavior::term_if(y, 18);
    let tz = crate::behavior::term_if(z, 24);
    lemma_units_joined(ta, tb);
    lemma_units_joined(ta + tb, tc);
    lemma_units_joined(tx, ty);
    lemma_units_joined(tx + ty, tz);
    lemma_among_joined(units_of(ta), units_of(tx), units_of(tb), units_of(ty));
    lemma_among_joined(units_of(ta + tb), units_of(tx + ty), units_of(tc), units_of(tz));
}

/// Some event is of the kind.
pub open spec fn shows(events: Seq<EventView>, kind: BehaviorEventKind) -> bool {
    exists|i: int| 0 <= i < events.len() && (#[trigger] events[i]).kind == kind
}

/// Every kind of behaviour that has a weight is noted with its first event, and its weight
/// counts.
pub proof fn law_first_event_of_a_kind_is_noted(
    events: Seq<EventView>,
    i: int,
    weight: spec_fn(BehaviorEventKind) -> Option<Score>,
)
    requires
        0 <= i < events.len(),
        weight(events[i].kind) is Some,
        forall|k: int| 0 <= k < i ==> (#[trigger] events[k]).kind != events[i].kind,
    ensures
        window_indicators(events, weight).contains(
            crate::behavior::kind_label(events[i].kind) + ":"@ + events[i].detail,
        ),
        weight(events[i].kind)->0.units <= ONE_UNITS && rounded(
            weight(events[i].kind)->0.units as nat,
        ) == weight(events[i].kind)->0.units ==> window_score(events, weight).units
            >= weight(events[i].kind)->0.units,
{
    lemma_counted_holds(events, i, weight);
    let c = counted(events, weight);
    let k = c.index_of(events[i]);
    let label = |x: EventView| event_label(x);
    assert((c.map_values(label) + bonus_labels(events))[k] == event_label(events[i]));
    let value = |x: EventView| weight(x.kind).unwrap();
    let w = weight(events[i].kind)->0;
    let terms = window_terms(events, weight);
    if w.units <= ONE_UNITS && rounded(w.units as nat) == w.units {
        assert(terms[k] == w);
        let all = units_of(terms);
        assert(all[k] == w.units);
        lemma_one_among(all, k);
        law_more_terms_sum_no_less(seq![all[k]], all);
        assert(seq![all[k]].drop_last() =~= Seq::empty());
        assert(total_units(seq![all[k]]) == rounded(
            total_units(seq![all[k]].drop_last()) + all[k],
        ));
        assert(total_units(Seq::<nat>::empty()) == 0);
    }
}

pub proof fn lemma_one_among(all: Seq<nat>, k: int)
    requires
        0 <= k < all.len(),
    ensures
        terms_among(seq![all[k]], all),
    decreases all.len(),
{
    let one = seq![all[k]];
    if k == all.len() - 1 {
        lemma_among_itself(all.drop_last());
        assert(one.drop_last() =~= Seq::empty());
    } else {
        assert(all.drop_last()[k] == all[k]);
        lemma_one_among(all.drop_last(), k);
    }
}

proof fn lemma_counted_holds(
    events: Seq<EventView>,
    i: int,
    weight: spec_fn(BehaviorEventKind) -> Option<Score>,
)
    requires
        0 <= i < events.len(),
        weight(events[i].kind) is Some,
        forall|k: int| 0 <= k < i ==> (#[trigger] events[k]).kind != events[i].kind,
    ensures
        counted(events, weight).contains(events[i]),
    decreases events.len(),
{
    let front = events.drop_last();
    if i == events.len() - 1 {
        if has_kind(front, events[i].kind) {
            let k = choose|k: int|
                0 <= k < front.len() && (#[trigger] front[k]).kind == events[i].kind;
            assert(events[k].kind == events[i].kind);
        }
        let c = counted(events, weight);
        assert(c[c.len() - 1] == events[i]);
    } else {
        assert(front[i] == events[i]);
        assert forall|k: int| 0 <= k < i implies (#[trigger] front[k]).kind != front[i].kind by {
            assert(events[k].kind != events[i].kind);
        }
        lemma_counted_holds(front, i, weight);
        let before = counted(front, weight);
        let m = before.index_of(events[i]);
        assert(counted(events, weight)[m] == events[i]);
    }
}

/// Behaviour that belongs together is noted as correlated: injection with writing, access to
/// credentials with the network, and the deletion of backups with encryption.
pub proof fn law_correlated_behaviour_is_noted(
    events: Seq<EventView>,
    weight: spec_fn(BehaviorEventKind) -> Option<Score>,
)
    ensures
        shows(events, BehaviorEventKind::ProcessInject) && (shows(
            events,
            BehaviorEventKind::FileWrite,
        ) || shows(events, BehaviorEventKind::RegistryWrite)) ==> window_indicators(
            events,
            weight,
        ).contains("correlation:injection_plus_collection"@),
        shows(events, BehaviorEventKind::CredentialAccess) && (shows(
            events,
            BehaviorEventKind::NetworkConnect,
        ) || shows(events, BehaviorEventKind::DnsQuery)) ==> window_indicators(
            events,
            weight,
        ).contains("correlation:credential_plus_network"@),
        shows(events, BehaviorEventKind::BackupDeletion) && shows(
            events,
            BehaviorEventKind::RansomwareEncryption,
        ) ==> window_indicators(events, weight).contains(
            "correlation:backup_destruction_plus_encryption"@,
        ),
{
    let c = counted(events, weight).map_values(|e: EventView| event_label(e));
    let n = c.len() as int;
    let a = crate::behavior::injection_and_collection(events);
    let b = crate::behavior::credentials_and_network(events);
    let all = window_indicators(events, weight);
    let first: int = if a {
        1
    } else {
        0
    };
    let second: int = if b {
        first + 1
    } else {
        first
    };
    if a {
        assert(all[n] == "correlation:injection_plus_collection"@);
    }
    if b {
        assert(all[n + first] == "correlation:credential_plus_network"@);
    }
    if crate::behavior::destruction_and_encryption(events) {
        assert(all[n + second] == "correlation:backup_destruction_plus_encryption"@);
    }
}

/// Without events there is neither a score nor an indicator.
pub proof fn law_no_events_no_score(weight: spec_fn(BehaviorEventKind) -> Option<Score>)
    ensures
        window_score(Seq::empty(), weight).units == 0,
        window_indicators(Seq::empty(), weight).len() == 0,
{
    let none = Seq::<EventView>::empty();
    assert(counted(none, weight).len() == 0);
    assert(!has_kind(none, BehaviorEventKind::ProcessInject));
    assert(!has_kind(none, BehaviorEventKind::CredentialAccess));
    assert(!has_kind(none, BehaviorEventKind::BackupDeletion));
    assert(window_terms(none, weight).len() == 0);
    assert(units_of(window_terms(none, weight)).len() == 0);
}

/// An indicator of a window is that of an event with a weight, or one of correlation, for
/// which both sides occur.
pub proof fn law_every_indicator_has_its_event(
    events: Seq<EventView>,
    weight: spec_fn(BehaviorEventKind) -> Option<Score>,
    t: Seq<char>,
)
    requires
        window_indicators(events, weight).contains(t),
    ensures
        ({
            ||| exists|i: int|
                0 <= i < events.len() && weight((#[trigger] events[i]).kind) is Some && t
                    == crate::behavior::kind_label(events[i].kind) + ":"@ + events[i].detail
            ||| t == "correlation:injection_plus_collection"@ && shows(
                events,
                BehaviorEventKind::ProcessInject,
            ) && (shows(events, BehaviorEventKind::FileWrite) || shows(
                events,
                BehaviorEventKind::RegistryWrite,
            ))
            ||| t == "correlation:credential_plus_network"@ && shows(
                events,
                BehaviorEventKind::CredentialAccess,
            ) && (shows(events, BehaviorEventKind::NetworkConnect) || shows(
                events,
                BehaviorEventKind::DnsQuery,
            ))
            ||| t == "correlation:backup_destruction_plus_encryption"@ && shows(
                events,
                BehaviorEventKind::BackupDeletion,
            ) && shows(events, BehaviorEventKind::RansomwareEncryption)
        }),
{
    let c = counted(events, weight);
    let labels = c.map_values(|e: EventView| event_label(e));
    let all = labels + bonus_labels(events);
    let k = all.index_of(t);
    if k < labels.len() {
        assert(labels[k] == event_label(c[k]));
        lemma_counted_from(events, weight, k);
        let i = events.index_of(c[k]);
        assert(weight(events[i].kind) is Some);
    } else {
        assert(bonus_labels(events)[k - labels.len()] == t);
    }
}

proof fn lemma_counted_from(
    events: Seq<EventView>,
    weight: spec_fn(BehaviorEventKind) -> Option<Score>,
    k: int,
)
    requires
        0 <= k < counted(events, weight).len(),
    ensures
        events.contains(counted(events, weight)[k]),
        weight(counted(events, weight)[k].kind) is Some,
    decreases events.len(),
{
    if events.len() > 0 {
        let front = events.drop_last();
        let before = counted(front, weight);
        if k < before.len() {
            lemma_counted_from(front, weight, k);
            let i = front.index_of(before[k]);
            assert(events[i] == before[k]);
        } else {
            assert(events[events.len() - 1] == events.last());
        }
    }
}

} // verus!
