//! Laws of the score over static signals.

use crate::heuristic::rulebook::{
    any_contains_both, calibrated, descriptions_of, lowered_all, residual_of, static_hits,
    static_match, static_rules, weights_of, RuleView,
};
use crate::monotone::{
    lemma_product_bound, lemma_product_monotone, lemma_product_shrinks, lemma_rounded_monotone,
};
use crate::score::{
    lemma_one_power, lemma_product_capped, lemma_ratio_capped, lemma_rounded_bound,
    lemma_rounded_capped, Score, ONE_UNITS,
};
use crate::text::{any_contains, contains_text, lowered};
use vstd::prelude::*;

verus! {

/// Every signal of `a` is among those of `b`, but for ASCII case.
pub open spec fn signals_among(a: Seq<Seq<char>>, b: Seq<Seq<char>>) -> bool {
    forall|i: int| 0 <= i < a.len() ==> lowered_all(b).contains(lowered(#[trigger] a[i]))
}

proof fn lemma_among(a: Seq<Seq<char>>, b: Seq<Seq<char>>, i: int) -> (j: int)
    requires
        signals_among(a, b),
        0 <= i < a.len(),
    ensures
        0 <= j < b.len(),
        lowered_all(a)[i] == lowered_all(b)[j],
{
    assert(lowered_all(b).contains(lowered(a[i])));
    choose|j: int| 0 <= j < lowered_all(b).len() && lowered_all(b)[j] == lowered(a[i])
}

/// A rule that fires on some signals fires on more.
proof fn lemma_match_grows(a: Seq<Seq<char>>, b: Seq<Seq<char>>)
    requires
        signals_among(a, b),
    ensures
        forall|id: Seq<char>| #[trigger]
            static_match(id, lowered_all(a)) ==> static_match(id, lowered_all(b)),
{
    let low_a = lowered_all(a);
    let low_b = lowered_all(b);
    assert forall|x: Seq<char>| #[trigger] any_contains(low_a, x) implies any_contains(low_b, x) by {
        let i = choose|i: int| 0 <= i < low_a.len() && contains_text(#[trigger] low_a[i], x);
        let j = lemma_among(a, b, i);
        assert(contains_text(low_b[j], x));
    }
    assert forall|x: Seq<char>, y: Seq<char>| #[trigger]
        any_contains_both(low_a, x, y) implies any_contains_both(low_b, x, y) by {
        let i = choose|i: int|
            0 <= i < low_a.len() && contains_text(#[trigger] low_a[i], x) && contains_text(
                low_a[i],
                y,
            );
        let j = lemma_among(a, b, i);
        assert(contains_text(low_b[j], x) && contains_text(low_b[j], y));
    }
}

proof fn lemma_share(w: Score)
    ensures
        Score::one().difference(w.lesser(Score::of_hundredths(95))).in_unit(),
{
    lemma_ratio_capped(95, 100, 1);
    lemma_one_power();
    let least = w.lesser(Score::of_hundredths(95));
    assert(least.units <= ONE_UNITS);
    lemma_rounded_capped((ONE_UNITS - least.units) as nat, ONE_UNITS as nat);
}

/// Where every rule that fires on `s` fires on `t`, `t` leaves no more unexplained.
proof fn lemma_hits_grow(rules: Seq<RuleView>, s: Seq<Seq<char>>, t: Seq<Seq<char>>)
    requires
        forall|id: Seq<char>| #[trigger] static_match(id, s) ==> static_match(id, t),
    ensures
        static_hits(rules, s).len() <= static_hits(rules, t).len() <= rules.len(),
        residual_of(weights_of(static_hits(rules, t))).units <= residual_of(
            weights_of(static_hits(rules, s)),
        ).units <= ONE_UNITS,
        forall|k: int|
            0 <= k < static_hits(rules, s).len() ==> static_hits(rules, t).contains(
                #[trigger] static_hits(rules, s)[k],
            ),
    decreases rules.len(),
{
    if rules.len() > 0 {
        let front = rules.drop_last();
        let rule = rules.last();
        lemma_hits_grow(front, s, t);
        lemma_share(rule.weight);
        let few = static_hits(front, s);
        let many = static_hits(front, t);
        let left_few = residual_of(weights_of(few));
        let left_many = residual_of(weights_of(many));
        let share = Score::one().difference(rule.weight.lesser(Score::of_hundredths(95)));
        assert(weights_of(few.push(rule)).drop_last() =~= weights_of(few));
        assert(weights_of(many.push(rule)).drop_last() =~= weights_of(many));
        lemma_product_capped(left_few.units as nat, share.units as nat);
        lemma_product_capped(left_many.units as nat, share.units as nat);
        if static_match(rule.id, s) {
            lemma_product_monotone(
                left_many.units as nat,
                share.units as nat,
                left_few.units as nat,
                share.units as nat,
            );
        } else if static_match(rule.id, t) {
            let weights = weights_of(few);
            if weights.len() > 0 {
                let before = residual_of(weights.drop_last());
                let last = Score::one().difference(
                    weights.last().lesser(Score::of_hundredths(95)),
                );
                lemma_residual_in_unit(weights.drop_last());
                lemma_share(weights.last());
                lemma_product_capped(before.units as nat, last.units as nat);
                lemma_product_shrinks(
                    before.units as nat,
                    last.units as nat,
                    left_many.units as nat,
                    share.units as nat,
                );
            }
        }
        let all_few = static_hits(rules, s);
        let all_many = static_hits(rules, t);
        assert forall|k: int| 0 <= k < all_few.len() implies all_many.contains(
            #[trigger] all_few[k],
        ) by {
            if k < few.len() {
                assert(many.contains(few[k]));
                let j = choose|j: int| 0 <= j < many.len() && many[j] == few[k];
                assert(all_many[j] == all_few[k]);
            } else {
                assert(all_many[many.len() as int] == rule);
            }
        }
    }
}

proof fn lemma_residual_in_unit(weights: Seq<Score>)
    ensures
        residual_of(weights).in_unit(),
    decreases weights.len(),
{
    if weights.len() > 0 {
        lemma_residual_in_unit(weights.drop_last());
        lemma_share(weights.last());
        let share = Score::one().difference(weights.last().lesser(Score::of_hundredths(95)));
        lemma_product_capped(residual_of(weights.drop_last()).units as nat, share.units as nat);
    }
}

/// The bonus for corroboration before it is capped.
spec fn bonus(count: nat) -> Score {
    Score { units: ((count - 1) * ONE_UNITS) as u128 }.product(Score::of_ratio(25, 1000))
}

proof fn lemma_bonus_grows(few: nat, many: nat)
    requires
        1 <= few <= many <= 64,
    ensures
        bonus(few).units <= bonus(many).units,
{
    lemma_ratio_capped(25, 1000, 1);
    let rate = Score::of_ratio(25, 1000).units as nat;
    let a = ((few - 1) * ONE_UNITS) as nat;
    let b = ((many - 1) * ONE_UNITS) as nat;
    assert(a <= b <= 63 * ONE_UNITS);
    lemma_product_monotone(a, rate, b, rate);
    lemma_product_bound(b, rate);
    let p = crate::score::product_units(b, rate);
    assert(p <= 127 * ONE_UNITS) by (nonlinear_arith)
        requires
            p * ONE_UNITS <= 2 * (b * rate) + ONE_UNITS,
            b <= 63 * ONE_UNITS,
            rate <= ONE_UNITS,
            ONE_UNITS >= 1,
    ;
}

/// Less that is unexplained, and no fewer weights, give no smaller score.
proof fn lemma_calibrated_grows(few: Seq<Score>, many: Seq<Score>)
    requires
        few.len() <= many.len() <= 64,
        residual_of(many).units <= residual_of(few).units <= ONE_UNITS,
    ensures
        calibrated(few).units <= calibrated(many).units,
{
    if few.len() > 0 {
        lemma_one_power();
        lemma_bonus_grows(few.len(), many.len());
        let tenth = Score::of_hundredths(10);
        lemma_ratio_capped(10, 100, 1);
        let low = (ONE_UNITS - residual_of(few).units) as nat;
        let high = (ONE_UNITS - residual_of(many).units) as nat;
        lemma_rounded_monotone(low, high);
        lemma_rounded_capped(low, ONE_UNITS as nat);
        lemma_rounded_capped(high, ONE_UNITS as nat);
        let bonus_few = bonus(few.len()).lesser(tenth);
        let bonus_many = bonus(many.len()).lesser(tenth);
        let one = Score::one();
        let sum_few = (one.difference(residual_of(few)).units + bonus_few.units) as nat;
        let sum_many = (one.difference(residual_of(many)).units + bonus_many.units) as nat;
        assert(sum_few <= sum_many <= 2 * ONE_UNITS);
        lemma_rounded_monotone(sum_few, sum_many);
        lemma_rounded_bound(sum_many);
    }
}

/// More signals never lower the score, and lose no indicator.
pub proof fn law_more_signals_score_no_less(a: Seq<Seq<char>>, b: Seq<Seq<char>>)
    requires
        signals_among(a, b),
    ensures
        ({
            let few = static_hits(static_rules(), lowered_all(a));
            let many = static_hits(static_rules(), lowered_all(b));
            &&& calibrated(weights_of(few)).units <= calibrated(weights_of(many)).units
            &&& forall|t: Seq<char>| #[trigger]
                descriptions_of(few).contains(t) ==> descriptions_of(many).contains(t)
        }),
{
    let few = static_hits(static_rules(), lowered_all(a));
    let many = static_hits(static_rules(), lowered_all(b));
    lemma_match_grows(a, b);
    lemma_hits_grow(static_rules(), lowered_all(a), lowered_all(b));
    lemma_calibrated_grows(weights_of(few), weights_of(many));
    assert forall|t: Seq<char>| #[trigger] descriptions_of(few).contains(t) implies descriptions_of(
        many,
    ).contains(t) by {
        let k = choose|k: int| 0 <= k < few.len() && descriptions_of(few)[k] == t;
        assert(many.contains(few[k]));
        let j = choose|j: int| 0 <= j < many.len() && many[j] == few[k];
        assert(descriptions_of(many)[j] == t);
    }
}

proof fn lemma_same_hits(rules: Seq<RuleView>, s: Seq<Seq<char>>, t: Seq<Seq<char>>)
    requires
        forall|id: Seq<char>| static_match(id, s) == static_match(id, t),
    ensures
        static_hits(rules, s) == static_hits(rules, t),
    decreases rules.len(),
{
    if rules.len() > 0 {
        lemma_same_hits(rules.drop_last(), s, t);
    }
}

/// Neither order nor repetition nor ASCII case of the signals counts.
pub proof fn law_same_signals_same_result(a: Seq<Seq<char>>, b: Seq<Seq<char>>)
    requires
        signals_among(a, b),
        signals_among(b, a),
    ensures
        static_hits(static_rules(), lowered_all(a)) == static_hits(
            static_rules(),
            lowered_all(b),
        ),
{
    lemma_match_grows(a, b);
    lemma_match_grows(b, a);
    lemma_same_hits(static_rules(), lowered_all(a), lowered_all(b));
}

/// `part` takes its items from `whole` at the places `at`, from first to last.
pub open spec fn taken_in_order(part: Seq<RuleView>, whole: Seq<RuleView>, at: Seq<int>) -> bool {
    &&& at.len() == part.len()
    &&& forall|i: int|
        0 <= i < at.len() ==> 0 <= #[trigger] at[i] < whole.len() && whole[at[i]] == part[i]
    &&& forall|i: int, j: int| 0 <= i < j < at.len() ==> #[trigger] at[i] < #[trigger] at[j]
}

proof fn lemma_hits_in_order(rules: Seq<RuleView>, s: Seq<Seq<char>>) -> (at: Seq<int>)
    ensures
        taken_in_order(static_hits(rules, s), rules, at),
    decreases rules.len(),
{
    if rules.len() == 0 {
        Seq::empty()
    } else {
        let front = rules.drop_last();
        let at = lemma_hits_in_order(front, s);
        if static_match(rules.last().id, s) {
            at.push(rules.len() - 1)
        } else {
            at
        }
    }
}

/// The place of a rule in the rulebook, told by the length and the first character of its
/// description.
spec fn description_place(d: Seq<char>) -> int {
    if d.len() == 31 {
        7
    } else if d.len() == 41 {
        6
    } else if d.len() == 44 {
        10
    } else if d.len() == 45 {
        3
    } else if d.len() == 47 {
        5
    } else if d.len() == 50 {
        22
    } else if d.len() == 52 {
        12
    } else if d.len() == 54 && d[0] == 'V' {
        13
    } else if d.len() == 54 && d[0] == 'O' {
        17
    } else if d.len() == 55 {
        18
    } else if d.len() == 56 {
        9
    } else if d.len() == 57 {
        0
    } else if d.len() == 58 {
        16
    } else if d.len() == 59 && d[0] == 'S' {
        1
    } else if d.len() == 59 && d[0] == 'I' {
        8
    } else if d.len() == 59 && d[0] == 'E' {
        21
    } else if d.len() == 60 {
        19
    } else if d.len() == 62 {
        31
    } else if d.len() == 64 {
        15
    } else if d.len() == 65 && d[0] == 'O' {
        4
    } else if d.len() == 65 && d[0] == 'L' {
        11
    } else if d.len() == 65 && d[0] == 'A' {
        30
    } else if d.len() == 69 {
        2
    } else if d.len() == 73 && d[0] == 'S' {
        28
    } else if d.len() == 73 && d[0] == 'F' {
        32
    } else if d.len() == 76 {
        27
    } else if d.len() == 77 {
        14
    } else if d.len() == 79 {
        24
    } else if d.len() == 80 {
        23
    } else if d.len() == 81 {
        25
    } else if d.len() == 89 {
        26
    } else if d.len() == 91 {
        20
    } else if d.len() == 122 {
        29
    } else {
        -1
    }
}

proof fn lemma_descriptions_differ()
    ensures
        static_rules().len() == 33,
        forall|i: int|
            0 <= i < 33 ==> description_place(#[trigger] static_rules()[i].description) == i,
{
    reveal_strlit("Executable contains an unusually large number of sections");
    reveal_strlit("Section entropy is consistent with packed or encrypted data");
    reveal_strlit("A flat high-entropy profile is consistent with encrypted payload data");
    reveal_strlit("A known executable packer marker was detected");
    reveal_strlit("Obfuscated command or network strings decode to high-risk content");
    reveal_strlit("A bounded decode revealed an embedded PE header");
    reveal_strlit("Section has write and execute permissions");
    reveal_strlit("TLS callback table is populated");
    reveal_strlit("Imports expose memory, injection, or dynamic API resolution");
    reveal_strlit("Executable timestamp is missing, stale, or in the future");
    reveal_strlit("Entry point is outside an executable section");
    reveal_strlit("Load segment is simultaneously readable, writable, and executable");
    reveal_strlit("Executable imports an unusually large dependency set");
    reveal_strlit("VirtualAlloc + WriteProcessMemory + CreateRemoteThread");
    reveal_strlit(
        "Process-memory manipulation is combined with deletion or registry persistence",
    );
    reveal_strlit("Compiler/toolchain metadata is unusual for the claimed build age");
    reveal_strlit("CryptAcquireContext + CryptEncrypt + DeleteFile / MoveFile");
    reveal_strlit("OpenProcessToken + AdjustTokenPrivileges + OpenProcess");
    reveal_strlit("SetWindowsHookEx + GetAsyncKeyState or keyboard capture");
    reveal_strlit("GetProcAddress + LoadLibrary usage for native API resolution");
    reveal_strlit(
        "Proxy-DLL side-loading artifacts are combined with in-memory execution or process injection",
    );
    reveal_strlit("Embedded PE or encrypted block inside resource/data section");
    reveal_strlit("Unsigned or invalid signature or mismatched issuer");
    reveal_strlit(
        "Windows thread-pool scheduling is combined with dynamic memory or API resolution",
    );
    reveal_strlit(
        "Window enumeration or exported callback is combined with in-memory code loading",
    );
    reveal_strlit(
        "Vulnerable security driver marker is combined with process-termination capability",
    );
    reveal_strlit(
        "AMSI/ETW or Defender configuration is modified together with execution or service control",
    );
    reveal_strlit("Known UAC-bypass target is combined with process creation or shell execution");
    reveal_strlit("Startup, scheduled-task, or service persistence indicators occur together");
    reveal_strlit(
        "Clipboard or foreground-window text access is combined with credential-store artifacts and collection/exfiltration support",
    );
    reveal_strlit("A second PE image is embedded in a non-trivial executable payload");
    reveal_strlit("Large high-entropy overlay data is appended after the PE image");
    reveal_strlit("Filename uses right-to-left override characters to disguise its extension");
    assert forall|i: int| 0 <= i < 33 implies description_place(
        #[trigger] static_rules()[i].description,
    ) == i by {
        if i == 0 {
            assert(description_place(static_rules()[0].description) == 0);
        } else if i == 1 {
            assert(description_place(static_rules()[1].description) == 1);
        } else if i == 2 {
            assert(description_place(static_rules()[2].description) == 2);
        } else if i == 3 {
            assert(description_place(static_rules()[3].description) == 3);
        } else if i == 4 {
            assert(description_place(static_rules()[4].description) == 4);
        } else if i == 5 {
            assert(description_place(static_rules()[5].description) == 5);
        } else if i == 6 {
            assert(description_place(static_rules()[6].description) == 6);
        } else if i == 7 {
            assert(description_place(static_rules()[7].description) == 7);
        } else if i == 8 {
            assert(description_place(static_rules()[8].description) == 8);
        } else if i == 9 {
            assert(description_place(static_rules()[9].description) == 9);
        } else if i == 10 {
            assert(description_place(static_rules()[10].description) == 10);
        } else if i == 11 {
            assert(description_place(static_rules()[11].description) == 11);
        } else if i == 12 {
            assert(description_place(static_rules()[12].description) == 12);
        } else if i == 13 {
            assert(description_place(static_rules()[13].description) == 13);
        } else if i == 14 {
            assert(description_place(static_rules()[14].description) == 14);
        } else if i == 15 {
            assert(description_place(static_rules()[15].description) == 15);
        } else if i == 16 {
            assert(description_place(static_rules()[16].description) == 16);
        } else if i == 17 {
            assert(description_place(static_rules()[17].description) == 17);
        } else if i == 18 {
            assert(description_place(static_rules()[18].description) == 18);
        } else if i == 19 {
            assert(description_place(static_rules()[19].description) == 19);
        } else if i == 20 {
            assert(description_place(static_rules()[20].description) == 20);
        } else if i == 21 {
            assert(description_place(static_rules()[21].description) == 21);
        } else if i == 22 {
            assert(description_place(static_rules()[22].description) == 22);
        } else if i == 23 {
            assert(description_place(static_rules()[23].description) == 23);
        } else if i == 24 {
            assert(description_place(static_rules()[24].description) == 24);
        } else if i == 25 {
            assert(description_place(static_rules()[25].description) == 25);
        } else if i == 26 {
            assert(description_place(static_rules()[26].description) == 26);
        } else if i == 27 {
            assert(description_place(static_rules()[27].description) == 27);
        } else if i == 28 {
            assert(description_place(static_rules()[28].description) == 28);
        } else if i == 29 {
            assert(description_place(static_rules()[29].description) == 29);
        } else if i == 30 {
            assert(description_place(static_rules()[30].description) == 30);
        } else if i == 31 {
            assert(description_place(static_rules()[31].description) == 31);
        } else if i == 32 {
            assert(description_place(static_rules()[32].description) == 32);
        }
    }
}

/// Indicators are descriptions of rules, in the order of the rulebook, each once.
pub proof fn law_indicators_follow_the_rulebook(s: Seq<Seq<char>>)
    ensures
        exists|at: Seq<int>|
            taken_in_order(static_hits(static_rules(), s), static_rules(), at),
        descriptions_of(static_hits(static_rules(), s)).no_duplicates(),
{
    let hits = static_hits(static_rules(), s);
    let at = lemma_hits_in_order(static_rules(), s);
    lemma_descriptions_differ();
    let texts = descriptions_of(hits);
    assert forall|i: int, j: int|
        0 <= i < texts.len() && 0 <= j < texts.len() && i != j implies texts[i] != texts[j] by {
        assert(at[i] != at[j]);
        assert(texts[i] == static_rules()[at[i]].description);
        assert(texts[j] == static_rules()[at[j]].description);
    }
}

/// Without signals there is neither a score nor an indicator.
pub proof fn law_no_signals_no_score()
    ensures
        ({
            let hits = static_hits(static_rules(), lowered_all(Seq::<Seq<char>>::empty()));
            calibrated(weights_of(hits)) == Score::zero() && descriptions_of(hits).len() == 0
        }),
{
    let none = lowered_all(Seq::<Seq<char>>::empty());
    lemma_no_hits(static_rules(), none);
}

proof fn lemma_no_hits(rules: Seq<RuleView>, s: Seq<Seq<char>>)
    requires
        s.len() == 0,
    ensures
        static_hits(rules, s).len() == 0,
    decreases rules.len(),
{
    if rules.len() > 0 {
        lemma_no_hits(rules.drop_last(), s);
    }
}

} // verus!
