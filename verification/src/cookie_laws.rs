//! What the cookie guard must condemn, and what it must leave alone.

use crate::bytes::holds_narrow;
use crate::cookie_guard::{
    base_name, browser_process, candidate_path, cookie_store_path, cookie_tool, file_score,
    mentions, normalized_path, signal_score, signal_terms, term_if, CookieSignals,
};
use crate::paths::extension_in;
use crate::score::{lemma_rounded_close, rounded, sum_terms, Score, ONE_UNITS};
use crate::score_laws::{
    law_more_terms_sum_no_less, lemma_among_itself, lemma_among_joined, lemma_units_joined,
    terms_among,
};
use crate::text::{contains_text, lower_char, lowered};
use crate::total::{total_units, units_of};
use vstd::prelude::*;

verus! {

/// Terms of one at most add up as exact sums do.
proof fn lemma_sum_is_total(terms: Seq<Score>)
    requires
        terms.len() <= 16,
        forall|i: int| 0 <= i < terms.len() ==> (#[trigger] terms[i]).units <= ONE_UNITS,
    ensures
        sum_terms(terms).units == total_units(units_of(terms)),
        total_units(units_of(terms)) <= 2 * terms.len() * ONE_UNITS,
    decreases terms.len(),
{
    if terms.len() > 0 {
        let front = terms.drop_last();
        assert forall|i: int| 0 <= i < front.len() implies (#[trigger] front[i]).units
            <= ONE_UNITS by {
            assert(front[i] == terms[i]);
        }
        lemma_sum_is_total(front);
        assert(units_of(terms).drop_last() =~= units_of(front));
        assert(terms[terms.len() - 1] == terms.last());
        let n = total_units(units_of(front)) + terms.last().units as nat;
        lemma_rounded_close(n);
        assert(n <= 33 * ONE_UNITS);
    }
}

proof fn lemma_term_grows(few: bool, many: bool, hundredths: nat)
    requires
        few ==> many,
    ensures
        terms_among(units_of(term_if(few, hundredths)), units_of(term_if(many, hundredths))),
{
    let a = units_of(term_if(few, hundredths));
    let b = units_of(term_if(many, hundredths));
    lemma_among_itself(b);
    if !few {
        assert(a =~= Seq::empty());
    }
}

/// Every signal of one is a signal of the other.
pub open spec fn signals_among(s: CookieSignals, t: CookieSignals) -> bool {
    &&& s.known_tool ==> t.known_tool
    &&& s.store_reference ==> t.store_reference
    &&& s.credential_api ==> t.credential_api
    &&& s.collection ==> t.collection
    &&& s.exfiltration ==> t.exfiltration
    &&& s.archive ==> t.archive
    &&& s.credential_store ==> t.credential_store
    &&& s.decryption ==> t.decryption
    &&& s.telegram ==> t.telegram
}

proof fn lemma_weights_in_unit()
    ensures
        Score::of_hundredths(12).units <= ONE_UNITS,
        Score::of_hundredths(15).units <= ONE_UNITS,
        Score::of_hundredths(24).units <= ONE_UNITS,
        Score::of_hundredths(25).units <= ONE_UNITS,
        Score::of_hundredths(28).units <= ONE_UNITS,
        Score::of_hundredths(45).units <= ONE_UNITS,
        Score::of_hundredths(90).units <= ONE_UNITS,
        Score::of_hundredths(93).units <= ONE_UNITS,
        Score::of_hundredths(86).units <= ONE_UNITS,
{
    crate::score::lemma_one_power();
    crate::score::lemma_ratio_capped(12, 100, 1);
    crate::score::lemma_ratio_capped(15, 100, 1);
    crate::score::lemma_ratio_capped(24, 100, 1);
    crate::score::lemma_ratio_capped(25, 100, 1);
    crate::score::lemma_ratio_capped(28, 100, 1);
    crate::score::lemma_ratio_capped(45, 100, 1);
    crate::score::lemma_ratio_capped(90, 100, 1);
    crate::score::lemma_ratio_capped(93, 100, 1);
    crate::score::lemma_ratio_capped(86, 100, 1);
}

/// No term is above one.
#[verifier::opaque]
spec fn small_terms(terms: Seq<Score>) -> bool {
    forall|i: int| 0 <= i < terms.len() ==> (#[trigger] terms[i]).units <= ONE_UNITS
}

proof fn lemma_small_more(terms: Seq<Score>, condition: bool, hundredths: nat)
    requires
        small_terms(terms),
        Score::of_hundredths(hundredths).units <= ONE_UNITS,
    ensures
        small_terms(terms + term_if(condition, hundredths)),
        (terms + term_if(condition, hundredths)).len() <= terms.len() + 1,
{
    reveal(small_terms);
    let more = terms + term_if(condition, hundredths);
    assert forall|i: int| 0 <= i < more.len() implies (#[trigger] more[i]).units <= ONE_UNITS by {
        if i < terms.len() {
            assert(more[i] == terms[i]);
        }
    }
}

proof fn lemma_signal_terms(s: CookieSignals)
    ensures
        sum_terms(signal_terms(s)).units == total_units(units_of(signal_terms(s))),
{
    lemma_weights_in_unit();
    let a0 = Seq::<Score>::empty();
    assert(small_terms(a0)) by {
        reveal(small_terms);
    }
    lemma_small_more(a0, s.store_reference, 28);
    let a1 = a0 + term_if(s.store_reference, 28);
    lemma_small_more(a1, s.credential_api, 25);
    let a2 = a1 + term_if(s.credential_api, 25);
    lemma_small_more(a2, s.collection, 15);
    let a3 = a2 + term_if(s.collection, 15);
    lemma_small_more(a3, s.exfiltration, 25);
    let a4 = a3 + term_if(s.exfiltration, 25);
    lemma_small_more(a4, s.archive && s.store_reference, 12);
    let a5 = a4 + term_if(s.archive && s.store_reference, 12);
    lemma_small_more(a5, s.known_tool, 45);
    let a6 = a5 + term_if(s.known_tool, 45);
    lemma_small_more(a6, s.credential_store, 24);
    let a7 = a6 + term_if(s.credential_store, 24);
    lemma_small_more(a7, s.decryption, 25);
    let a8 = a7 + term_if(s.decryption, 25);
    lemma_small_more(a8, s.telegram, 15);
    let a9 = a8 + term_if(s.telegram, 15);
    assert(signal_terms(s) == a9);
    lemma_small_sum(a9);
}

proof fn lemma_small_sum(terms: Seq<Score>)
    requires
        small_terms(terms),
        terms.len() <= 16,
    ensures
        sum_terms(terms).units == total_units(units_of(terms)),
{
    reveal(small_terms);
    lemma_sum_is_total(terms);
}

/// The terms of one are among those of the other.
#[verifier::opaque]
spec fn grows(few: Seq<Score>, many: Seq<Score>) -> bool {
    terms_among(units_of(few), units_of(many))
}

proof fn lemma_grows_joined(a: Seq<Score>, b: Seq<Score>, c: Seq<Score>, d: Seq<Score>)
    requires
        grows(a, b),
        grows(c, d),
    ensures
        grows(a + c, b + d),
{
    reveal(grows);
    lemma_units_joined(a, c);
    lemma_units_joined(b, d);
    lemma_among_joined(units_of(a), units_of(b), units_of(c), units_of(d));
}

proof fn lemma_grows_all(few: Seq<Seq<Score>>, many: Seq<Seq<Score>>)
    requires
        few.len() == many.len(),
        forall|i: int| 0 <= i < few.len() ==> grows(#[trigger] few[i], many[i]),
    ensures
        grows(flat(few), flat(many)),
    decreases few.len(),
{
    if few.len() == 0 {
        reveal(grows);
        lemma_among_itself(units_of(Seq::<Score>::empty()));
    } else {
        let n = few.len() - 1;
        assert forall|i: int| 0 <= i < n implies grows(
            #[trigger] few.drop_last()[i],
            many.drop_last()[i],
        ) by {
            assert(grows(few[i], many[i]));
        }
        lemma_grows_all(few.drop_last(), many.drop_last());
        assert(grows(few[n], many[n]));
        lemma_grows_joined(
            flat(few.drop_last()),
            flat(many.drop_last()),
            few.last(),
            many.last(),
        );
    }
}

/// The parts one behind another.
spec fn flat(parts: Seq<Seq<Score>>) -> Seq<Score>
    decreases parts.len(),
{
    if parts.len() == 0 {
        Seq::empty()
    } else {
        flat(parts.drop_last()) + parts.last()
    }
}

spec fn parts_of(s: CookieSignals) -> Seq<Seq<Score>> {
    seq![
        term_if(s.store_reference, 28),
        term_if(s.credential_api, 25),
        term_if(s.collection, 15),
        term_if(s.exfiltration, 25),
        term_if(s.archive && s.store_reference, 12),
        term_if(s.known_tool, 45),
        term_if(s.credential_store, 24),
        term_if(s.decryption, 25),
        term_if(s.telegram, 15),
    ]
}

proof fn lemma_parts(s: CookieSignals)
    ensures
        flat(parts_of(s)) == signal_terms(s),
{
    let parts = parts_of(s);
    assert(parts.take(9).drop_last() =~= parts.take(8));
    assert(parts.take(8).drop_last() =~= parts.take(7));
    assert(parts.take(7).drop_last() =~= parts.take(6));
    assert(parts.take(6).drop_last() =~= parts.take(5));
    assert(parts.take(5).drop_last() =~= parts.take(4));
    assert(parts.take(4).drop_last() =~= parts.take(3));
    assert(parts.take(3).drop_last() =~= parts.take(2));
    assert(parts.take(2).drop_last() =~= parts.take(1));
    assert(parts.take(1).drop_last() =~= parts.take(0));
    assert(parts.take(9) =~= parts);
    assert(parts.take(0) =~= Seq::empty());
    reveal_with_fuel(flat, 10);
}

proof fn lemma_terms_grow(s: CookieSignals, t: CookieSignals)
    requires
        signals_among(s, t),
    ensures
        grows(signal_terms(s), signal_terms(t)),
{
    let few = parts_of(s);
    let many = parts_of(t);
    lemma_grows_term(s.store_reference, t.store_reference, 28);
    lemma_grows_term(s.credential_api, t.credential_api, 25);
    lemma_grows_term(s.collection, t.collection, 15);
    lemma_grows_term(s.exfiltration, t.exfiltration, 25);
    lemma_grows_term(s.archive && s.store_reference, t.archive && t.store_reference, 12);
    lemma_grows_term(s.known_tool, t.known_tool, 45);
    lemma_grows_term(s.credential_store, t.credential_store, 24);
    lemma_grows_term(s.decryption, t.decryption, 25);
    lemma_grows_term(s.telegram, t.telegram, 15);
    assert forall|i: int| 0 <= i < few.len() implies grows(#[trigger] few[i], many[i]) by {}
    lemma_grows_all(few, many);
    lemma_parts(s);
    lemma_parts(t);
}

proof fn lemma_grows_term(few: bool, many: bool, hundredths: nat)
    requires
        few ==> many,
    ensures
        grows(term_if(few, hundredths), term_if(many, hundredths)),
{
    reveal(grows);
    lemma_term_grows(few, many, hundredths);
}

/// More signals never score less.
pub proof fn law_more_cookie_signals_score_no_less(s: CookieSignals, t: CookieSignals)
    requires
        signals_among(s, t),
    ensures
        signal_score(s).units <= signal_score(t).units,
{
    lemma_terms_grow(s, t);
    reveal(grows);
    law_more_terms_sum_no_less(units_of(signal_terms(s)), units_of(signal_terms(t)));
    lemma_signal_terms(s);
    lemma_signal_terms(t);
}

/// Signals that together are theft score high: a cookie store with a way to read it and a way
/// out or an archive, or a known tool with either, score 0.9 or more; a credential store that
/// is decrypted and collected or sent scores 0.93 or more; Telegram data that is collected or
/// sent scores 0.86 or more.
pub proof fn law_theft_scores_high(s: CookieSignals)
    ensures
        s.store_reference && s.credential_api && (s.exfiltration || s.archive)
            ==> signal_score(s).units >= Score::of_hundredths(90).units,
        s.known_tool && (s.store_reference || s.credential_api) ==> signal_score(s).units
            >= Score::of_hundredths(90).units,
        s.credential_store && s.decryption && (s.collection || s.exfiltration)
            ==> signal_score(s).units >= Score::of_hundredths(93).units,
        s.telegram && (s.collection || s.exfiltration) ==> signal_score(s).units
            >= Score::of_hundredths(86).units,
{
    lemma_weights_in_unit();
}

/// A signal by itself scores its weight; no signal, or only an archive, scores nothing.
pub proof fn law_single_cookie_signals_score_their_weight(s: CookieSignals)
    requires
        !s.known_tool && !s.store_reference && !s.credential_api && !s.collection
            && !s.exfiltration && !s.archive && !s.credential_store && !s.decryption && !s.telegram,
    ensures
        signal_score(s).units == 0,
        signal_score(CookieSignals { archive: true, ..s }).units == 0,
        signal_score(CookieSignals { store_reference: true, ..s }) == Score::of_hundredths(28),
        signal_score(CookieSignals { credential_api: true, ..s }) == Score::of_hundredths(25),
        signal_score(CookieSignals { collection: true, ..s }) == Score::of_hundredths(15),
        signal_score(CookieSignals { exfiltration: true, ..s }) == Score::of_hundredths(25),
        signal_score(CookieSignals { known_tool: true, ..s }) == Score::of_hundredths(45),
        signal_score(CookieSignals { credential_store: true, ..s }) == Score::of_hundredths(24),
        signal_score(CookieSignals { decryption: true, ..s }) == Score::of_hundredths(25),
        signal_score(CookieSignals { telegram: true, ..s }) == Score::of_hundredths(15),
{
    lemma_weights_in_unit();
    reveal_with_fuel(sum_terms, 2);
    assert(signal_terms(s) =~= Seq::empty());
    assert(signal_terms(CookieSignals { archive: true, ..s }) =~= Seq::empty());
    assert(signal_terms(CookieSignals { store_reference: true, ..s }) =~= seq![Score::of_hundredths(28)]);
    lemma_single(28);
    assert(signal_terms(CookieSignals { credential_api: true, ..s }) =~= seq![Score::of_hundredths(25)]);
    lemma_single(25);
    assert(signal_terms(CookieSignals { collection: true, ..s }) =~= seq![Score::of_hundredths(15)]);
    lemma_single(15);
    assert(signal_terms(CookieSignals { exfiltration: true, ..s }) =~= seq![Score::of_hundredths(25)]);
    lemma_single(25);
    assert(signal_terms(CookieSignals { known_tool: true, ..s }) =~= seq![Score::of_hundredths(45)]);
    lemma_single(45);
    assert(signal_terms(CookieSignals { credential_store: true, ..s }) =~= seq![Score::of_hundredths(24)]);
    lemma_single(24);
    assert(signal_terms(CookieSignals { decryption: true, ..s }) =~= seq![Score::of_hundredths(25)]);
    lemma_single(25);
    assert(signal_terms(CookieSignals { telegram: true, ..s }) =~= seq![Score::of_hundredths(15)]);
    lemma_single(15);
}

proof fn lemma_single(hundredths: nat)
    requires
        hundredths <= 100,
    ensures
        sum_terms(seq![Score::of_hundredths(hundredths)]) == Score::of_hundredths(hundredths),
{
    let one = seq![Score::of_hundredths(hundredths)];
    assert(one.drop_last() =~= Seq::empty());
    crate::score::lemma_one_power();
    crate::score::lemma_ratio_capped(hundredths, 100, 1);
    lemma_ratio_settled(hundredths, 100);
    assert(sum_terms(one.drop_last()) == Score::zero());
    let units = crate::score::ratio_units(hundredths, 100);
    assert(units <= ONE_UNITS);
    assert(0 + units == units);
    assert(sum_terms(one) == Score::zero().sum(one.last()));
}

/// What a fraction is rounded to is a number that rounding leaves alone.
proof fn lemma_ratio_settled(num: nat, den: nat)
    requires
        0 < den,
    ensures
        rounded(crate::score::ratio_units(num, den)) == crate::score::ratio_units(num, den),
{
    let q = num * ONE_UNITS as nat / den;
    let g = crate::score::granule(q);
    let n = num * ONE_UNITS as nat;
    crate::score::lemma_granule_positive(q);
    crate::score::lemma_granule_power(q);
    crate::monotone::lemma_granule_large(q);
    let step = den * g;
    assert(step >= 1) by (nonlinear_arith)
        requires
            step == den * g,
            den >= 1,
            g >= 1,
    ;
    let m = crate::score::nearest(n, step);
    vstd::arithmetic::div_mod::lemma_div_denominator(n as int, den as int, g as int);
    assert(n / step == q / g);
    assert(q / g < 0x100_0000) by (nonlinear_arith)
        requires
            q < 0x100_0000 * g,
            g >= 1,
    ;
    assert(m <= 0x100_0000);
    let v = m * g;
    let t = crate::score::granule(v);
    crate::score::lemma_granule_positive(v);
    crate::score::lemma_granule_power(v);
    if m < 0x100_0000 {
        assert(v < 0x100_0000 * g) by (nonlinear_arith)
            requires
                v == m * g,
                m < 0x100_0000,
                g >= 1,
        ;
        crate::monotone::lemma_granule_below(v, g);
        crate::score::lemma_powers_divide(t, g);
        crate::monotone::lemma_multiple(m, g, t);
    } else {
        assert(v < 0x100_0000 * (2 * g)) by (nonlinear_arith)
            requires
                v == m * g,
                m == 0x100_0000,
                g >= 1,
        ;
        assert(crate::score::is_power_of_two(2 * g));
        crate::monotone::lemma_granule_below(v, 2 * g);
        crate::score::lemma_powers_divide(t, 2 * g);
        assert(v == 0x80_0000 * (2 * g)) by (nonlinear_arith)
            requires
                v == m * g,
                m == 0x100_0000,
        ;
        crate::monotone::lemma_multiple(0x80_0000, 2 * g, t);
    }
    vstd::arithmetic::div_mod::lemma_fundamental_div_mod(v as int, t as int);
    assert(crate::score::nearest(v, t) == v / t);
    assert((v / t) * t == v) by (nonlinear_arith)
        requires
            v == t as int * (v as int / t as int),
    ;
}

/// A file that lies in a browser's cookie store is one, whatever the letter case and whichever
/// slashes its path is written with.
pub proof fn law_cookie_stores_are_told_by_path(path: Seq<char>, other: Seq<char>)
    requires
        path.len() == other.len(),
        forall|i: int|
            0 <= i < path.len() ==> lower_char(#[trigger] path[i]) == lower_char(other[i]) || (
            path[i] == '/' && other[i] == '\\') || (path[i] == '\\' && other[i] == '/'),
    ensures
        cookie_store_path(path) == cookie_store_path(other),
{
    assert(normalized_path(path) =~= normalized_path(other)) by {
        assert forall|i: int| 0 <= i < path.len() implies #[trigger] normalized_path(path)[i]
            == normalized_path(other)[i] by {
            assert(lower_char(path[i]) == lower_char(other[i]) || (path[i] == '/' && other[i]
                == '\\') || (path[i] == '\\' && other[i] == '/'));
        }
    }
}

/// Cookie databases of the Chromium family and of Firefox are stores, wherever they lie, and
/// nothing that lies in one is worth classifying.
pub proof fn law_cookie_databases_are_stores(a: Seq<char>, b: Seq<char>, windows: bool)
    requires
        lowered(a) == a,
        lowered(b) == b,
        !a.contains('/') && !b.contains('/'),
    ensures
        cookie_store_path(a + "\\network\\cookies"@ + b),
        cookie_store_path(a + "\\cookies.sqlite"@ + b),
        !candidate_path(a + "\\network\\cookies"@ + b, windows),
        !candidate_path(a + "\\cookies.sqlite"@ + b, windows),
{
    reveal_strlit("\\network\\cookies");
    reveal_strlit("\\cookies.sqlite");
    lemma_kept_inside(a, "\\network\\cookies"@, b);
    lemma_kept_inside(a, "\\cookies.sqlite"@, b);
}

proof fn lemma_kept_inside(a: Seq<char>, needle: Seq<char>, b: Seq<char>)
    requires
        lowered(a) == a,
        lowered(b) == b,
        !a.contains('/') && !b.contains('/'),
        forall|i: int|
            0 <= i < needle.len() ==> #[trigger] needle[i] != '/' && lower_char(needle[i])
                == needle[i],
    ensures
        contains_text(normalized_path(a + needle + b), needle),
{
    let path = a + needle + b;
    assert(normalized_path(path) =~= path) by {
        assert forall|i: int| 0 <= i < path.len() implies #[trigger] normalized_path(path)[i]
            == path[i] by {
            if i < a.len() {
                assert(path[i] == a[i]);
                assert(a.contains(a[i]));
                assert(lowered(a)[i] == lower_char(a[i]));
            } else if i < a.len() + needle.len() {
                assert(path[i] == needle[i - a.len()]);
            } else {
                let k = i - a.len() - needle.len();
                assert(path[i] == b[k]);
                assert(b.contains(b[k]));
                assert(lowered(b)[k] == lower_char(b[k]));
            }
        }
    }
    crate::text_laws::law_text_is_found_inside(a, needle, b);
}

/// The name behind the last slash, of either kind, is the name of a file.
pub proof fn law_base_name_is_behind_the_last_slash(head: Seq<char>, name: Seq<char>)
    requires
        !name.contains('/') && !name.contains('\\'),
    ensures
        base_name(name) == name,
        base_name(head.push('/') + name) == name,
        base_name(head.push('\\') + name) == name,
    decreases name.len(),
{
    if name.len() == 0 {
        assert(name =~= Seq::empty());
        assert(head.push('/') + name =~= head.push('/'));
        assert(head.push('\\') + name =~= head.push('\\'));
    } else {
        let front = name.drop_last();
        assert(name.contains(name[name.len() - 1]));
        assert(!front.contains('/')) by {
            if front.contains('/') {
                let i = front.index_of('/');
                assert(name[i] == '/');
            }
        }
        assert(!front.contains('\\')) by {
            if front.contains('\\') {
                let i = front.index_of('\\');
                assert(name[i] == '\\');
            }
        }
        law_base_name_is_behind_the_last_slash(head, front);
        assert((head.push('/') + name).drop_last() =~= head.push('/') + front);
        assert((head.push('\\') + name).drop_last() =~= head.push('\\') + front);
        assert(name =~= front.push(name.last()));
    }
}

/// A browser is not condemned for the strings of its own implementation, in whatever
/// directory it lies and however its name is written.
pub proof fn law_browsers_are_left_alone(head: Seq<char>, name: Seq<char>, data: Seq<u8>)
    requires
        lowered(name) == "chrome.exe"@ || lowered(name) == "msedge.exe"@ || lowered(name)
            == "firefox.exe"@ || lowered(name) == "brave.exe"@ || lowered(name) == "opera.exe"@
            || lowered(name) == "vivaldi.exe"@ || lowered(name) == "chromium.exe"@,
        !name.contains('/') && !name.contains('\\'),
        !cookie_tool(head.push('\\') + name),
    ensures
        browser_process(head.push('\\') + name),
        file_score(head.push('\\') + name, data).units == 0,
{
    law_base_name_is_behind_the_last_slash(head, name);
}

/// What a file says is found wherever it stands in it, in single bytes as in two-byte units.
pub proof fn law_mentions_are_found(a: Seq<u8>, data: Seq<u8>, b: Seq<u8>, text: Seq<char>)
    ensures
        holds_narrow(data, text) ==> mentions(a + data + b, text),
        crate::bytes::wide(text).len() > 0 ==> mentions(
            a + crate::bytes::wide(text) + b,
            text,
        ),
{
    if holds_narrow(data, text) {
        crate::text_laws::law_more_bytes_hide_nothing(a, data, b, text);
    }
    if crate::bytes::wide(text).len() > 0 {
        crate::text_laws::law_wide_text_is_found(a, b, text);
    }
}

/// Programs and scripts are looked into, by their extension in whatever case; cookie stores and
/// files without an extension are not.
pub proof fn law_programs_are_looked_into(path: Seq<char>, windows: bool, extension: Seq<char>)
    requires
        extension_in(path, windows) == Some(extension),
        !cookie_store_path(path),
    ensures
        lowered(extension) == "exe"@ || lowered(extension) == "dll"@ || lowered(extension) == "sys"@
            || lowered(extension) == "scr"@ || lowered(extension) == "com"@ || lowered(extension)
            == "bat"@ || lowered(extension) == "cmd"@ || lowered(extension) == "ps1"@ || lowered(
            extension,
        ) == "vbs"@ || lowered(extension) == "js"@ || lowered(extension) == "hta"@ || lowered(
            extension,
        ) == "py"@ || lowered(extension) == "wsf"@ || lowered(extension) == "bin"@ || lowered(
            extension,
        ) == "dat"@ || lowered(extension) == "jse"@ || lowered(extension) == "pyw"@ || lowered(
            extension,
        ) == "vbe"@ || lowered(extension) == "wsc"@ ==> candidate_path(path, windows),
        extension.len() > 3 || extension.len() < 2 ==> !candidate_path(path, windows),
{
    assert(lowered(extension).len() == extension.len());
    reveal_strlit("bat");
    reveal_strlit("bin");
    reveal_strlit("cmd");
    reveal_strlit("com");
    reveal_strlit("dat");
    reveal_strlit("dll");
    reveal_strlit("exe");
    reveal_strlit("hta");
    reveal_strlit("js");
    reveal_strlit("jse");
    reveal_strlit("ps1");
    reveal_strlit("py");
    reveal_strlit("pyw");
    reveal_strlit("scr");
    reveal_strlit("sys");
    reveal_strlit("vbe");
    reveal_strlit("vbs");
    reveal_strlit("wsc");
    reveal_strlit("wsf");
}

/// Cookie stores themselves are never looked into, nor are files without an extension.
pub proof fn law_stores_are_not_looked_into(path: Seq<char>, windows: bool)
    ensures
        cookie_store_path(path) ==> !candidate_path(path, windows),
        extension_in(path, windows) is None ==> !candidate_path(path, windows),
{
}

} // verus!
