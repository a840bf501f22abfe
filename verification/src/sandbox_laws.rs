//! Laws of static predictions.

use crate::monotone::lemma_product_close;
use crate::order::{
    law_sorted_set_unique, lemma_less_irreflexive, sorted_set_of, strictly_sorted,
};
use crate::score::{
    is_power_of_two, lemma_one_power, lemma_product_capped, lemma_ratio_capped,
    lemma_rounded_bound, lemma_rounded_capped, lemma_rounded_close, lemma_rounded_positive,
    product_of, product_units, Score, ONE_UNITS,
};
use crate::static_sandbox::{
    analysed_part, ascii_chars, bonus_of, calibrated, capability_list, complements,
    credential_hits, evasion_hits, family_weights, import_names, injection_hits, is_prediction,
    lemma_bonus_small, lemma_empty_sets, lemma_url_end, network_api, persistence_api,
    persistence_hits, recon_count, scheme_length, share, url_end, url_text, urls_from,
    MAX_REPORTED_URLS,
};
use crate::text::{begins_with, only_if, without_trailing};
use crate::total::lemma_ratio_floor;
use vstd::prelude::*;

verus! {

/// The text begins with the scheme of an address.
pub open spec fn is_address(text: Seq<char>) -> bool {
    begins_with(text, "http://"@) || begins_with(text, "https://"@)
}

/// What stands before a character that stays is not dropped.
proof fn lemma_trailing_keeps(s: Seq<char>, drop: spec_fn(char) -> bool, n: int)
    requires
        0 < n <= s.len(),
        !drop(s[n - 1]),
    ensures
        without_trailing(s, drop).len() >= n,
        without_trailing(s, drop).take(n) == s.take(n),
    decreases s.len(),
{
    if drop(s.last()) {
        lemma_trailing_keeps(s.drop_last(), drop, n);
        assert(s.drop_last().take(n) =~= s.take(n));
    }
}

proof fn lemma_url_is_address(d: Seq<u8>, at: int, end: int)
    requires
        scheme_length(d, at) > 0,
        at + scheme_length(d, at) <= end <= d.len(),
    ensures
        is_address(url_text(d, at, end)),
{
    reveal_strlit("http://");
    reveal_strlit("https://");
    let n = scheme_length(d, at);
    let all = ascii_chars(d.subrange(at, end));
    lemma_trailing_keeps(all, |c: char| c == '.', n);
    let text = url_text(d, at, end);
    assert(text.subrange(0, n) =~= text.take(n));
    if n == 7 {
        assert(all.take(n) =~= "http://"@);
    } else {
        assert(all.take(n) =~= "https://"@);
    }
}

/// There are no more addresses than the limit, and each begins with a scheme.
proof fn lemma_urls(d: Seq<u8>, at: int, found: nat)
    requires
        found <= MAX_REPORTED_URLS,
    ensures
        urls_from(d, at, found).len() + found <= MAX_REPORTED_URLS,
        forall|k: int|
            0 <= k < urls_from(d, at, found).len() ==> is_address(
                #[trigger] urls_from(d, at, found)[k],
            ),
    decreases d.len() - at,
{
    if at < 0 || at + 11 > d.len() || found >= MAX_REPORTED_URLS {
    } else if scheme_length(d, at) == 0 {
        lemma_urls(d, at + 1, found);
    } else {
        let host = at + scheme_length(d, at);
        let end = url_end(d, host);
        lemma_url_end(d, host);
        lemma_url_is_address(d, at, end);
        lemma_urls(d, end, found);
        if found < MAX_REPORTED_URLS {
            lemma_urls(d, end, found + 1);
        }
        let rest = urls_from(d, end, found + 1);
        let all = urls_from(d, at, found);
        assert forall|k: int| 0 <= k < all.len() implies is_address(#[trigger] all[k]) by {
            if all == seq![url_text(d, at, end)] + rest && k > 0 {
                assert(all[k] == rest[k - 1]);
            }
        }
    }
}

/// A sorted set holds nothing twice, and no more than the list that it is made of.
proof fn lemma_set_is_no_longer(sorted: Seq<Seq<char>>, items: Seq<Seq<char>>)
    requires
        sorted_set_of(sorted, items),
    ensures
        sorted.no_duplicates(),
        sorted.len() <= items.len(),
{
    assert forall|i: int, j: int|
        0 <= i < sorted.len() && 0 <= j < sorted.len() && i != j implies sorted[i] != sorted[j] by {
        lemma_less_irreflexive(sorted[i]);
        if i > j {
            assert(sorted[j] != sorted[i]);
        }
    }
    sorted.unique_seq_to_set();
    items.lemma_cardinality_of_set();
    vstd::seq_lib::seq_to_set_is_finite(items);
    assert forall|t: Seq<char>| sorted.to_set().contains(t) implies items.to_set().contains(t) by {
        assert(sorted.contains(t));
        assert(items.contains(t));
    }
    vstd::set_lib::lemma_len_subset(sorted.to_set(), items.to_set());
}

/// A weight that counts is neither tiny nor above one.
spec fn is_weight(w: Score) -> bool {
    w.units == 0 || ONE_UNITS / 100 <= w.units <= ONE_UNITS
}

proof fn lemma_hundredths(h: nat)
    requires
        10 <= h <= 100,
    ensures
        ONE_UNITS / 16 <= Score::of_hundredths(h).units <= ONE_UNITS,
        h >= 50 ==> ONE_UNITS / 2 <= Score::of_hundredths(h).units,
{
    lemma_ratio_capped(h, 100, 1);
    lemma_one_power();
    reveal_with_fuel(is_power_of_two, 62);
    lemma_ratio_floor(h, 100, (ONE_UNITS / 16) as nat);
    if h >= 50 {
        lemma_ratio_floor(h, 100, (ONE_UNITS / 2) as nat);
    }
}

proof fn lemma_share_counts(weight: nat, part: nat)
    requires
        10 <= weight <= 100,
        50 <= part <= 100,
    ensures
        ONE_UNITS / 100 <= share(weight, part).units <= ONE_UNITS,
{
    lemma_hundredths(weight);
    lemma_hundredths(part);
    let a = Score::of_hundredths(weight).units as nat;
    let b = Score::of_hundredths(part).units as nat;
    lemma_product_capped(a, b);
    lemma_product_close(a, b);
    let p = product_units(a, b);
    assert(p >= ONE_UNITS / 100) by (nonlinear_arith)
        requires
            0x80_0000 * (a * b) <= 0x80_0000 * (p * ONE_UNITS) + a * b + 0x80_0000 * ONE_UNITS,
            a >= ONE_UNITS / 16,
            b >= ONE_UNITS / 2,
            ONE_UNITS == 0x1000_0000_0000_0000,
    ;
}

/// A family counts exactly where it has a capability.
proof fn lemma_family_weights(imports: Seq<Seq<char>>, d: Seq<u8>)
    ensures
        ({
            let weights = family_weights(imports, d);
            &&& weights.len() == 6
            &&& forall|i: int| 0 <= i < 6 ==> is_weight(#[trigger] weights[i])
            &&& capability_list(imports, d).len() == 0 <==> forall|i: int|
                0 <= i < 6 ==> (#[trigger] weights[i]).units == 0
        }),
{
    let weights = family_weights(imports, d);
    lemma_hundredths(30);
    lemma_hundredths(25);
    lemma_hundredths(20);
    lemma_hundredths(15);
    lemma_hundredths(10);
    lemma_share_counts(30, 60);
    lemma_share_counts(25, 70);
    lemma_share_counts(20, 50);
    lemma_share_counts(10, 70);
    let urls = urls_from(d, 0, 0).len();
    assert((weights[0].units == 0) == (injection_hits(imports).len() == 0));
    assert((weights[1].units == 0) == (persistence_hits(d).len() == 0 && !persistence_api(
        imports,
    )));
    assert((weights[2].units == 0) == (credential_hits(imports, d).len() == 0));
    assert((weights[3].units == 0) == (urls == 0 && !network_api(imports)));
    assert((weights[4].units == 0) == (evasion_hits(imports, d).len() == 0));
    assert((weights[5].units == 0) == (recon_count(imports) == 0));
    let registry = only_if(persistence_api(imports), "persistence:registry_api"@);
    let network = only_if(urls > 0 || network_api(imports), "network:c2_endpoints"@);
    let recon = only_if(recon_count(imports) > 0, "recon:system_discovery"@);
    assert(capability_list(imports, d).len() == injection_hits(imports).len() + persistence_hits(
        d,
    ).len() + registry.len() + credential_hits(imports, d).len() + network.len() + evasion_hits(
        imports,
        d,
    ).len() + recon.len());
}

/// What a weight that counts leaves is clearly below one.
spec fn is_complement(c: Score) -> bool {
    200 * c.units <= 199 * ONE_UNITS
}

proof fn lemma_complements(weights: Seq<Score>)
    requires
        forall|i: int| 0 <= i < weights.len() ==> is_weight(#[trigger] weights[i]),
    ensures
        complements(weights).len() <= weights.len(),
        forall|k: int|
            0 <= k < complements(weights).len() ==> is_complement(
                #[trigger] complements(weights)[k],
            ),
        complements(weights).len() == 0 <==> forall|i: int|
            0 <= i < weights.len() ==> (#[trigger] weights[i]).units == 0,
    decreases weights.len(),
{
    if weights.len() > 0 {
        let front = weights.drop_last();
        let w = weights.last();
        assert forall|i: int| 0 <= i < front.len() implies is_weight(#[trigger] front[i]) by {
            assert(front[i] == weights[i]);
        }
        lemma_complements(front);
        assert(weights[weights.len() - 1] == w);
        if w.units > 0 {
            let n = (ONE_UNITS - w.units) as nat;
            lemma_one_power();
            lemma_rounded_capped(n, ONE_UNITS as nat);
            lemma_rounded_close(n);
            assert(is_complement(Score::one().difference(w)));
            assert(complements(weights).len() > 0);
        } else {
            assert(complements(weights) == complements(front));
            if complements(front).len() == 0 {
                assert forall|i: int| 0 <= i < weights.len() implies (
                #[trigger] weights[i]).units == 0 by {
                    if i < front.len() {
                        assert(front[i] == weights[i]);
                    }
                }
            } else {
                let i = choose|i: int| 0 <= i < front.len() && (#[trigger] front[i]).units != 0;
                assert(weights[i].units != 0);
            }
        }
    }
}

proof fn lemma_products_capped(parts: Seq<Score>)
    requires
        forall|k: int| 0 <= k < parts.len() ==> is_complement(#[trigger] parts[k]),
    ensures
        product_of(parts).in_unit(),
        parts.len() > 0 ==> product_of(parts).units < ONE_UNITS,
    decreases parts.len(),
{
    if parts.len() > 0 {
        let front = parts.drop_last();
        assert forall|k: int| 0 <= k < front.len() implies is_complement(#[trigger] front[k]) by {
            assert(front[k] == parts[k]);
        }
        lemma_products_capped(front);
        assert(is_complement(parts[parts.len() - 1]));
        let a = product_of(front).units as nat;
        let b = parts.last().units as nat;
        lemma_product_capped(a, b);
        lemma_product_close(a, b);
        let p = product_units(a, b);
        assert(p < ONE_UNITS) by (nonlinear_arith)
            requires
                0x80_0000 * (p * ONE_UNITS) <= 0x80_0000 * (a * b) + a * b + 0x80_0000 * ONE_UNITS,
                a <= ONE_UNITS,
                200 * b <= 199 * ONE_UNITS,
                ONE_UNITS == 0x1000_0000_0000_0000,
        ;
    }
}

/// The score is zero exactly where no weight counts, and never above its cap.
proof fn lemma_calibrated_positive(weights: Seq<Score>)
    requires
        weights.len() == 6,
        forall|i: int| 0 <= i < weights.len() ==> is_weight(#[trigger] weights[i]),
    ensures
        calibrated(weights).units <= Score::of_hundredths(95).units,
        calibrated(weights) == Score::zero() <==> forall|i: int|
            0 <= i < 6 ==> (#[trigger] weights[i]).units == 0,
{
    let parts = complements(weights);
    lemma_complements(weights);
    lemma_hundredths(95);
    if parts.len() > 0 {
        lemma_products_capped(parts);
        lemma_one_power();
        let left = (ONE_UNITS - product_of(parts).units) as nat;
        lemma_rounded_capped(left, ONE_UNITS as nat);
        lemma_rounded_positive(left);
        let extra = (parts.len() - 1) as nat;
        lemma_bonus_small(extra);
        let sum = (Score::one().difference(product_of(parts)).units + bonus_of(extra).units) as nat;
        lemma_rounded_positive(sum);
        lemma_rounded_bound(sum);
    }
}

/// A prediction hangs together: capabilities and addresses are sorted and hold nothing twice,
/// there are no more addresses than the limit and each begins with a scheme, addresses make
/// for a network capability, and the score is capped and zero exactly without capabilities.
pub proof fn law_prediction_hangs_together(
    bytes: Seq<u8>,
    capabilities: Seq<Seq<char>>,
    network_indicators: Seq<Seq<char>>,
    score: Score,
)
    requires
        is_prediction(bytes, capabilities, network_indicators, score),
    ensures
        strictly_sorted(capabilities),
        strictly_sorted(network_indicators),
        capabilities.no_duplicates(),
        network_indicators.no_duplicates(),
        network_indicators.len() <= MAX_REPORTED_URLS,
        forall|k: int|
            0 <= k < network_indicators.len() ==> is_address(#[trigger] network_indicators[k]),
        network_indicators.len() > 0 ==> capabilities.contains("network:c2_endpoints"@),
        score.units <= Score::of_hundredths(95).units,
        score == Score::zero() <==> capabilities.len() == 0,
{
    let d = analysed_part(bytes);
    let imports = import_names(d);
    let found = capability_list(imports, d);
    let urls = urls_from(d, 0, 0);
    lemma_set_is_no_longer(capabilities, found);
    lemma_set_is_no_longer(network_indicators, urls);
    lemma_empty_sets(capabilities, found);
    lemma_empty_sets(network_indicators, urls);
    lemma_urls(d, 0, 0);
    assert forall|k: int| 0 <= k < network_indicators.len() implies is_address(
        #[trigger] network_indicators[k],
    ) by {
        assert(network_indicators.contains(network_indicators[k]));
        assert(urls.contains(network_indicators[k]));
        let j = choose|j: int| 0 <= j < urls.len() && urls[j] == network_indicators[k];
        assert(is_address(urls[j]));
    }
    if network_indicators.len() > 0 {
        let before = injection_hits(imports) + persistence_hits(d) + only_if(
            persistence_api(imports),
            "persistence:registry_api"@,
        ) + credential_hits(imports, d);
        assert(found[before.len() as int] == "network:c2_endpoints"@);
        assert(found.contains("network:c2_endpoints"@));
    }
    lemma_family_weights(imports, d);
    lemma_calibrated_positive(family_weights(imports, d));
}

/// Only the analysed part of a sample counts: what is predicted of a sample is what is
/// predicted of that part alone.
pub proof fn law_only_the_analysed_part_counts(
    bytes: Seq<u8>,
    capabilities: Seq<Seq<char>>,
    network_indicators: Seq<Seq<char>>,
    score: Score,
    part_capabilities: Seq<Seq<char>>,
    part_indicators: Seq<Seq<char>>,
    part_score: Score,
)
    requires
        is_prediction(bytes, capabilities, network_indicators, score),
        is_prediction(analysed_part(bytes), part_capabilities, part_indicators, part_score),
    ensures
        part_capabilities == capabilities,
        part_indicators == network_indicators,
        part_score == score,
{
    let d = analysed_part(bytes);
    assert(analysed_part(d) =~= d);
    law_sorted_set_unique(
        part_capabilities,
        capabilities,
        capability_list(import_names(d), d),
    );
    law_sorted_set_unique(part_indicators, network_indicators, urls_from(d, 0, 0));
}

} // verus!
