//! Static prediction of what a sample would do in a sandbox.
//!
//! Capabilities are predicted from bytes alone: imports, narrow and wide strings and
//! embedded addresses. Nothing is executed, and a prediction is advisory: it is never a
//! malicious verdict by itself.

use crate::bytes::{has_letters, has_narrow, holds_letters, holds_narrow, wide, wide_bytes};
use crate::heuristic::rulebook::{lower_all, lowered_all, one_if, one_when};
use crate::objects::{format_of, object_format, pe_layout, pe_of, ObjectFormat};
use crate::order::{sorted_set, sorted_set_of};
use crate::score::{
    lemma_one_power, lemma_product_capped, lemma_ratio_capped, lemma_rounded_capped, product_of,
    Score, ONE_UNITS,
};
use crate::text::{
    any_contains, any_has, begins_with, only_if, push_text, push_when, starts_with, texts,
    without_trailing,
};
use vstd::prelude::*;

verus! {

/// Analysis is bounded so that its cost is, whatever callers pass.
pub const MAX_ANALYSIS_BYTES: usize = 0x400_0000;

pub const MAX_REPORTED_URLS: usize = 8;

/// A bare scheme with the shortest host is shorter than any real endpoint.
pub const MIN_URL_LENGTH: usize = 11;

/// What a sample is predicted to do.
#[derive(Debug)]
pub struct StaticSandboxPrediction {
    /// Calibrated risk, from zero to one.
    pub score: Score,
    /// Triggered capabilities, such as `injection:writeprocessmemory`.
    pub capabilities: Vec<String>,
    /// Addresses that look like remote endpoints.
    pub network_indicators: Vec<String>,
}

/// Some text of `items` starts with `prefix`.
pub open spec fn any_begins(items: Seq<Seq<char>>, prefix: Seq<char>) -> bool {
    exists|i: int| 0 <= i < items.len() && begins_with(#[trigger] items[i], prefix)
}

/// Injection and persistence together with a channel out, at a high score. Legitimate
/// software almost never shows this.
pub open spec fn chain_of(capabilities: Seq<Seq<char>>, score: Score) -> bool {
    &&& any_begins(capabilities, "injection:"@)
    &&& any_begins(capabilities, "persistence:"@)
    &&& any_begins(capabilities, "network:"@) || any_begins(capabilities, "credential_access:"@)
    &&& score.units >= Score::of_hundredths(55).units
}

fn any_starts(items: &[String], prefix: &str) -> (b: bool)
    ensures
        b == any_begins(texts(items@), prefix@),
{
    let mut i: usize = 0;
    while i < items.len()
        invariant
            i <= items@.len(),
            forall|k: int| 0 <= k < i ==> !begins_with(#[trigger] texts(items@)[k], prefix@),
        decreases items@.len() - i,
    {
        if starts_with(items[i].as_str(), prefix) {
            assert(begins_with(texts(items@)[i as int], prefix@));
            return true;
        }
        i = i + 1;
    }
    false
}

impl StaticSandboxPrediction {
    /// The only shape that may escalate a scan to suspicious.
    pub fn is_high_confidence_chain(&self) -> (b: bool)
        ensures
            b == chain_of(texts(self.capabilities@), self.score),
    {
        let injection = any_starts(&self.capabilities, "injection:");
        let persistence = any_starts(&self.capabilities, "persistence:");
        let channel = any_starts(&self.capabilities, "network:") || any_starts(
            &self.capabilities,
            "credential_access:",
        );
        injection && persistence && channel && self.score.at_least(Score::hundredths(55))
    }
}

/// A byte that can stand in an address.
pub open spec fn is_url_byte(b: u8) -> bool {
    ||| 48 <= b <= 57
    ||| 65 <= b <= 90
    ||| 97 <= b <= 122
    ||| b == 0x3a
    ||| b == 0x2f
    ||| b == 0x2e
    ||| b == 0x3f
    ||| b == 0x3d
    ||| b == 0x26
    ||| b == 0x2d
    ||| b == 0x5f
    ||| b == 0x25
    ||| b == 0x7e
    ||| b == 0x23
    ||| b == 0x40
    ||| b == 0x2b
}

/// The length of the scheme that stands at `at`, zero where none does.
pub open spec fn scheme_length(d: Seq<u8>, at: int) -> int {
    if !(0 <= at && at + 7 <= d.len()) {
        0
    } else if !(d[at] == 0x68 && d[at + 1] == 0x74 && d[at + 2] == 0x74 && d[at + 3] == 0x70) {
        0
    } else if d[at + 4] == 0x3a && d[at + 5] == 0x2f && d[at + 6] == 0x2f {
        7
    } else if at + 8 <= d.len() && d[at + 4] == 0x73 && d[at + 5] == 0x3a && d[at + 6] == 0x2f
        && d[at + 7] == 0x2f {
        8
    } else {
        0
    }
}

/// The first position from `at` on that holds no address byte.
pub open spec fn url_end(d: Seq<u8>, at: int) -> int
    decreases d.len() - at,
{
    if 0 <= at < d.len() && is_url_byte(d[at]) {
        url_end(d, at + 1)
    } else {
        at
    }
}

pub open spec fn has_dot(d: Seq<u8>) -> bool {
    exists|i: int| 0 <= i < d.len() && #[trigger] d[i] == 0x2e
}

pub open spec fn ascii_chars(d: Seq<u8>) -> Seq<char> {
    Seq::new(d.len(), |i: int| d[i] as char)
}

/// The address at `at` without trailing dots.
pub open spec fn url_text(d: Seq<u8>, at: int, end: int) -> Seq<char> {
    without_trailing(ascii_chars(d.subrange(at, end)), |c: char| c == '.')
}

/// The addresses from `at` on, up to the limit; `found` of them were before it. An address
/// needs a host of four characters with a dot in it.
pub open spec fn urls_from(d: Seq<u8>, at: int, found: nat) -> Seq<Seq<char>>
    decreases d.len() - at,
{
    if at < 0 || at + MIN_URL_LENGTH > d.len() || found >= MAX_REPORTED_URLS {
        Seq::empty()
    } else if scheme_length(d, at) == 0 {
        urls_from(d, at + 1, found)
    } else {
        let host = at + scheme_length(d, at);
        let end = url_end(d, host);
        proof {
            lemma_url_end(d, host);
        }
        if end - host >= 4 && has_dot(d.subrange(host, end)) {
            seq![url_text(d, at, end)] + urls_from(d, end, found + 1)
        } else {
            urls_from(d, end, found)
        }
    }
}

pub proof fn lemma_url_end(d: Seq<u8>, at: int)
    requires
        0 <= at <= d.len(),
    ensures
        at <= url_end(d, at) <= d.len(),
        forall|k: int| at <= k < url_end(d, at) ==> is_url_byte(#[trigger] d[k]),
    decreases d.len() - at,
{
    if at < d.len() && is_url_byte(d[at]) {
        lemma_url_end(d, at + 1);
    }
}

fn url_byte(b: u8) -> (r: bool)
    ensures
        r == is_url_byte(b),
{
    (48 <= b && b <= 57) || (65 <= b && b <= 90) || (97 <= b && b <= 122) || b == 0x3a || b == 0x2f
        || b == 0x2e || b == 0x3f || b == 0x3d || b == 0x26 || b == 0x2d || b == 0x5f || b == 0x25
        || b == 0x7e || b == 0x23 || b == 0x40 || b == 0x2b
}

fn scheme_at(d: &[u8], at: usize) -> (n: usize)
    requires
        at + MIN_URL_LENGTH <= d@.len(),
    ensures
        n == scheme_length(d@, at as int),
        n == 0 || n == 7 || n == 8,
{
    let size: usize = d.len();
    assert(at + 8 <= size);
    if d[at] != 0x68 || d[at + 1] != 0x74 || d[at + 2] != 0x74 || d[at + 3] != 0x70 {
        0
    } else if d[at + 4] == 0x3a && d[at + 5] == 0x2f && d[at + 6] == 0x2f {
        7
    } else if d[at + 4] == 0x73 && d[at + 5] == 0x3a && d[at + 6] == 0x2f && d[at + 7] == 0x2f {
        8
    } else {
        0
    }
}

/// The text of an address without trailing dots.
fn url_between(d: &[u8], at: usize, end: usize) -> (s: String)
    requires
        at <= end <= d@.len(),
    ensures
        s@ == url_text(d@, at as int, end as int),
{
    let ghost all = ascii_chars(d@.subrange(at as int, end as int));
    let ghost drop = |c: char| c == '.';
    let mut stop: usize = end;
    assert(all.take(stop - at) =~= all);
    while stop > at && d[stop - 1] == 0x2e
        invariant
            at <= stop <= end <= d@.len(),
            all == ascii_chars(d@.subrange(at as int, end as int)),
            drop == (|c: char| c == '.'),
            without_trailing(all, drop) == without_trailing(all.take(stop - at), drop),
        decreases stop,
    {
        assert(all.take(stop - at).last() == '.');
        assert(all.take(stop - at).drop_last() =~= all.take(stop - 1 - at));
        stop = stop - 1;
    }
    proof {
        if stop > at {
            let b = d@[stop - 1];
            assert(all.take(stop - at).last() == b as char);
            assert(b as char != '.') by {
                assert(b != 0x2e);
            }
        }
    }
    let mut s = String::new();
    let mut i: usize = at;
    while i < stop
        invariant
            at <= i <= stop <= end <= d@.len(),
            all == ascii_chars(d@.subrange(at as int, end as int)),
            s@ == all.take(i - at),
        decreases stop - i,
    {
        s.push(d[i] as char);
        assert(all.take(i + 1 - at) =~= all.take(i - at).push(all[i - at]));
        i = i + 1;
    }
    s
}

/// The distinct addresses of a buffer, in order.
pub fn extract_urls(bytes: &[u8]) -> (urls: Vec<String>)
    ensures
        sorted_set_of(texts(urls@), urls_from(bytes@, 0, 0)),
{
    let size: usize = bytes.len();
    let ghost wanted = urls_from(bytes@, 0, 0);
    let mut found: Vec<String> = Vec::new();
    let mut at: usize = 0;
    assert(texts(found@) + wanted =~= wanted);
    while size >= MIN_URL_LENGTH && at <= size - MIN_URL_LENGTH && found.len() < MAX_REPORTED_URLS
        invariant
            at <= size == bytes@.len(),
            found@.len() <= MAX_REPORTED_URLS,
            texts(found@) + urls_from(bytes@, at as int, found@.len()) == wanted,
        decreases size - at,
    {
        let scheme: usize = scheme_at(bytes, at);
        if scheme == 0 {
            at = at + 1;
            continue;
        }
        let host: usize = at + scheme;
        let mut end: usize = host;
        let mut dotted = false;
        while end < size && url_byte(bytes[end])
            invariant
                host <= end <= size == bytes@.len(),
                url_end(bytes@, end as int) == url_end(bytes@, host as int),
                dotted == has_dot(bytes@.subrange(host as int, end as int)),
            decreases size - end,
        {
            let ghost before = bytes@.subrange(host as int, end as int);
            let ghost after = bytes@.subrange(host as int, end + 1);
            assert(after =~= before.push(bytes@[end as int]));
            proof {
                if has_dot(before) {
                    let k = choose|k: int| 0 <= k < before.len() && #[trigger] before[k] == 0x2e;
                    assert(after[k] == 0x2e);
                }
                if has_dot(after) {
                    let k = choose|k: int| 0 <= k < after.len() && #[trigger] after[k] == 0x2e;
                    if k < before.len() {
                        assert(before[k] == 0x2e);
                    }
                }
            }
            if bytes[end] == 0x2e {
                assert(after[end - host] == 0x2e);
                dotted = true;
            }
            end = end + 1;
        }
        proof {
            lemma_url_end(bytes@, host as int);
        }
        assert(end == url_end(bytes@, host as int));
        if dotted && end - host >= 4 {
            let ghost before = texts(found@);
            let ghost rest = urls_from(bytes@, end as int, found@.len() + 1);
            let url = url_between(bytes, at, end);
            assert(before + (seq![url@] + rest) =~= before.push(url@) + rest);
            push_text(&mut found, url);
        }
        at = end;
    }
    assert(texts(found@) + Seq::<Seq<char>>::empty() =~= texts(found@));
    sorted_set(&found)
}

/// A marker stands in the bytes, narrow or wide, in any ASCII case.
pub open spec fn marked(d: Seq<u8>, marker: Seq<char>) -> bool {
    holds_narrow(d, marker) || holds_letters(d, wide(marker))
}

fn has_marker(d: &[u8], marker: &str) -> (b: bool)
    ensures
        b == marked(d@, marker@),
{
    if has_narrow(d, marker) {
        return true;
    }
    let encoded = wide_bytes(marker);
    has_letters(d, &encoded)
}

/// A marker stands among the imports or in the bytes.
pub open spec fn evident(imports: Seq<Seq<char>>, d: Seq<u8>, marker: Seq<char>) -> bool {
    any_contains(imports, marker) || marked(d, marker)
}

fn is_evident(imports: &[String], d: &[u8], marker: &str) -> (b: bool)
    ensures
        b == evident(texts(imports@), d@, marker@),
{
    any_has(imports, marker) || has_marker(d, marker)
}

/// The capabilities of code injection.
pub open spec fn injection_hits(imports: Seq<Seq<char>>) -> Seq<Seq<char>> {
    Seq::<Seq<char>>::empty() + only_if(
        any_contains(imports, "writeprocessmemory"@),
        "injection:writeprocessmemory"@,
    ) + only_if(any_contains(imports, "virtualallocex"@), "injection:virtualallocex"@) + only_if(
        any_contains(imports, "createremotethread"@),
        "injection:createremotethread"@,
    ) + only_if(any_contains(imports, "ntmapviewofsection"@), "injection:ntmapviewofsection"@)
        + only_if(any_contains(imports, "queueuserapc"@), "injection:queueuserapc"@) + only_if(
        any_contains(imports, "setwindowshookex"@),
        "injection:setwindowshookex"@,
    ) + only_if(any_contains(imports, "rtlcreateuserthread"@), "injection:rtlcreateuserthread"@)
        + only_if(any_contains(imports, "zwwritevirtualmemory"@), "injection:zwwritevirtualmemory"@)
}

/// The capabilities of persistence that strings show.
pub open spec fn persistence_hits(d: Seq<u8>) -> Seq<Seq<char>> {
    Seq::<Seq<char>>::empty() + only_if(
        marked(d, "currentversion\\run"@),
        "persistence:currentversion\\run"@,
    ) + only_if(
        marked(d, "currentversion\\runonce"@),
        "persistence:currentversion\\runonce"@,
    ) + only_if(marked(d, "schtasks /create"@), "persistence:schtasks /create"@) + only_if(
        marked(d, "\\startup\\"@),
        "persistence:startup\\"@,
    ) + only_if(
        marked(d, "currentversion\\explorer\\shell folders"@),
        "persistence:currentversion\\explorer\\shell folders"@,
    )
}

pub open spec fn persistence_api(imports: Seq<Seq<char>>) -> bool {
    any_contains(imports, "regsetvalueex"@) || any_contains(imports, "schtask"@)
}

/// The capabilities of credential access.
pub open spec fn credential_hits(imports: Seq<Seq<char>>, d: Seq<u8>) -> Seq<Seq<char>> {
    Seq::<Seq<char>>::empty() + only_if(
        evident(imports, d, "cryptunprotectdata"@),
        "credential_access:cryptunprotectdata"@,
    ) + only_if(evident(imports, d, "vaultcli"@), "credential_access:vaultcli"@) + only_if(
        evident(imports, d, "login data"@),
        "credential_access:login data"@,
    ) + only_if(evident(imports, d, "web data"@), "credential_access:web data"@) + only_if(
        evident(imports, d, "cookies.sqlite"@),
        "credential_access:cookies.sqlite"@,
    ) + only_if(evident(imports, d, "lsass"@), "credential_access:lsass"@)
}

/// The capabilities of evasion.
pub open spec fn evasion_hits(imports: Seq<Seq<char>>, d: Seq<u8>) -> Seq<Seq<char>> {
    Seq::<Seq<char>>::empty() + only_if(
        evident(imports, d, "isdebuggerpresent"@),
        "evasion:isdebuggerpresent"@,
    ) + only_if(
        evident(imports, d, "checkremotedebuggerpresent"@),
        "evasion:checkremotedebuggerpresent"@,
    ) + only_if(evident(imports, d, "vmwaresvga"@), "evasion:vmwaresvga"@) + only_if(
        evident(imports, d, "virtualbox guest additions"@),
        "evasion:virtualbox guest additions"@,
    ) + only_if(evident(imports, d, "sandboxie"@), "evasion:sandboxie"@) + only_if(
        evident(imports, d, "qemu guest"@),
        "evasion:qemu guest"@,
    ) + only_if(evident(imports, d, "xenservice"@), "evasion:xenservice"@)
}

pub open spec fn network_api(imports: Seq<Seq<char>>) -> bool {
    any_contains(imports, "internetopen"@) || any_contains(imports, "winhttpopen"@)
}

/// How many reconnaissance APIs are imported.
pub open spec fn recon_count(imports: Seq<Seq<char>>) -> nat {
    one_if(any_contains(imports, "getcomputername"@)) + one_if(
        any_contains(imports, "getusername"@),
    ) + one_if(any_contains(imports, "getadaptersinfo"@))
}

/// Every capability that is triggered, in the order of the detectors.
pub open spec fn capability_list(imports: Seq<Seq<char>>, d: Seq<u8>) -> Seq<Seq<char>> {
    injection_hits(imports) + persistence_hits(d) + only_if(
        persistence_api(imports),
        "persistence:registry_api"@,
    ) + credential_hits(imports, d) + only_if(
        urls_from(d, 0, 0).len() > 0 || network_api(imports),
        "network:c2_endpoints"@,
    ) + evasion_hits(imports, d) + only_if(
        recon_count(imports) > 0,
        "recon:system_discovery"@,
    )
}

pub open spec fn share(weight: nat, part: nat) -> Score {
    Score::of_hundredths(weight).product(Score::of_hundredths(part))
}

pub open spec fn injection_weight(hits: nat) -> Score {
    if hits == 0 {
        Score::zero()
    } else if hits == 1 {
        share(30, 60)
    } else {
        Score::of_hundredths(30)
    }
}

pub open spec fn persistence_weight(hits: nat, api: bool) -> Score {
    let seen = if hits > 0 {
        Score::zero().greater(share(25, 70))
    } else {
        Score::zero()
    };
    if api {
        seen.greater(Score::of_hundredths(25))
    } else {
        seen
    }
}

pub open spec fn network_weight(urls: nat, api: bool) -> Score {
    if urls > 0 {
        Score::of_hundredths(20)
    } else if api {
        share(20, 50)
    } else {
        Score::zero()
    }
}

pub open spec fn recon_weight(hits: nat) -> Score {
    if hits == 0 {
        Score::zero()
    } else if hits == 1 {
        share(10, 70)
    } else {
        Score::of_hundredths(10)
    }
}

pub open spec fn weight_if(condition: bool, hundredths: nat) -> Score {
    if condition {
        Score::of_hundredths(hundredths)
    } else {
        Score::zero()
    }
}

/// The weight of each family of capabilities.
pub open spec fn family_weights(imports: Seq<Seq<char>>, d: Seq<u8>) -> Seq<Score> {
    seq![
        injection_weight(injection_hits(imports).len()),
        persistence_weight(persistence_hits(d).len(), persistence_api(imports)),
        weight_if(credential_hits(imports, d).len() > 0, 25),
        network_weight(urls_from(d, 0, 0).len(), network_api(imports)),
        weight_if(evasion_hits(imports, d).len() > 0, 15),
        recon_weight(recon_count(imports)),
    ]
}

/// What each triggered family leaves unexplained.
pub open spec fn complements(weights: Seq<Score>) -> Seq<Score>
    decreases weights.len(),
{
    if weights.len() == 0 {
        Seq::empty()
    } else {
        let before = complements(weights.drop_last());
        if weights.last().units > 0 {
            before.push(Score::one().difference(weights.last()))
        } else {
            before
        }
    }
}

/// The bonus for `extra` findings beside the first.
pub open spec fn bonus_of(extra: nat) -> Score {
    Score { units: (extra * ONE_UNITS) as u128 }.product(Score::of_ratio(25, 1000))
}

/// Only triggered families count, so that the bonus for corroboration never inflates a
/// single finding.
pub open spec fn calibrated(weights: Seq<Score>) -> Score {
    let parts = complements(weights);
    if parts.len() == 0 {
        Score::zero()
    } else {
        Score::one().difference(product_of(parts)).sum(bonus_of((parts.len() - 1) as nat)).lesser(
            Score::of_hundredths(95),
        ).lesser(Score::one())
    }
}

fn calibrate(weights: &[Score]) -> (s: Score)
    requires
        weights@.len() <= 6,
        forall|i: int| 0 <= i < weights@.len() ==> (#[trigger] weights@[i]).in_unit(),
    ensures
        s == calibrated(weights@),
{
    let one = Score { units: ONE_UNITS };
    let mut left = one;
    let mut count: u128 = 0;
    let mut i: usize = 0;
    proof {
        lemma_one_power();
    }
    assert(complements(weights@.take(0)) =~= Seq::empty());
    while i < weights.len()
        invariant
            i <= weights@.len() <= 6,
            one == Score::one(),
            crate::score::is_power_of_two(ONE_UNITS as nat),
            forall|k: int| 0 <= k < weights@.len() ==> (#[trigger] weights@[k]).in_unit(),
            count == complements(weights@.take(i as int)).len(),
            count <= i,
            left == product_of(complements(weights@.take(i as int))),
            left.in_unit(),
        decreases weights@.len() - i,
    {
        assert(weights@.take(i + 1).drop_last() =~= weights@.take(i as int));
        assert(weights@.take(i + 1).last() == weights@[i as int]);
        let w = weights[i];
        if w.units > 0 {
            let rest = one.minus(w);
            proof {
                lemma_rounded_capped((one.units - w.units) as nat, ONE_UNITS as nat);
                lemma_product_capped(left.units as nat, rest.units as nat);
                let before = complements(weights@.take(i as int));
                assert(before.push(rest).drop_last() =~= before);
            }
            left = left.times(rest);
            count = count + 1;
        }
        i = i + 1;
    }
    assert(weights@.take(i as int) =~= weights@);
    if count == 0 {
        return Score { units: 0 };
    }
    let bonus = Score { units: (count - 1) * ONE_UNITS }.times(Score::ratio(25, 1000));
    proof {
        lemma_rounded_capped((one.units - left.units) as nat, ONE_UNITS as nat);
        lemma_bonus_small((count - 1) as nat);
    }
    one.minus(left).plus(bonus).min(Score::hundredths(95)).min(one)
}

/// The bonus for a handful of findings is small.
pub proof fn lemma_bonus_small(extra: nat)
    requires
        extra <= 5,
    ensures
        bonus_of(extra).units <= 16 * ONE_UNITS,
{
    let a = extra * ONE_UNITS as nat;
    let b = ratio_25();
    lemma_ratio_capped(25, 1000, 1);
    let n = a * b;
    assert(n <= (5 * ONE_UNITS) * ONE_UNITS) by (nonlinear_arith)
        requires
            n == a * b,
            a <= 5 * ONE_UNITS,
            b <= ONE_UNITS,
    ;
    let g = crate::score::granule(n);
    crate::score::lemma_granule_positive(n);
    crate::score::lemma_granule_bound(n);
    let step = if g < ONE_UNITS {
        ONE_UNITS as nat
    } else {
        g
    };
    crate::score::lemma_nearest_bound(n, step);
    let m = crate::score::nearest(n, step) * step;
    assert(m <= n + step);
    assert(m / ONE_UNITS as nat <= 16 * ONE_UNITS) by (nonlinear_arith)
        requires
            m <= 2 * n + ONE_UNITS,
            n <= (5 * ONE_UNITS) * ONE_UNITS,
            ONE_UNITS >= 1,
    ;
}

spec fn ratio_25() -> nat {
    Score::of_ratio(25, 1000).units as nat
}

/// The imported names in lower case, none where the buffer is no PE image.
pub open spec fn import_names(d: Seq<u8>) -> Seq<Seq<char>> {
    match (format_of(d), pe_of(d)) {
        (Ok(ObjectFormat::Pe), Some(image)) => lowered_all(image.imports),
        _ => Seq::empty(),
    }
}

/// The imported names in lower case, none where the buffer is no PE image.
pub fn pe_import_names(bytes: &[u8]) -> (names: Vec<String>)
    ensures
        texts(names@) == import_names(bytes@),
{
    let none: Vec<String> = Vec::new();
    assert(texts(none@) =~= Seq::empty());
    match object_format(bytes) {
        Ok(ObjectFormat::Pe) => match pe_layout(bytes) {
            Some(image) => lower_all(&image.imports),
            None => none,
        },
        _ => none,
    }
}

fn note_injection(caps: &mut Vec<String>, imports: &[String]) -> (hits: usize)
    ensures
        texts(final(caps)@) == texts(old(caps)@) + injection_hits(texts(imports@)),
        hits == injection_hits(texts(imports@)).len(),
{
    let mut mine: Vec<String> = Vec::new();
    assert(texts(mine@) =~= Seq::empty());
    push_when(&mut mine, any_has(imports, "writeprocessmemory"), "injection:writeprocessmemory");
    push_when(&mut mine, any_has(imports, "virtualallocex"), "injection:virtualallocex");
    push_when(&mut mine, any_has(imports, "createremotethread"), "injection:createremotethread");
    push_when(&mut mine, any_has(imports, "ntmapviewofsection"), "injection:ntmapviewofsection");
    push_when(&mut mine, any_has(imports, "queueuserapc"), "injection:queueuserapc");
    push_when(&mut mine, any_has(imports, "setwindowshookex"), "injection:setwindowshookex");
    push_when(&mut mine, any_has(imports, "rtlcreateuserthread"), "injection:rtlcreateuserthread");
    push_when(
        &mut mine,
        any_has(imports, "zwwritevirtualmemory"),
        "injection:zwwritevirtualmemory",
    );
    add_hits(caps, mine)
}

/// Moves the hits of a detector behind the capabilities; tells how many they are.
fn add_hits(caps: &mut Vec<String>, hits: Vec<String>) -> (n: usize)
    ensures
        texts(final(caps)@) == texts(old(caps)@) + texts(hits@),
        n == texts(hits@).len(),
{
    let n: usize = hits.len();
    let mut moved = hits;
    crate::heuristic::analysis::append_texts(caps, &mut moved);
    n
}

fn note_persistence(caps: &mut Vec<String>, d: &[u8]) -> (hits: usize)
    ensures
        texts(final(caps)@) == texts(old(caps)@) + persistence_hits(d@),
        hits == persistence_hits(d@).len(),
{
    let mut mine: Vec<String> = Vec::new();
    assert(texts(mine@) =~= Seq::empty());
    push_when(&mut mine, has_marker(d, "currentversion\\run"), "persistence:currentversion\\run");
    push_when(
        &mut mine,
        has_marker(d, "currentversion\\runonce"),
        "persistence:currentversion\\runonce",
    );
    push_when(&mut mine, has_marker(d, "schtasks /create"), "persistence:schtasks /create");
    push_when(&mut mine, has_marker(d, "\\startup\\"), "persistence:startup\\");
    push_when(
        &mut mine,
        has_marker(d, "currentversion\\explorer\\shell folders"),
        "persistence:currentversion\\explorer\\shell folders",
    );
    add_hits(caps, mine)
}

fn note_credentials(caps: &mut Vec<String>, imports: &[String], d: &[u8]) -> (hits: usize)
    ensures
        texts(final(caps)@) == texts(old(caps)@) + credential_hits(texts(imports@), d@),
        hits == credential_hits(texts(imports@), d@).len(),
{
    let mut mine: Vec<String> = Vec::new();
    assert(texts(mine@) =~= Seq::empty());
    push_when(
        &mut mine,
        is_evident(imports, d, "cryptunprotectdata"),
        "credential_access:cryptunprotectdata",
    );
    push_when(&mut mine, is_evident(imports, d, "vaultcli"), "credential_access:vaultcli");
    push_when(&mut mine, is_evident(imports, d, "login data"), "credential_access:login data");
    push_when(&mut mine, is_evident(imports, d, "web data"), "credential_access:web data");
    push_when(
        &mut mine,
        is_evident(imports, d, "cookies.sqlite"),
        "credential_access:cookies.sqlite",
    );
    push_when(&mut mine, is_evident(imports, d, "lsass"), "credential_access:lsass");
    add_hits(caps, mine)
}

fn note_evasion(caps: &mut Vec<String>, imports: &[String], d: &[u8]) -> (hits: usize)
    ensures
        texts(final(caps)@) == texts(old(caps)@) + evasion_hits(texts(imports@), d@),
        hits == evasion_hits(texts(imports@), d@).len(),
{
    let mut mine: Vec<String> = Vec::new();
    assert(texts(mine@) =~= Seq::empty());
    push_when(
        &mut mine,
        is_evident(imports, d, "isdebuggerpresent"),
        "evasion:isdebuggerpresent",
    );
    push_when(
        &mut mine,
        is_evident(imports, d, "checkremotedebuggerpresent"),
        "evasion:checkremotedebuggerpresent",
    );
    push_when(&mut mine, is_evident(imports, d, "vmwaresvga"), "evasion:vmwaresvga");
    push_when(
        &mut mine,
        is_evident(imports, d, "virtualbox guest additions"),
        "evasion:virtualbox guest additions",
    );
    push_when(&mut mine, is_evident(imports, d, "sandboxie"), "evasion:sandboxie");
    push_when(&mut mine, is_evident(imports, d, "qemu guest"), "evasion:qemu guest");
    push_when(&mut mine, is_evident(imports, d, "xenservice"), "evasion:xenservice");
    add_hits(caps, mine)
}

fn share_of(weight: u64, part: u64) -> (s: Score)
    requires
        weight <= 100,
        part <= 100,
    ensures
        s == share(weight as nat, part as nat),
        s.in_unit(),
{
    let w = Score::hundredths(weight);
    let p = Score::hundredths(part);
    proof {
        lemma_product_capped(w.units as nat, p.units as nat);
    }
    w.times(p)
}

/// The weight of each family, given how many hits each has.
fn weigh(
    injections: usize,
    persistences: usize,
    registry: bool,
    credentials: usize,
    urls: usize,
    api: bool,
    evasions: usize,
    recon: u8,
) -> (weights: Vec<Score>)
    ensures
        weights@ == seq![
            injection_weight(injections as nat),
            persistence_weight(persistences as nat, registry),
            weight_if(credentials > 0, 25),
            network_weight(urls as nat, api),
            weight_if(evasions > 0, 15),
            recon_weight(recon as nat),
        ],
        weights@.len() == 6,
        forall|i: int| 0 <= i < weights@.len() ==> (#[trigger] weights@[i]).in_unit(),
{
    let zero = Score { units: 0 };
    let mut weights: Vec<Score> = Vec::new();
    weights.push(
        if injections == 0 {
            zero
        } else if injections == 1 {
            share_of(30, 60)
        } else {
            Score::hundredths(30)
        },
    );
    let seen = if persistences > 0 {
        zero.max(share_of(25, 70))
    } else {
        zero
    };
    weights.push(
        if registry {
            seen.max(Score::hundredths(25))
        } else {
            seen
        },
    );
    weights.push(
        if credentials > 0 {
            Score::hundredths(25)
        } else {
            zero
        },
    );
    weights.push(
        if urls > 0 {
            Score::hundredths(20)
        } else if api {
            share_of(20, 50)
        } else {
            zero
        },
    );
    weights.push(
        if evasions > 0 {
            Score::hundredths(15)
        } else {
            zero
        },
    );
    weights.push(
        if recon == 0 {
            zero
        } else if recon == 1 {
            share_of(10, 70)
        } else {
            Score::hundredths(10)
        },
    );
    weights
}

/// Predicts the capabilities of a sample from its bytes and its imported names, given in
/// lower case.
pub fn predict(d: &[u8], imports: &[String]) -> (p: StaticSandboxPrediction)
    ensures
        sorted_set_of(texts(p.capabilities@), capability_list(texts(imports@), d@)),
        sorted_set_of(texts(p.network_indicators@), urls_from(d@, 0, 0)),
        p.score == calibrated(family_weights(texts(imports@), d@)),
{
    let ghost names = texts(imports@);
    let mut caps: Vec<String> = Vec::new();
    assert(texts(caps@) =~= Seq::empty());
    let injections: usize = note_injection(&mut caps, imports);
    assert(texts(caps@) =~= injection_hits(names));
    let persistences: usize = note_persistence(&mut caps, d);
    let registry = any_has(imports, "regsetvalueex") || any_has(imports, "schtask");
    push_when(&mut caps, registry, "persistence:registry_api");
    let credentials: usize = note_credentials(&mut caps, imports, d);
    let urls = extract_urls(d);
    proof {
        lemma_empty_sets(texts(urls@), urls_from(d@, 0, 0));
    }
    let api = any_has(imports, "internetopen") || any_has(imports, "winhttpopen");
    push_when(&mut caps, urls.len() > 0 || api, "network:c2_endpoints");
    let evasions: usize = note_evasion(&mut caps, imports, d);
    let recon: u8 = one_when(any_has(imports, "getcomputername")) + one_when(
        any_has(imports, "getusername"),
    ) + one_when(any_has(imports, "getadaptersinfo"));
    push_when(&mut caps, recon > 0, "recon:system_discovery");
    assert(texts(caps@) == capability_list(names, d@));
    let weights = weigh(
        injections,
        persistences,
        registry,
        credentials,
        urls.len(),
        api,
        evasions,
        recon,
    );
    assert(weights@ == family_weights(names, d@));
    let capabilities = sorted_set(&caps);
    StaticSandboxPrediction {
        score: calibrate(&weights),
        capabilities,
        network_indicators: urls,
    }
}

/// A sorted set is empty exactly when the list that it is made of is.
pub proof fn lemma_empty_sets(sorted: Seq<Seq<char>>, items: Seq<Seq<char>>)
    requires
        sorted_set_of(sorted, items),
    ensures
        (sorted.len() == 0) == (items.len() == 0),
{
    if sorted.len() > 0 {
        assert(sorted.contains(sorted[0]));
        assert(items.contains(sorted[0]));
    }
    if items.len() > 0 {
        assert(items.contains(items[0]));
        assert(sorted.contains(items[0]));
    }
}

/// The part of a buffer that is analysed.
pub open spec fn analysed_part(d: Seq<u8>) -> Seq<u8> {
    d.take(
        if d.len() < MAX_ANALYSIS_BYTES {
            d.len() as int
        } else {
            MAX_ANALYSIS_BYTES as int
        },
    )
}

/// What is predicted of some bytes.
pub open spec fn is_prediction(
    bytes: Seq<u8>,
    capabilities: Seq<Seq<char>>,
    network_indicators: Seq<Seq<char>>,
    score: Score,
) -> bool {
    let d = analysed_part(bytes);
    let imports = import_names(d);
    &&& sorted_set_of(capabilities, capability_list(imports, d))
    &&& sorted_set_of(network_indicators, urls_from(d, 0, 0))
    &&& score == calibrated(family_weights(imports, d))
}

/// Predicts the capabilities of a sample from its bytes.
pub fn analyze_static_sandbox(bytes: &[u8]) -> (p: StaticSandboxPrediction)
    ensures
        is_prediction(bytes@, texts(p.capabilities@), texts(p.network_indicators@), p.score),
{
    let size: usize = if bytes.len() < MAX_ANALYSIS_BYTES {
        bytes.len()
    } else {
        MAX_ANALYSIS_BYTES
    };
    let scope = &bytes[0..size];
    assert(scope@ =~= analysed_part(bytes@));
    let imports = pe_import_names(scope);
    predict(scope, &imports)
}

/// A high-confidence chain always has injection, persistence and a channel out.
pub proof fn law_chain_needs_three_families(capabilities: Seq<Seq<char>>, score: Score)
    requires
        chain_of(capabilities, score),
    ensures
        any_begins(capabilities, "injection:"@),
        any_begins(capabilities, "persistence:"@),
        any_begins(capabilities, "network:"@) || any_begins(capabilities, "credential_access:"@),
{
}

} // verus!
