//! Where a file lies, how it was built, and what a script says.

use crate::bytes::{has_narrow, holds_narrow};
use crate::clock::now_millis;
use crate::heuristic::rulebook::{
    calibrated, calibrated_score, lower_all, lowered_all, HeuristicScore,
};
use crate::score::{
    add_up, granule, is_power_of_two, lemma_granule_bound, lemma_nearest_bound, lemma_ratio_capped,
    nearest, product_units, sum_terms, Score, ONE_UNITS,
};
use crate::total::{capped, lemma_large_product, lemma_ratio_floor};
use crate::text::{
    any_contains, any_has, chars_of, concat3, contains_text, has_text, lower, lowered,
    parse_unsigned, parsed_unsigned, push_when, replace_char, replaced, split, split_by, texts, only_if,
};
use vstd::prelude::*;

verus! {

/// A small, explainable compiler fingerprint. It is a weak signal: missing debug data
/// and old linkers are common in legitimate builds and classify nothing by themselves.
#[derive(Debug)]
pub struct CompilerFingerprint {
    pub linker_version: String,
    pub pdb_path: String,
    pub compile_timestamp: u32,
}

/// Eight years, in seconds.
pub const RECENT_BUILD_SECONDS: u32 = 252_288_000;

/// The major number of a dotted version, zero where there is none.
pub open spec fn major_version(version: Seq<char>) -> nat {
    match parsed_unsigned(split_by(version, '.')[0], u32::MAX as nat) {
        Some(n) => n,
        None => 0,
    }
}

/// The image was stamped within the last eight years of `now`, or later.
pub open spec fn recently_built(stamp: u32, now: u64) -> bool {
    let seconds = (now % 0x1_0000_0000) as int;
    stamp != 0 && stamp >= (if seconds < RECENT_BUILD_SECONDS {
        0
    } else {
        seconds - RECENT_BUILD_SECONDS
    })
}

/// The debug path lies in a place where throw-away builds lie.
pub open spec fn scratch_pdb_path(path: Seq<char>) -> bool {
    let p = lowered(path);
    ||| contains_text(p, "\\desktop\\"@)
    ||| contains_text(p, "\\downloads\\"@)
    ||| contains_text(p, "\\temp\\"@)
    ||| contains_text(p, "\\hacker\\"@)
}

/// The weights of the anomalies of a fingerprint at time `now`.
pub open spec fn anomaly_terms(
    version: Seq<char>,
    pdb_path: Seq<char>,
    stamp: u32,
    now: u64,
) -> Seq<Score> {
    let major = major_version(version);
    (if 0 < major <= 6 && recently_built(stamp, now) {
        seq![Score::of_hundredths(25)]
    } else {
        Seq::empty()
    }) + (if scratch_pdb_path(pdb_path) {
        seq![Score::of_hundredths(15)]
    } else {
        Seq::empty()
    })
}

pub open spec fn anomaly_score(
    version: Seq<char>,
    pdb_path: Seq<char>,
    stamp: u32,
    now: u64,
) -> Score {
    sum_terms(anomaly_terms(version, pdb_path, stamp, now)).lesser(Score::one())
}

impl CompilerFingerprint {
    /// How unusual the toolchain metadata is at `now`, in seconds since the epoch.
    pub fn score_anomaly_at(&self, now: u64) -> (s: Score)
        ensures
            s == anomaly_score(
                self.linker_version@,
                self.pdb_path@,
                self.compile_timestamp,
                now,
            ),
    {
        let parts = split(self.linker_version.as_str(), '.');
        assert(texts(parts@)[0] == parts@[0]@);
        let first = chars_of(parts[0].as_str());
        let major: u64 = match parse_unsigned(&first, u32::MAX as u64) {
            Some(n) => n,
            None => 0,
        };
        let seconds: u32 = (now % 0x1_0000_0000) as u32;
        let earliest: u32 = if seconds < RECENT_BUILD_SECONDS {
            0
        } else {
            seconds - RECENT_BUILD_SECONDS
        };
        let recent = self.compile_timestamp != 0 && self.compile_timestamp >= earliest;
        let mut terms: Vec<Score> = Vec::new();
        if 0 < major && major <= 6 && recent {
            terms.push(Score::hundredths(25));
        }
        let pdb = lower(self.pdb_path.as_str());
        if has_text(pdb.as_str(), "\\desktop\\") || has_text(pdb.as_str(), "\\downloads\\")
            || has_text(pdb.as_str(), "\\temp\\") || has_text(pdb.as_str(), "\\hacker\\") {
            terms.push(Score::hundredths(15));
        }
        assert(terms@ =~= anomaly_terms(
            self.linker_version@,
            self.pdb_path@,
            self.compile_timestamp,
            now,
        ));
        add_up(&terms).min(Score { units: ONE_UNITS })
    }

    /// How unusual the toolchain metadata is now.
    pub fn score_anomaly(&self) -> (s: Score)
        ensures
            exists|now: u64|
                s == #[trigger] anomaly_score(
                    self.linker_version@,
                    self.pdb_path@,
                    self.compile_timestamp,
                    now,
                ),
    {
        let now: u64 = (now_millis() / 1000 % 0x1_0000_0000_0000_0000) as u64;
        self.score_anomaly_at(now)
    }
}

/// The kind of directory that a file lies in.
#[derive(Debug, Clone, Copy, PartialEq, Eq, Structural)]
pub enum PathContext {
    System32,
    System32Drivers,
    SysWow64,
    ProgramFiles,
    TempDirectory,
    Downloads,
    Desktop,
    Other,
}

/// A path with backslashes, in lower case and between backslashes.
pub open spec fn framed_path(path: Seq<char>) -> Seq<char> {
    "\\"@ + lowered(replaced(path, '/', '\\')) + "\\"@
}

pub open spec fn path_context(path: Seq<char>) -> PathContext {
    let p = framed_path(path);
    if contains_text(p, "\\windows\\system32\\drivers\\"@) {
        PathContext::System32Drivers
    } else if contains_text(p, "\\windows\\system32\\"@) {
        PathContext::System32
    } else if contains_text(p, "\\windows\\syswow64\\"@) {
        PathContext::SysWow64
    } else if contains_text(p, "\\program files\\"@) {
        PathContext::ProgramFiles
    } else if contains_text(p, "\\local\\temp\\"@) || contains_text(p, "\\temp\\"@) {
        PathContext::TempDirectory
    } else if contains_text(p, "\\downloads\\"@) {
        PathContext::Downloads
    } else if contains_text(p, "\\desktop\\"@) {
        PathContext::Desktop
    } else {
        PathContext::Other
    }
}

/// The kind of directory that a file lies in.
pub fn classify_path_context(path: &str) -> (context: PathContext)
    ensures
        context == path_context(path@),
{
    let slashed = replace_char(path, '/', '\\');
    let low = lower(slashed.as_str());
    let framed = concat3("\\", low.as_str(), "\\");
    let p = framed.as_str();
    if has_text(p, "\\windows\\system32\\drivers\\") {
        PathContext::System32Drivers
    } else if has_text(p, "\\windows\\system32\\") {
        PathContext::System32
    } else if has_text(p, "\\windows\\syswow64\\") {
        PathContext::SysWow64
    } else if has_text(p, "\\program files\\") {
        PathContext::ProgramFiles
    } else if has_text(p, "\\local\\temp\\") || has_text(p, "\\temp\\") {
        PathContext::TempDirectory
    } else if has_text(p, "\\downloads\\") {
        PathContext::Downloads
    } else if has_text(p, "\\desktop\\") {
        PathContext::Desktop
    } else {
        PathContext::Other
    }
}

/// The factor by which a context weighs a score. Strong evidence is never weakened by a
/// system directory.
pub open spec fn context_factor(context: PathContext, base: Score) -> Score {
    match context {
        PathContext::System32 | PathContext::SysWow64 => if base.units
            < Score::of_hundredths(55).units {
            Score::of_hundredths(90)
        } else {
            Score::one()
        },
        PathContext::System32Drivers => Score::of_hundredths(110),
        PathContext::ProgramFiles => Score::of_hundredths(95),
        PathContext::TempDirectory | PathContext::Downloads | PathContext::Desktop =>
            Score::of_hundredths(105),
        PathContext::Other => Score::one(),
    }
}

/// A score adjusted by the directory that the file lies in.
pub open spec fn adjusted_score(base: Score, path: Seq<char>) -> Score {
    capped(
        product_units(
            base.units as nat,
            context_factor(path_context(path), base).units as nat,
        ),
    )
}

/// A score adjusted by the directory that the file lies in.
pub fn adjust_score_by_path(base_score: Score, path: &str) -> (s: Score)
    ensures
        s == adjusted_score(base_score, path@),
        s.in_unit(),
{
    let one = Score { units: ONE_UNITS };
    let factor = match classify_path_context(path) {
        PathContext::System32 | PathContext::SysWow64 => if base_score.at_least(
            Score::hundredths(55),
        ) {
            one
        } else {
            Score::hundredths(90)
        },
        PathContext::System32Drivers => Score::hundredths(110),
        PathContext::ProgramFiles => Score::hundredths(95),
        PathContext::TempDirectory | PathContext::Downloads | PathContext::Desktop =>
            Score::hundredths(105),
        PathContext::Other => one,
    };
    if base_score.units > 32 * ONE_UNITS {
        proof {
            lemma_factors();
            lemma_large_product(base_score.units as nat, factor.units as nat);
        }
        return one;
    }
    proof {
        lemma_small_product(base_score.units as nat, factor.units as nat);
    }
    base_score.times(factor).min(one)
}

/// No directory halves a score.
proof fn lemma_factors()
    ensures
        2 * Score::of_hundredths(90).units >= ONE_UNITS,
        2 * Score::of_hundredths(95).units >= ONE_UNITS,
        2 * Score::of_hundredths(105).units >= ONE_UNITS,
        2 * Score::of_hundredths(110).units >= ONE_UNITS,
{
    let half = (ONE_UNITS / 2) as nat;
    crate::score::lemma_one_power();
    assert(is_power_of_two(half));
    assert(is_power_of_two(1) && is_power_of_two(2)) by {
        reveal_with_fuel(is_power_of_two, 2);
    }
    lemma_ratio_floor(90, 100, half);
    lemma_ratio_floor(95, 100, half);
    lemma_ratio_floor(105, 100, half);
    lemma_ratio_floor(110, 100, half);
    lemma_ratio_capped(90, 100, 1);
    lemma_ratio_capped(95, 100, 1);
    lemma_ratio_capped(105, 100, 2);
    lemma_ratio_capped(110, 100, 2);
}

/// The product of scores of moderate size is a score.
proof fn lemma_small_product(a: nat, b: nat)
    requires
        a <= 32 * ONE_UNITS,
        b <= 2 * ONE_UNITS,
    ensures
        product_units(a, b) <= u128::MAX,
{
    let n = a * b;
    assert(n <= 0x4000_0000_0000_0000_0000_0000_0000_0000) by (nonlinear_arith)
        requires
            n == a * b,
            a <= 0x2_0000_0000_0000_0000,
            b <= 0x2000_0000_0000_0000,
    ;
    let g = granule(n);
    let step = if g < ONE_UNITS {
        ONE_UNITS as nat
    } else {
        g
    };
    lemma_granule_bound(n);
    lemma_nearest_bound(n, step);
    let m = nearest(n, step) * step;
    assert(m / ONE_UNITS as nat <= m) by (nonlinear_arith);
}

/// The imports name an API of one of the families, in any ASCII case.
pub open spec fn injection_family(imports: Seq<Seq<char>>) -> bool {
    ||| any_contains(imports, "virtualallocex"@)
    ||| any_contains(imports, "writeprocessmemory"@)
    ||| any_contains(imports, "ntwritevirtualmemory"@)
    ||| any_contains(imports, "createremotethread"@)
    ||| any_contains(imports, "ntcreatethreadex"@)
}

pub open spec fn deletion_family(imports: Seq<Seq<char>>) -> bool {
    ||| any_contains(imports, "deletefile"@)
    ||| any_contains(imports, "ntdeletefile"@)
    ||| any_contains(imports, "movefile"@)
}

pub open spec fn registry_family(imports: Seq<Seq<char>>) -> bool {
    ||| any_contains(imports, "regsetvalueex"@)
    ||| any_contains(imports, "regcreatekey"@)
    ||| any_contains(imports, "ntcreatekey"@)
}

/// The weights of the API combinations of independent intent, imports in lower case.
pub open spec fn combination_terms(imports: Seq<Seq<char>>) -> Seq<Score> {
    if !injection_family(imports) {
        Seq::empty()
    } else {
        (if deletion_family(imports) {
            seq![Score::of_hundredths(22)]
        } else {
            Seq::empty()
        }) + (if registry_family(imports) {
            seq![Score::of_hundredths(22)]
        } else {
            Seq::empty()
        }) + (if deletion_family(imports) && registry_family(imports) {
            seq![Score::of_hundredths(12)]
        } else {
            Seq::empty()
        })
    }
}

pub open spec fn combination_score(imports: Seq<Seq<char>>) -> Score {
    sum_terms(combination_terms(lowered_all(imports))).lesser(Score::one())
}

/// Scores only combinations of APIs that have independent intent; a single API is
/// neutral.
pub fn score_api_combinations(imports: &[String]) -> (s: Score)
    ensures
        s == combination_score(texts(imports@)),
{
    let low = lower_all(imports);
    let inject = any_has(&low, "virtualallocex") || any_has(&low, "writeprocessmemory") || any_has(
        &low,
        "ntwritevirtualmemory",
    ) || any_has(&low, "createremotethread") || any_has(&low, "ntcreatethreadex");
    let delete = any_has(&low, "deletefile") || any_has(&low, "ntdeletefile") || any_has(
        &low,
        "movefile",
    );
    let registry = any_has(&low, "regsetvalueex") || any_has(&low, "regcreatekey") || any_has(
        &low,
        "ntcreatekey",
    );
    let mut terms: Vec<Score> = Vec::new();
    if inject {
        if delete {
            terms.push(Score::hundredths(22));
        }
        if registry {
            terms.push(Score::hundredths(22));
        }
        if delete && registry {
            terms.push(Score::hundredths(12));
        }
    }
    assert(terms@ =~= combination_terms(texts(low@)));
    add_up(&terms).min(Score { units: ONE_UNITS })
}

pub open spec fn encoded_download(d: Seq<u8>) -> bool {
    &&& holds_narrow(d, "frombase64string"@) || holds_narrow(d, "-enc "@) || holds_narrow(
        d,
        "-encodedcommand"@,
    )
    &&& holds_narrow(d, "iex"@) || holds_narrow(d, "invoke-expression"@) || holds_narrow(
        d,
        "downloadstring"@,
    ) || holds_narrow(d, "downloadfile"@)
}

pub open spec fn download_execute(d: Seq<u8>) -> bool {
    &&& holds_narrow(d, "downloadstring"@) || holds_narrow(d, "downloadfile"@) || holds_narrow(
        d,
        "invoke-webrequest"@,
    ) || holds_narrow(d, "bitsadmin"@) || holds_narrow(d, "certutil -urlcache"@)
    &&& holds_narrow(d, "iex"@) || holds_narrow(d, "invoke-expression"@) || holds_narrow(
        d,
        "start-process"@,
    ) || holds_narrow(d, "rundll32"@) || holds_narrow(d, "mshta"@)
}

pub open spec fn script_persistence(d: Seq<u8>) -> bool {
    ||| holds_narrow(d, "reg add"@) && (holds_narrow(d, "currentversion\\run"@) || holds_narrow(
        d,
        "currentversion/run"@,
    ))
    ||| holds_narrow(d, "schtasks"@) && (holds_narrow(d, "/create"@) || holds_narrow(d, "create "@))
    ||| holds_narrow(d, "start menu\\programs\\startup"@)
    ||| holds_narrow(d, "\\startup\\"@)
}

pub open spec fn lolbin_chain(d: Seq<u8>) -> bool {
    &&& holds_narrow(d, "rundll32"@) || holds_narrow(d, "regsvr32"@) || holds_narrow(d, "mshta"@)
        || holds_narrow(d, "wscript"@) || holds_narrow(d, "cscript"@)
    &&& holds_narrow(d, "http://"@) || holds_narrow(d, "https://"@) || holds_narrow(d, "\\temp\\"@)
        || holds_narrow(d, "/temp/"@)
}

pub open spec fn security_tampering(d: Seq<u8>) -> bool {
    ||| holds_narrow(d, "set-mppreference -disablerealtimemonitoring"@)
    ||| holds_narrow(d, "set-mppreference -exclusionpath"@)
    ||| holds_narrow(d, "vssadmin delete shadows"@)
    ||| holds_narrow(d, "wbadmin delete catalog"@)
}

pub open spec fn weight_when(condition: bool, hundredths: nat) -> Seq<Score> {
    if condition {
        seq![Score::of_hundredths(hundredths)]
    } else {
        Seq::empty()
    }
}

pub open spec fn script_indicators(d: Seq<u8>) -> Seq<Seq<char>> {
    Seq::<Seq<char>>::empty() + only_if(encoded_download(d), "script_encoded_download_execute"@) + only_if(
        download_execute(d),
        "script_download_execute_chain"@,
    ) + only_if(script_persistence(d), "script_persistence"@) + only_if(
        lolbin_chain(d),
        "script_lolbin_chain"@,
    ) + only_if(security_tampering(d), "script_security_tampering"@)
}

pub open spec fn script_weights(d: Seq<u8>) -> Seq<Score> {
    Seq::<Score>::empty() + weight_when(encoded_download(d), 78) + weight_when(
        download_execute(d),
        68,
    ) + weight_when(script_persistence(d), 62) + weight_when(lolbin_chain(d), 58) + weight_when(
        security_tampering(d),
        72,
    )
}

fn push_weight(weights: &mut Vec<Score>, condition: bool, hundredths: u64)
    requires
        hundredths <= 100,
    ensures
        final(weights)@ == old(weights)@ + weight_when(condition, hundredths as nat),
        final(weights)@.len() <= old(weights)@.len() + 1,
{
    if condition {
        weights.push(Score::hundredths(hundredths));
    }
    assert(weights@ =~= old(weights)@ + weight_when(condition, hundredths as nat));
}

fn has_encoded_download(data: &[u8]) -> (b: bool)
    ensures
        b == encoded_download(data@),
{
    (has_narrow(data, "frombase64string") || has_narrow(data, "-enc ") || has_narrow(
        data,
        "-encodedcommand",
    )) && (has_narrow(data, "iex") || has_narrow(data, "invoke-expression") || has_narrow(
        data,
        "downloadstring",
    ) || has_narrow(data, "downloadfile"))
}

fn has_download_execute(data: &[u8]) -> (b: bool)
    ensures
        b == download_execute(data@),
{
    (has_narrow(data, "downloadstring") || has_narrow(data, "downloadfile")
        || has_narrow(data, "invoke-webrequest") || has_narrow(data, "bitsadmin") || has_narrow(
        data,
        "certutil -urlcache",
    )) && (has_narrow(data, "iex") || has_narrow(data, "invoke-expression") || has_narrow(
        data,
        "start-process",
    ) || has_narrow(data, "rundll32") || has_narrow(data, "mshta"))
}

fn has_script_persistence(data: &[u8]) -> (b: bool)
    ensures
        b == script_persistence(data@),
{
    (has_narrow(data, "reg add") && (has_narrow(data, "currentversion\\run")
        || has_narrow(data, "currentversion/run"))) || (has_narrow(data, "schtasks") && (has_narrow(
        data,
        "/create",
    ) || has_narrow(data, "create "))) || has_narrow(data, "start menu\\programs\\startup")
        || has_narrow(data, "\\startup\\")
}

fn has_lolbin_chain(data: &[u8]) -> (b: bool)
    ensures
        b == lolbin_chain(data@),
{
    (has_narrow(data, "rundll32") || has_narrow(data, "regsvr32") || has_narrow(
        data,
        "mshta",
    ) || has_narrow(data, "wscript") || has_narrow(data, "cscript")) && (has_narrow(data, "http://")
        || has_narrow(data, "https://") || has_narrow(data, "\\temp\\") || has_narrow(
        data,
        "/temp/",
    ))
}

fn has_security_tampering(data: &[u8]) -> (b: bool)
    ensures
        b == security_tampering(data@),
{
    has_narrow(data, "set-mppreference -disablerealtimemonitoring") || has_narrow(
        data,
        "set-mppreference -exclusionpath",
    ) || has_narrow(data, "vssadmin delete shadows") || has_narrow(data, "wbadmin delete catalog")
}

/// Inspects script and command text for a small, conservative set of behaviours. The
/// markers are ASCII, and decoding bytes as text neither merges nor alters an ASCII
/// byte, so the bytes decide, in any ASCII case.
pub fn analyze_script_bytes(data: &[u8]) -> (result: HeuristicScore)
    ensures
        texts(result.indicators@) == script_indicators(data@),
        result.score == calibrated(script_weights(data@)),
        result.score.in_unit(),
{
    let mut indicators: Vec<String> = Vec::new();
    let mut weights: Vec<Score> = Vec::new();
    assert(texts(indicators@) =~= Seq::empty());
    let encoded = has_encoded_download(data);
    push_when(&mut indicators, encoded, "script_encoded_download_execute");
    push_weight(&mut weights, encoded, 78);
    let download = has_download_execute(data);
    push_when(&mut indicators, download, "script_download_execute_chain");
    push_weight(&mut weights, download, 68);
    let persistence = has_script_persistence(data);
    push_when(&mut indicators, persistence, "script_persistence");
    push_weight(&mut weights, persistence, 62);
    let lolbin = has_lolbin_chain(data);
    push_when(&mut indicators, lolbin, "script_lolbin_chain");
    push_weight(&mut weights, lolbin, 58);
    let tampering = has_security_tampering(data);
    push_when(&mut indicators, tampering, "script_security_tampering");
    push_weight(&mut weights, tampering, 72);
    HeuristicScore { score: calibrated_score(&weights), indicators }
}

} // verus!
