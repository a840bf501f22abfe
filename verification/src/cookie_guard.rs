//! Privacy-preserving detection of browser cookie theft.
//!
//! This layer never opens a browser's cookie database. It classifies well-known store
//! paths and looks for combinations of extraction, decryption, database and transfer
//! indicators in a scanned executable or script.

use crate::bytes::{has_narrow, has_wide, holds_narrow, holds_wide};
use crate::paths::{extension_in, extension_of, is_windows};
use crate::score::{add_up, sum_terms, Score, ONE_UNITS};
use crate::text::{
    chars_of, contains_text, finishes_with, has_text, lower, lowered, only_if, push_text, push_when,
    replace_char, replaced, same_text, stands_at, text_between, text_of, texts,
};
use vstd::prelude::*;

verus! {

pub const MAX_PROCESS_IMAGE_BYTES: u64 = 0x80_0000;

/// Stable, content-only indicators of credential theft. Matched strings and browser data are
/// never returned.
pub const SILVERFOX_INDICATORS: [&'static str; 5] = [
    "Login Data",
    "Web Data",
    "Local State",
    "cryptunprotectdata",
    "telegram",
];

#[derive(Debug)]
pub struct CookieGuardScore {
    pub score: Score,
    /// Stable labels only, never matched strings or data of a browser profile.
    pub indicators: Vec<String>,
    pub browser_cookie_store: bool,
}

impl CookieGuardScore {
    pub fn high_confidence(&self) -> (b: bool)
        ensures
            b == (self.score.units >= Score::of_hundredths(82).units && !self.browser_cookie_store),
    {
        self.score.at_least(Score::hundredths(82)) && !self.browser_cookie_store
    }

    pub fn medium_confidence(&self) -> (b: bool)
        ensures
            b == (self.score.units >= Score::of_hundredths(55).units && !self.browser_cookie_store),
    {
        self.score.at_least(Score::hundredths(55)) && !self.browser_cookie_store
    }
}

/// A path with backslashes and in lower case.
pub open spec fn normalized_path(path: Seq<char>) -> Seq<char> {
    lowered(replaced(path, '/', '\\'))
}

fn normalize_path(path: &str) -> (p: String)
    ensures
        p@ == normalized_path(path@),
{
    let slashed = replace_char(path, '/', '\\');
    lower(slashed.as_str())
}

/// The path of a cookie database of the Chromium family or of Firefox.
pub open spec fn cookie_store_path(path: Seq<char>) -> bool {
    let p = normalized_path(path);
    ||| contains_text(p, "\\network\\cookies"@)
    ||| contains_text(p, "\\cookies.sqlite"@)
    ||| contains_text(p, "\\cookies.sqlite-wal"@)
    ||| contains_text(p, "\\cookies.sqlite-shm"@)
}

/// The path is that of a browser's cookie database. A match is metadata, no verdict.
pub fn is_browser_cookie_store(path: &str) -> (b: bool)
    ensures
        b == cookie_store_path(path@),
{
    let p = normalize_path(path);
    has_text(p.as_str(), "\\network\\cookies") || has_text(p.as_str(), "\\cookies.sqlite")
        || has_text(p.as_str(), "\\cookies.sqlite-wal") || has_text(
        p.as_str(),
        "\\cookies.sqlite-shm",
    )
}

/// An extension, in lower case, of files that hold programs or scripts.
pub open spec fn program_extension(e: Seq<char>) -> bool {
    e == "bat"@ || e == "bin"@ || e == "cmd"@ || e == "com"@ || e == "dat"@ || e == "dll"@ || e
        == "exe"@ || e == "hta"@ || e == "js"@ || e == "jse"@ || e == "ps1"@ || e == "py"@ || e
        == "pyw"@ || e == "scr"@ || e == "sys"@ || e == "vbe"@ || e == "vbs"@ || e == "wsc"@ || e
        == "wsf"@
}

/// The file is worth classifying by content: it is no cookie store, and its extension is that
/// of a program or script.
pub open spec fn candidate_path(path: Seq<char>, windows: bool) -> bool {
    !cookie_store_path(path) && match extension_in(path, windows) {
        Some(e) => program_extension(lowered(e)),
        None => false,
    }
}

/// Whether a file is worth classifying by content, by the rules for paths of Windows or of
/// Unix.
pub fn is_candidate_path(path: &str, windows: bool) -> (b: bool)
    ensures
        b == candidate_path(path@, windows),
{
    if is_browser_cookie_store(path) {
        return false;
    }
    match extension_of(path, windows) {
        Some(given) => {
            let low = lower(given.as_str());
            let e = low.as_str();
            same_text(e, "bat") || same_text(e, "bin") || same_text(e, "cmd") || same_text(e, "com")
                || same_text(e, "dat") || same_text(e, "dll") || same_text(e, "exe") || same_text(
                e,
                "hta",
            ) || same_text(e, "js") || same_text(e, "jse") || same_text(e, "ps1") || same_text(
                e,
                "py",
            ) || same_text(e, "pyw") || same_text(e, "scr") || same_text(e, "sys") || same_text(
                e,
                "vbe",
            ) || same_text(e, "vbs") || same_text(e, "wsc") || same_text(e, "wsf")
        },
        None => false,
    }
}

/// Whether a file is worth classifying by content, by the rules for paths of the platform.
pub fn is_cookie_guard_candidate_file(path: &str) -> (b: bool)
    ensures
        exists|windows: bool| b == #[trigger] candidate_path(path@, windows),
{
    let windows = is_windows();
    is_candidate_path(path, windows)
}

/// What follows the last separator of a path.
pub open spec fn base_name(path: Seq<char>) -> Seq<char>
    decreases path.len(),
{
    if path.len() == 0 || path.last() == '\\' || path.last() == '/' {
        Seq::empty()
    } else {
        base_name(path.drop_last()).push(path.last())
    }
}

/// The text without every `suffix` that it ends with.
pub open spec fn without_suffixes(s: Seq<char>, suffix: Seq<char>) -> Seq<char>
    decreases s.len(),
{
    if suffix.len() > 0 && finishes_with(s, suffix) {
        without_suffixes(s.take(s.len() - suffix.len()), suffix)
    } else {
        s
    }
}

fn base_chars(path: &str) -> (name: Vec<char>)
    ensures
        name@ == base_name(path@),
{
    let chars = chars_of(path);
    let mut name: Vec<char> = Vec::new();
    let mut i: usize = 0;
    while i < chars.len()
        invariant
            i <= chars@.len(),
            chars@ == path@,
            name@ == base_name(path@.take(i as int)),
        decreases chars@.len() - i,
    {
        assert(path@.take(i + 1).drop_last() =~= path@.take(i as int));
        assert(path@.take(i + 1).last() == chars@[i as int]);
        if chars[i] == '\\' || chars[i] == '/' {
            name = Vec::new();
        } else {
            name.push(chars[i]);
        }
        i = i + 1;
    }
    assert(path@.take(i as int) =~= path@);
    name
}

pub open spec fn browser_process(name: Seq<char>) -> bool {
    let n = lowered(base_name(name));
    n == "chrome.exe"@ || n == "msedge.exe"@ || n == "firefox.exe"@ || n == "brave.exe"@ || n
        == "opera.exe"@ || n == "vivaldi.exe"@ || n == "chromium.exe"@ || n == "iexplore.exe"@ || n
        == "msedgewebview2.exe"@
}

/// The process is a browser, which is expected to read its own stores.
pub fn is_browser_process_name(path_or_name: &str) -> (b: bool)
    ensures
        b == browser_process(path_or_name@),
{
    let name = base_chars(path_or_name);
    let base = text_of(&name);
    let low = lower(base.as_str());
    let n = low.as_str();
    same_text(n, "chrome.exe") || same_text(n, "msedge.exe") || same_text(n, "firefox.exe")
        || same_text(n, "brave.exe") || same_text(n, "opera.exe") || same_text(n, "vivaldi.exe")
        || same_text(n, "chromium.exe") || same_text(n, "iexplore.exe") || same_text(
        n,
        "msedgewebview2.exe",
    )
}

pub open spec fn cookie_tool(name: Seq<char>) -> bool {
    let n = lowered(without_suffixes(base_name(name), ".exe"@));
    ||| contains_text(n, "hackbrowserdata"@)
    ||| contains_text(n, "browsergost"@)
    ||| contains_text(n, "chromeloginview"@)
    ||| contains_text(n, "webbrowserpassview"@)
    ||| contains_text(n, "cookieextractor"@)
    ||| contains_text(n, "cookiegrabber"@)
    ||| contains_text(n, "cookiesstealer"@)
    ||| contains_text(n, "browserstealer"@)
    ||| contains_text(n, "browserdata"@)
    ||| contains_text(n, "silverfox"@)
}

/// The name is that of a known utility for browser data. It is a hint, no verdict.
pub fn is_known_cookie_tool_name(path_or_name: &str) -> (b: bool)
    ensures
        b == cookie_tool(path_or_name@),
{
    let name = base_chars(path_or_name);
    let suffix = chars_of(".exe");
    let mut end: usize = name.len();
    assert(name@.take(end as int) =~= name@);
    while suffix.len() > 0 && end >= suffix.len() && ends_at(&name, &suffix, end)
        invariant
            end <= name@.len(),
            suffix@ == ".exe"@,
            without_suffixes(name@, suffix@) == without_suffixes(name@.take(end as int), suffix@),
        decreases end,
    {
        assert(name@.take(end as int).take(end - suffix@.len()) =~= name@.take(
            end - suffix@.len(),
        ));
        end = end - suffix.len();
    }
    let stem = text_between(&name, 0, end);
    assert(stem@ =~= name@.take(end as int));
    assert(without_suffixes(name@, suffix@) == stem@);
    let low = lower(stem.as_str());
    let n = low.as_str();
    has_text(n, "hackbrowserdata") || has_text(n, "browsergost") || has_text(n, "chromeloginview")
        || has_text(n, "webbrowserpassview") || has_text(n, "cookieextractor") || has_text(
        n,
        "cookiegrabber",
    ) || has_text(n, "cookiesstealer") || has_text(n, "browserstealer") || has_text(
        n,
        "browserdata",
    ) || has_text(n, "silverfox")
}

/// The first `end` characters end with `suffix`.
fn ends_at(chars: &[char], suffix: &[char], end: usize) -> (b: bool)
    requires
        suffix@.len() <= end <= chars@.len(),
    ensures
        b == finishes_with(chars@.take(end as int), suffix@),
{
    let at: usize = end - suffix.len();
    let b = stands_at(chars, suffix, at);
    proof {
        assert(chars@.subrange(at as int, at + suffix@.len()) =~= chars@.take(end as int).subrange(
            at as int,
            at + suffix@.len(),
        ));
    }
    b
}

/// The bytes hold a text, narrow or wide, in any ASCII case.
pub open spec fn mentions(data: Seq<u8>, text: Seq<char>) -> bool {
    holds_narrow(data, text) || holds_wide(data, text)
}

fn has_mention(data: &[u8], text: &str) -> (b: bool)
    ensures
        b == mentions(data@, text@),
{
    has_narrow(data, text) || has_wide(data, text)
}

pub open spec fn store_reference(d: Seq<u8>) -> bool {
    ||| mentions(d, "network\\cookies"@)
    ||| mentions(d, "/network/cookies"@)
    ||| mentions(d, "cookies.sqlite"@)
    ||| mentions(d, "document.cookie"@)
    ||| mentions(d, "navigator.cookie"@)
    ||| mentions(d, "encrypted_value"@)
    ||| mentions(d, "select host_key"@)
}

fn finds_store_reference(d: &[u8]) -> (b: bool)
    ensures
        b == store_reference(d@),
{
    has_mention(d, "network\\cookies") || has_mention(d, "/network/cookies") || has_mention(
        d,
        "cookies.sqlite",
    ) || has_mention(d, "document.cookie") || has_mention(d, "navigator.cookie") || has_mention(
        d,
        "encrypted_value",
    ) || has_mention(d, "select host_key")
}

pub open spec fn credential_api(d: Seq<u8>) -> bool {
    ||| mentions(d, "cookies.sqlite"@)
    ||| mentions(d, "sqlite3"@)
    ||| mentions(d, "select host_key"@)
    ||| mentions(d, "host_key"@)
    ||| mentions(d, "encrypted_value"@)
    ||| mentions(d, "cryptunprotectdata"@)
    ||| mentions(d, "cryptprotectdata"@)
    ||| mentions(d, "dpapi"@)
    ||| mentions(d, "login data"@)
}

fn finds_credential_api(d: &[u8]) -> (b: bool)
    ensures
        b == credential_api(d@),
{
    has_mention(d, "cookies.sqlite") || has_mention(d, "sqlite3") || has_mention(
        d,
        "select host_key",
    ) || has_mention(d, "host_key") || has_mention(d, "encrypted_value") || has_mention(
        d,
        "cryptunprotectdata",
    ) || has_mention(d, "cryptprotectdata") || has_mention(d, "dpapi") || has_mention(
        d,
        "login data",
    )
}

pub open spec fn credential_store(d: Seq<u8>) -> bool {
    ||| mentions(d, "login data"@)
    ||| mentions(d, "web data"@)
    ||| mentions(d, "local state"@)
}

fn finds_credential_store(d: &[u8]) -> (b: bool)
    ensures
        b == credential_store(d@),
{
    has_mention(d, "login data") || has_mention(d, "web data") || has_mention(d, "local state")
}

pub open spec fn collection(d: Seq<u8>) -> bool {
    ||| mentions(d, "copyfile"@)
    ||| mentions(d, "shutil.copy"@)
    ||| mentions(d, "file.copy"@)
    ||| mentions(d, "readfile"@)
    ||| mentions(d, "sqlite3"@)
    ||| mentions(d, "select host_key"@)
    ||| mentions(d, "document.cookie"@)
}

fn finds_collection(d: &[u8]) -> (b: bool)
    ensures
        b == collection(d@),
{
    has_mention(d, "copyfile") || has_mention(d, "shutil.copy") || has_mention(d, "file.copy")
        || has_mention(d, "readfile") || has_mention(d, "sqlite3") || has_mention(
        d,
        "select host_key",
    ) || has_mention(d, "document.cookie")
}

pub open spec fn exfiltration(d: Seq<u8>) -> bool {
    ||| mentions(d, "invoke-webrequest"@)
    ||| mentions(d, "invoke-restmethod"@)
    ||| mentions(d, "webclient"@)
    ||| mentions(d, "httpclient"@)
    ||| mentions(d, "requests.post"@)
    ||| mentions(d, "requests.put"@)
    ||| mentions(d, "curl"@)
    ||| mentions(d, "wget"@)
    ||| mentions(d, "winhttp"@)
    ||| mentions(d, "urlmon"@)
    ||| mentions(d, "base64"@)
}

fn finds_exfiltration(d: &[u8]) -> (b: bool)
    ensures
        b == exfiltration(d@),
{
    has_mention(d, "invoke-webrequest") || has_mention(d, "invoke-restmethod") || has_mention(
        d,
        "webclient",
    ) || has_mention(d, "httpclient") || has_mention(d, "requests.post") || has_mention(
        d,
        "requests.put",
    ) || has_mention(d, "curl") || has_mention(d, "wget") || has_mention(d, "winhttp")
        || has_mention(d, "urlmon") || has_mention(d, "base64")
}

pub open spec fn archiving(d: Seq<u8>) -> bool {
    ||| mentions(d, "7z"@)
    ||| mentions(d, "zipfile"@)
    ||| mentions(d, "archive"@)
    ||| mentions(d, "compress"@)
}

fn finds_archiving(d: &[u8]) -> (b: bool)
    ensures
        b == archiving(d@),
{
    has_mention(d, "7z") || has_mention(d, "zipfile") || has_mention(d, "archive") || has_mention(
        d,
        "compress",
    )
}

/// What the name and the content of a file say.
#[derive(Debug, Clone, Copy)]
pub struct CookieSignals {
    pub known_tool: bool,
    pub store_reference: bool,
    pub credential_api: bool,
    pub collection: bool,
    pub exfiltration: bool,
    pub archive: bool,
    pub credential_store: bool,
    pub decryption: bool,
    pub telegram: bool,
}

pub open spec fn signals_of(path: Seq<char>, d: Seq<u8>) -> CookieSignals {
    CookieSignals {
        known_tool: cookie_tool(path),
        store_reference: store_reference(d),
        credential_api: credential_api(d),
        collection: collection(d),
        exfiltration: exfiltration(d),
        archive: archiving(d),
        credential_store: credential_store(d),
        decryption: mentions(d, "cryptunprotectdata"@),
        telegram: mentions(d, "telegram"@),
    }
}

pub open spec fn signal_labels(s: CookieSignals) -> Seq<Seq<char>> {
    Seq::<Seq<char>>::empty() + only_if(s.known_tool, "known_browser_data_tool_name"@) + only_if(
        s.store_reference,
        "browser_cookie_reference"@,
    ) + only_if(s.credential_api, "browser_credential_api"@) + only_if(
        s.collection,
        "local_cookie_collection"@,
    ) + only_if(s.exfiltration, "possible_data_exfiltration"@) + only_if(
        s.archive,
        "archive_or_compression"@,
    ) + only_if(s.credential_store, "silverfox_browser_credential_store"@) + only_if(
        s.decryption,
        "silverfox_dpapi_decryption"@,
    ) + only_if(s.telegram, "silverfox_telegram_data_reference"@)
}

pub open spec fn term_if(condition: bool, hundredths: nat) -> Seq<Score> {
    if condition {
        seq![Score::of_hundredths(hundredths)]
    } else {
        Seq::empty()
    }
}

/// The weights of the signals, in the order in which they add up.
pub open spec fn signal_terms(s: CookieSignals) -> Seq<Score> {
    Seq::<Score>::empty() + term_if(s.store_reference, 28) + term_if(s.credential_api, 25)
        + term_if(s.collection, 15) + term_if(s.exfiltration, 25) + term_if(
        s.archive && s.store_reference,
        12,
    ) + term_if(s.known_tool, 45) + term_if(s.credential_store, 24) + term_if(s.decryption, 25)
        + term_if(s.telegram, 15)
}

/// A floor under a score where a combination of signals is decisive.
pub open spec fn floored(score: Score, condition: bool, hundredths: nat) -> Score {
    if condition {
        score.greater(Score::of_hundredths(hundredths))
    } else {
        score
    }
}

pub open spec fn theft_combination(s: CookieSignals) -> bool {
    (s.store_reference && s.credential_api && (s.exfiltration || s.archive)) || (s.known_tool && (
    s.store_reference || s.credential_api))
}

/// The score of the signals.
pub open spec fn signal_score(s: CookieSignals) -> Score {
    floored(
        floored(
            floored(sum_terms(signal_terms(s)), theft_combination(s), 90),
            s.credential_store && s.decryption && (s.collection || s.exfiltration),
            93,
        ),
        s.telegram && (s.collection || s.exfiltration),
        86,
    ).lesser(Score::one())
}

/// Score and indicators of a file that is no cookie store. A browser is not condemned for the
/// strings of its own implementation.
pub open spec fn file_score(path: Seq<char>, d: Seq<u8>) -> Score {
    if browser_process(path) && !cookie_tool(path) {
        Score::zero()
    } else {
        signal_score(signals_of(path, d))
    }
}

fn push_term(terms: &mut Vec<Score>, condition: bool, hundredths: u64)
    requires
        hundredths <= 100,
        forall|i: int|
            0 <= i < old(terms)@.len() ==> (#[trigger] old(terms)@[i]).in_unit(),
    ensures
        final(terms)@ == old(terms)@ + term_if(condition, hundredths as nat),
        final(terms)@.len() <= old(terms)@.len() + 1,
        forall|i: int|
            0 <= i < final(terms)@.len() ==> (#[trigger] final(terms)@[i]).in_unit(),
{
    if condition {
        terms.push(Score::hundredths(hundredths));
    }
    assert(terms@ =~= old(terms)@ + term_if(condition, hundredths as nat));
}

fn raise_to(score: Score, condition: bool, hundredths: u64) -> (s: Score)
    requires
        hundredths <= 100,
    ensures
        s == floored(score, condition, hundredths as nat),
{
    if condition {
        score.max(Score::hundredths(hundredths))
    } else {
        score
    }
}

fn collect_signals(path: &str, bytes: &[u8]) -> (s: CookieSignals)
    ensures
        s == signals_of(path@, bytes@),
{
    CookieSignals {
        known_tool: is_known_cookie_tool_name(path),
        store_reference: finds_store_reference(bytes),
        credential_api: finds_credential_api(bytes),
        collection: finds_collection(bytes),
        exfiltration: finds_exfiltration(bytes),
        archive: finds_archiving(bytes),
        credential_store: finds_credential_store(bytes),
        decryption: has_mention(bytes, "cryptunprotectdata"),
        telegram: has_mention(bytes, "telegram"),
    }
}

fn labels_of(s: CookieSignals) -> (labels: Vec<String>)
    ensures
        texts(labels@) == signal_labels(s),
{
    let mut labels: Vec<String> = Vec::new();
    assert(texts(labels@) =~= Seq::empty());
    push_when(&mut labels, s.known_tool, "known_browser_data_tool_name");
    push_when(&mut labels, s.store_reference, "browser_cookie_reference");
    push_when(&mut labels, s.credential_api, "browser_credential_api");
    push_when(&mut labels, s.collection, "local_cookie_collection");
    push_when(&mut labels, s.exfiltration, "possible_data_exfiltration");
    push_when(&mut labels, s.archive, "archive_or_compression");
    push_when(&mut labels, s.credential_store, "silverfox_browser_credential_store");
    push_when(&mut labels, s.decryption, "silverfox_dpapi_decryption");
    push_when(&mut labels, s.telegram, "silverfox_telegram_data_reference");
    labels
}

fn score_of(s: CookieSignals) -> (score: Score)
    ensures
        score == signal_score(s),
{
    let mut terms: Vec<Score> = Vec::new();
    push_term(&mut terms, s.store_reference, 28);
    push_term(&mut terms, s.credential_api, 25);
    push_term(&mut terms, s.collection, 15);
    push_term(&mut terms, s.exfiltration, 25);
    push_term(&mut terms, s.archive && s.store_reference, 12);
    push_term(&mut terms, s.known_tool, 45);
    push_term(&mut terms, s.credential_store, 24);
    push_term(&mut terms, s.decryption, 25);
    push_term(&mut terms, s.telegram, 15);
    let total = add_up(&terms);
    let theft = (s.store_reference && s.credential_api && (s.exfiltration || s.archive)) || (
    s.known_tool && (s.store_reference || s.credential_api));
    let first = raise_to(total, theft, 90);
    let second = raise_to(
        first,
        s.credential_store && s.decryption && (s.collection || s.exfiltration),
        93,
    );
    let third = raise_to(second, s.telegram && (s.collection || s.exfiltration), 86);
    third.min(Score { units: ONE_UNITS })
}

/// Classifies the content of an executable or script.
pub fn analyze_bytes(path: &str, bytes: &[u8]) -> (result: CookieGuardScore)
    ensures
        result.browser_cookie_store == cookie_store_path(path@),
        result.score == (if cookie_store_path(path@) {
            Score::zero()
        } else {
            file_score(path@, bytes@)
        }),
        texts(result.indicators@) == (if cookie_store_path(path@) {
            seq!["browser_cookie_store_path"@]
        } else {
            signal_labels(signals_of(path@, bytes@))
        }),
{
    if is_browser_cookie_store(path) {
        let mut indicators: Vec<String> = Vec::new();
        assert(texts(indicators@) =~= Seq::empty());
        push_text(&mut indicators, "browser_cookie_store_path".to_owned());
        return CookieGuardScore {
            score: Score { units: 0 },
            indicators,
            browser_cookie_store: true,
        };
    }
    let signals = collect_signals(path, bytes);
    let indicators = labels_of(signals);
    let score = if is_browser_process_name(path) && !signals.known_tool {
        Score { units: 0 }
    } else {
        score_of(signals)
    };
    CookieGuardScore { score, indicators, browser_cookie_store: false }
}

/// A process image may be read: it is a file of bounded size.
pub fn may_inspect_image(is_file: bool, size: u64) -> (b: bool)
    ensures
        b == (is_file && size <= MAX_PROCESS_IMAGE_BYTES),
{
    is_file && size <= MAX_PROCESS_IMAGE_BYTES
}

/// Inspects a process image; one that may not or could not be read scores nothing.
pub fn analyze_process_image(path: &str, image: Option<&[u8]>) -> (result: CookieGuardScore)
    ensures
        match image {
            Some(bytes) => {
                &&& result.browser_cookie_store == cookie_store_path(path@)
                &&& result.score == (if cookie_store_path(path@) {
                    Score::zero()
                } else {
                    file_score(path@, bytes@)
                })
                &&& texts(result.indicators@) == (if cookie_store_path(path@) {
                    seq!["browser_cookie_store_path"@]
                } else {
                    signal_labels(signals_of(path@, bytes@))
                })
            },
            None => result.score == Score::zero() && result.indicators@.len() == 0
                && !result.browser_cookie_store,
        },
{
    match image {
        Some(bytes) => analyze_bytes(path, bytes),
        None => CookieGuardScore {
            score: Score { units: 0 },
            indicators: Vec::new(),
            browser_cookie_store: false,
        },
    }
}

/// The labels that an indicator can be.
pub open spec fn is_label(t: Seq<char>) -> bool {
    t == "known_browser_data_tool_name"@ || t == "browser_cookie_reference"@ || t
        == "browser_credential_api"@ || t == "local_cookie_collection"@ || t
        == "possible_data_exfiltration"@ || t == "archive_or_compression"@ || t
        == "silverfox_browser_credential_store"@ || t == "silverfox_dpapi_decryption"@ || t
        == "silverfox_telegram_data_reference"@
}

spec fn all_labels(items: Seq<Seq<char>>) -> bool {
    forall|i: int| 0 <= i < items.len() ==> is_label(#[trigger] items[i])
}

proof fn lemma_label_added(items: Seq<Seq<char>>, condition: bool, label: Seq<char>)
    requires
        all_labels(items),
        is_label(label),
    ensures
        all_labels(items + only_if(condition, label)),
{
    let more = items + only_if(condition, label);
    assert forall|i: int| 0 <= i < more.len() implies is_label(#[trigger] more[i]) by {
        if i < items.len() {
            assert(more[i] == items[i]);
        } else {
            assert(more[i] == label);
        }
    }
}

/// Indicators are stable labels whatever the file holds: no matched string and no data of a
/// browser profile ever leaves the classifier.
pub proof fn law_indicators_are_labels(s: CookieSignals, i: int)
    requires
        0 <= i < signal_labels(s).len(),
    ensures
        is_label(signal_labels(s)[i]),
{
    let l0 = Seq::<Seq<char>>::empty();
    lemma_label_added(l0, s.known_tool, "known_browser_data_tool_name"@);
    let l1 = l0 + only_if(s.known_tool, "known_browser_data_tool_name"@);
    lemma_label_added(l1, s.store_reference, "browser_cookie_reference"@);
    let l2 = l1 + only_if(s.store_reference, "browser_cookie_reference"@);
    lemma_label_added(l2, s.credential_api, "browser_credential_api"@);
    let l3 = l2 + only_if(s.credential_api, "browser_credential_api"@);
    lemma_label_added(l3, s.collection, "local_cookie_collection"@);
    let l4 = l3 + only_if(s.collection, "local_cookie_collection"@);
    lemma_label_added(l4, s.exfiltration, "possible_data_exfiltration"@);
    let l5 = l4 + only_if(s.exfiltration, "possible_data_exfiltration"@);
    lemma_label_added(l5, s.archive, "archive_or_compression"@);
    let l6 = l5 + only_if(s.archive, "archive_or_compression"@);
    lemma_label_added(l6, s.credential_store, "silverfox_browser_credential_store"@);
    let l7 = l6 + only_if(s.credential_store, "silverfox_browser_credential_store"@);
    lemma_label_added(l7, s.decryption, "silverfox_dpapi_decryption"@);
    let l8 = l7 + only_if(s.decryption, "silverfox_dpapi_decryption"@);
    lemma_label_added(l8, s.telegram, "silverfox_telegram_data_reference"@);
    let l9 = l8 + only_if(s.telegram, "silverfox_telegram_data_reference"@);
    assert(signal_labels(s) == l9);
}

/// A score never exceeds one.
pub proof fn law_scores_are_bounded(s: CookieSignals)
    ensures
        signal_score(s).in_unit(),
{
}

} // verus!
