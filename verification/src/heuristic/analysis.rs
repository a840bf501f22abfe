//! Analysis of executable images.

use crate::bytes::{has_narrow, holds_narrow, lower_byte, lower_byte_of, read_u16, read_u32, u16_at, u32_at};
use crate::clock::now_millis;
use crate::heuristic::context::{
    adjust_score_by_path, adjusted_score, anomaly_score, classify_path_context, combination_score,
    path_context, score_api_combinations, CompilerFingerprint, PathContext,
};
use crate::heuristic::rulebook::{
    calibrated, calibrated_score, descriptions_of, lower_all, lowered_all, one_if, one_when,
    score_static_signals, static_hits, static_rules, weights_of, HeuristicScore,
};
use crate::objects::{
    elf_layout, format_of, mach_layout, mach_of, object_format, optional_header, parsed_elf,
    parsed_optional_header, pe_layout, pe_of, ElfLayout, ElfLayoutView, MachLayout,
    MachLayoutView, ObjectFormat, OptionalHeader, PeLayout, PeLayoutView, SectionFacts,
    SectionView, SegmentFacts,
};
use crate::paths::{file_name_in, file_name_of, is_windows};
use crate::score::Score;
use crate::text::{
    any_contains, any_has, concat2, concat3, decimal, decimal_text, list_contains, lower, lowered,
    only_if, push_text, push_when, same_text, texts,
};
use crate::unpacking::{
    assess_unpacking, has_pe_signature, pe_signature_at, unpacking_indicators,
};
use vstd::prelude::*;

verus! {

/// Why a buffer could not be analysed.
#[derive(Debug)]
pub enum HeuristicError {
    Parse(String),
}

impl HeuristicError {
    /// The error as a sentence.
    pub fn message(&self) -> (s: String)
        ensures
            self matches HeuristicError::Parse(reason) ==> s@ == "parsing error: "@ + reason@,
    {
        match self {
            HeuristicError::Parse(reason) => concat2("parsing error: ", reason.as_str()),
        }
    }
}

/// The entropy of a buffer, block by block. The figures are measured by the caller.
#[derive(Debug)]
pub struct EntropyProfile {
    pub blocks: Vec<Score>,
    pub mean: Score,
    pub variance: Score,
    pub peak: Score,
}

/// The bounded score of a profile of `blocks` blocks. A flat, very high profile is more
/// consistent with encryption than with ordinary compression.
pub open spec fn profile_score(blocks: nat, mean: Score, variance: Score) -> Score {
    if blocks >= 8 && mean.units >= Score::of_ratio(785, 100).units && variance.units
        <= Score::of_hundredths(4).units {
        Score::of_hundredths(55)
    } else if mean.units >= Score::of_ratio(7, 1).units && variance.units >= Score::of_hundredths(
        12,
    ).units {
        Score::of_hundredths(10)
    } else {
        Score::zero()
    }
}

impl EntropyProfile {
    pub fn score(&self) -> (s: Score)
        ensures
            s == profile_score(self.blocks@.len(), self.mean, self.variance),
    {
        if self.blocks.len() >= 8 && self.mean.at_least(Score::ratio(785, 100))
            && Score::hundredths(4).at_least(self.variance) {
            Score::hundredths(55)
        } else if self.mean.at_least(Score::ratio(7, 1)) && self.variance.at_least(
            Score::hundredths(12),
        ) {
            Score::hundredths(10)
        } else {
            Score { units: 0 }
        }
    }
}

/// A measured entropy and how it is written.
#[derive(Debug)]
pub struct EntropyReading {
    pub value: Score,
    pub text: String,
}

/// The entropies that an analysis needs; see `entropy_spans`.
#[derive(Debug)]
pub struct EntropyReadings {
    /// The profile of the whole buffer.
    pub profile: EntropyProfile,
    /// The entropy of each section's raw data, in section order.
    pub sections: Vec<EntropyReading>,
    /// The entropy of the bytes after the last section.
    pub overlay: Score,
}

pub struct ReadingView {
    pub value: Score,
    pub text: Seq<char>,
}

pub struct ReadingsView {
    pub profile: Score,
    pub sections: Seq<ReadingView>,
    pub overlay: Score,
}

impl View for EntropyReading {
    type V = ReadingView;

    open spec fn view(&self) -> ReadingView {
        ReadingView { value: self.value, text: self.text@ }
    }
}

impl View for EntropyReadings {
    type V = ReadingsView;

    open spec fn view(&self) -> ReadingsView {
        ReadingsView {
            profile: profile_score(
                self.profile.blocks@.len(),
                self.profile.mean,
                self.profile.variance,
            ),
            sections: self.sections@.map_values(|r: EntropyReading| r@),
            overlay: self.overlay,
        }
    }
}

/// The byte ranges whose entropy an analysis needs.
#[derive(Debug)]
pub struct EntropySpans {
    /// The raw data of each section, where it lies inside the buffer.
    pub sections: Vec<Option<(usize, usize)>>,
    /// The bytes after the last section, where there are enough of them.
    pub overlay: Option<(usize, usize)>,
}

/// One mebibyte.
pub const MIN_OVERLAY_BYTES: usize = 0x10_0000;

/// How far a debug path is searched for.
pub const MAX_PDB_SCAN_BYTES: usize = 0x40_0000;

pub const MAX_PDB_PATH_BYTES: usize = 512;

pub const SECTION_WRITABLE: u32 = 0x8000_0000;

pub const SECTION_EXECUTABLE: u32 = 0x2000_0000;

/// Thirty days, in seconds.
pub const FUTURE_TOLERANCE_SECONDS: u64 = 2_592_000;

/// Twenty years, in seconds.
pub const STALE_SECONDS: u64 = 630_720_000;

/// The raw data of a section, where it is not empty and lies inside the buffer.
pub open spec fn section_span(s: SectionView, size: nat) -> Option<(usize, usize)> {
    let end = s.raw_pointer + s.raw_size;
    if s.raw_size > 0 && end <= size {
        Some((s.raw_pointer as usize, end as usize))
    } else {
        None
    }
}

/// Where the raw data of the last section ends.
pub open spec fn raw_end(sections: Seq<SectionView>) -> nat
    decreases sections.len(),
{
    if sections.len() == 0 {
        0
    } else {
        let before = raw_end(sections.drop_last());
        let end = (sections.last().raw_pointer + sections.last().raw_size) as nat;
        if end > before {
            end
        } else {
            before
        }
    }
}

/// The bytes after the last section, where there is at least a mebibyte of them.
pub open spec fn overlay_span(sections: Seq<SectionView>, size: nat) -> Option<(usize, usize)> {
    if raw_end(sections) < size && size - raw_end(sections) >= MIN_OVERLAY_BYTES {
        Some((raw_end(sections) as usize, size as usize))
    } else {
        None
    }
}

pub open spec fn section_title(s: SectionView) -> Seq<char> {
    match s.name {
        Some(n) => n,
        None => "?"@,
    }
}

pub open spec fn is_wx(characteristics: u32) -> bool {
    characteristics & SECTION_WRITABLE != 0 && characteristics & SECTION_EXECUTABLE != 0
}

/// The entropy reading of section `i`; a missing one reads as zero.
pub open spec fn reading_value(readings: Seq<ReadingView>, i: int) -> Score {
    if 0 <= i < readings.len() {
        readings[i].value
    } else {
        Score::zero()
    }
}

/// The notes on the sections from `i` on: the first high entropy ends them, before it
/// every writable and executable section is noted.
pub open spec fn section_notes(
    sections: Seq<SectionView>,
    readings: Seq<ReadingView>,
    size: nat,
    i: int,
) -> Seq<Seq<char>>
    decreases sections.len() - i,
{
    if i < 0 || i >= sections.len() {
        Seq::empty()
    } else if section_span(sections[i], size) is Some && reading_value(readings, i).units
        > Score::of_ratio(75, 10).units {
        seq![
            "high_section_entropy: "@ + readings[i].text + " (section "@ + section_title(sections[i])
                + ")"@,
        ]
    } else {
        only_if(
            is_wx(sections[i].characteristics),
            "wx_section: "@ + section_title(sections[i]),
        ) + section_notes(sections, readings, size, i + 1)
    }
}

/// The stamp lies more than thirty days ahead of `now`, or more than twenty years back.
pub open spec fn stamp_anomalous(stamp: u32, now: u64) -> bool {
    stamp > now + FUTURE_TOLERANCE_SECONDS || stamp + STALE_SECONDS < now
}

pub open spec fn is_proxy_library(name: Seq<char>) -> bool {
    let n = lowered(name);
    n == "version.dll"@ || n == "winmm.dll"@ || n == "dbghelp.dll"@ || n == "wininet.dll"@ || n
        == "cryptbase.dll"@ || n == "uxtheme.dll"@ || n == "dinput8.dll"@
}

/// Some library is one that side-loading commonly stands in for.
pub open spec fn proxy_library(libraries: Seq<Seq<char>>) -> bool {
    exists|i: int| 0 <= i < libraries.len() && is_proxy_library(#[trigger] libraries[i])
}

fn finds_proxy_library(libraries: &[String]) -> (r: bool)
    ensures
        r == proxy_library(texts(libraries@)),
{
    let mut i: usize = 0;
    while i < libraries.len()
        invariant
            i <= libraries@.len(),
            forall|k: int| 0 <= k < i ==> !is_proxy_library(#[trigger] texts(libraries@)[k]),
        decreases libraries@.len() - i,
    {
        let low = lower(libraries[i].as_str());
        let n = low.as_str();
        if same_text(n, "version.dll") || same_text(n, "winmm.dll") || same_text(n, "dbghelp.dll")
            || same_text(n, "wininet.dll") || same_text(n, "cryptbase.dll") || same_text(
            n,
            "uxtheme.dll",
        ) || same_text(n, "dinput8.dll") {
            assert(is_proxy_library(texts(libraries@)[i as int]));
            return true;
        }
        i = i + 1;
    }
    false
}

/// Some import allocates, writes or resolves code.
pub open spec fn suspicious_imports(imports: Seq<Seq<char>>) -> bool {
    any_contains(imports, "virtualalloc"@) || any_contains(imports, "writeprocessmemory"@) || any_contains(imports, "getprocaddress"@) || any_contains(imports, "loadlibrary"@) || any_contains(imports, "createremotethread"@) || any_contains(imports, "cryptencrypt"@) || any_contains(imports, "adjusttokenprivileges"@) || any_contains(imports, "setwindowshookex"@)
}

fn finds_suspicious_imports(imports: &[String]) -> (r: bool)
    ensures
        r == suspicious_imports(texts(imports@)),
{
    any_has(imports, "virtualalloc") || any_has(imports, "writeprocessmemory") || any_has(imports, "getprocaddress") || any_has(imports, "loadlibrary") || any_has(imports, "createremotethread") || any_has(imports, "cryptencrypt") || any_has(imports, "adjusttokenprivileges") || any_has(imports, "setwindowshookex")
}

/// Memory is allocated, written and started in another process.
pub open spec fn injection_chain(imports: Seq<Seq<char>>) -> bool {
    any_contains(imports, "virtualalloc"@) && any_contains(imports, "writeprocessmemory"@) && any_contains(imports, "createremotethread"@)
}

fn finds_injection_chain(imports: &[String]) -> (r: bool)
    ensures
        r == injection_chain(texts(imports@)),
{
    any_has(imports, "virtualalloc") && any_has(imports, "writeprocessmemory") && any_has(imports, "createremotethread")
}

/// Data is encrypted and the original removed.
pub open spec fn ransom_chain(imports: Seq<Seq<char>>) -> bool {
    any_contains(imports, "cryptacquirecontext"@) && any_contains(imports, "cryptencrypt"@) && (any_contains(imports, "deletefile"@) || any_contains(imports, "movefile"@))
}

fn finds_ransom_chain(imports: &[String]) -> (r: bool)
    ensures
        r == ransom_chain(texts(imports@)),
{
    any_has(imports, "cryptacquirecontext") && any_has(imports, "cryptencrypt") && (any_has(imports, "deletefile") || any_has(imports, "movefile"))
}

/// Token privileges are raised and another process opened.
pub open spec fn privilege_chain(imports: Seq<Seq<char>>) -> bool {
    any_contains(imports, "openprocesstoken"@) && any_contains(imports, "adjusttokenprivileges"@) && any_contains(imports, "openprocess"@)
}

fn finds_privilege_chain(imports: &[String]) -> (r: bool)
    ensures
        r == privilege_chain(texts(imports@)),
{
    any_has(imports, "openprocesstoken") && any_has(imports, "adjusttokenprivileges") && any_has(imports, "openprocess")
}

/// A window hook together with keyboard polling, imported or resolved by name.
pub open spec fn hooking_chain(imports: Seq<Seq<char>>, data: Seq<u8>) -> bool {
    (any_contains(imports, "setwindowshookex"@) && (any_contains(imports, "getasynckeystate"@) || any_contains(imports, "getkeyboardstate"@) || any_contains(imports, "getkeyboardlayout"@))) || (holds_narrow(data, "SetWindowsHookEx"@) && (holds_narrow(data, "GetAsyncKeyState"@) || holds_narrow(data, "GetKeyboardState"@)))
}

fn finds_hooking_chain(imports: &[String], data: &[u8]) -> (r: bool)
    ensures
        r == hooking_chain(texts(imports@), data@),
{
    (any_has(imports, "setwindowshookex") && (any_has(imports, "getasynckeystate") || any_has(imports, "getkeyboardstate") || any_has(imports, "getkeyboardlayout"))) || (has_narrow(data, "SetWindowsHookEx") && (has_narrow(data, "GetAsyncKeyState") || has_narrow(data, "GetKeyboardState")))
}

/// Libraries and functions are resolved at run time.
pub open spec fn dynamic_load_chain(imports: Seq<Seq<char>>) -> bool {
    any_contains(imports, "getprocaddress"@) && any_contains(imports, "loadlibrary"@)
}

fn finds_dynamic_load_chain(imports: &[String]) -> (r: bool)
    ensures
        r == dynamic_load_chain(texts(imports@)),
{
    any_has(imports, "getprocaddress") && any_has(imports, "loadlibrary")
}

/// A directory from which libraries are side-loaded.
pub open spec fn side_load_path(data: Seq<u8>) -> bool {
    holds_narrow(data, "\\appdata\\"@) || holds_narrow(data, "\\local\\temp\\"@) || holds_narrow(data, "\\downloads\\"@) || holds_narrow(data, "\\programdata\\"@)
}

fn finds_side_load_path(data: &[u8]) -> (r: bool)
    ensures
        r == side_load_path(data@),
{
    has_narrow(data, "\\appdata\\") || has_narrow(data, "\\local\\temp\\") || has_narrow(data, "\\downloads\\") || has_narrow(data, "\\programdata\\")
}

/// A loader entry point or a window enumeration.
pub open spec fn side_load_loader(data: Seq<u8>) -> bool {
    holds_narrow(data, "dllmain"@) || holds_narrow(data, "enumwindows"@) || holds_narrow(data, "enumchildwindows"@)
}

fn finds_side_load_loader(data: &[u8]) -> (r: bool)
    ensures
        r == side_load_loader(data@),
{
    has_narrow(data, "dllmain") || has_narrow(data, "enumwindows") || has_narrow(data, "enumchildwindows")
}

/// How many thread-pool APIs are imported.
pub open spec fn threadpool_hits(imports: Seq<Seq<char>>) -> nat {
    one_if(any_contains(imports, "createthreadpoolwork"@))
        + one_if(any_contains(imports, "create_threadpool_work"@))
        + one_if(any_contains(imports, "submitthreadpoolwork"@))
        + one_if(any_contains(imports, "closethreadpoolwork"@))
        + one_if(any_contains(imports, "tpallocwork"@))
        + one_if(any_contains(imports, "tppostwork"@))
        + one_if(any_contains(imports, "trysubmitthreadpoolcallback"@))
        + one_if(any_contains(imports, "setthreadpooltimer"@))
        + one_if(any_contains(imports, "createthreadpooltimer"@))
}

fn finds_threadpool_hits(imports: &[String]) -> (r: u8)
    ensures
        r == threadpool_hits(texts(imports@)),
{
    one_when(any_has(imports, "createthreadpoolwork"))
        + one_when(any_has(imports, "create_threadpool_work"))
        + one_when(any_has(imports, "submitthreadpoolwork"))
        + one_when(any_has(imports, "closethreadpoolwork"))
        + one_when(any_has(imports, "tpallocwork"))
        + one_when(any_has(imports, "tppostwork"))
        + one_when(any_has(imports, "trysubmitthreadpoolcallback"))
        + one_when(any_has(imports, "setthreadpooltimer"))
        + one_when(any_has(imports, "createthreadpooltimer"))
}

/// Some import changes memory or its protection.
pub open spec fn memory_mutation(imports: Seq<Seq<char>>) -> bool {
    any_contains(imports, "virtualalloc"@) || any_contains(imports, "virtualprotect"@) || any_contains(imports, "ntprotectvirtualmemory"@) || any_contains(imports, "rtlmovememory"@) || any_contains(imports, "writeprocessmemory"@)
}

fn finds_memory_mutation(imports: &[String]) -> (r: bool)
    ensures
        r == memory_mutation(texts(imports@)),
{
    any_has(imports, "virtualalloc") || any_has(imports, "virtualprotect") || any_has(imports, "ntprotectvirtualmemory") || any_has(imports, "rtlmovememory") || any_has(imports, "writeprocessmemory")
}

/// A proxy library, a side-loading or loader marker, and code brought into memory.
pub open spec fn sideload_injection(imports: Seq<Seq<char>>, data: Seq<u8>, libraries: Seq<Seq<char>>) -> bool {
    proxy_library(libraries) && (side_load_path(data) || side_load_loader(data)) && (memory_mutation(imports) || dynamic_load_chain(imports)) && (dynamic_load_chain(imports) || any_contains(imports, "createremotethread"@))
}

fn finds_sideload_injection(imports: &[String], data: &[u8], libraries: &[String]) -> (r: bool)
    ensures
        r == sideload_injection(texts(imports@), data@, texts(libraries@)),
{
    finds_proxy_library(libraries) && (finds_side_load_path(data) || finds_side_load_loader(data)) && (finds_memory_mutation(imports) || finds_dynamic_load_chain(imports)) && (finds_dynamic_load_chain(imports) || any_has(imports, "createremotethread"))
}

/// Thread-pool scheduling together with memory changes or resolution, or a lot of it.
pub open spec fn threadpool_obfuscation(imports: Seq<Seq<char>>) -> bool {
    threadpool_hits(imports) >= 2 && ((memory_mutation(imports) && (dynamic_load_chain(imports) || any_contains(imports, "ntflushinstructioncache"@))) || threadpool_hits(imports) >= 3)
}

fn finds_threadpool_obfuscation(imports: &[String]) -> (r: bool)
    ensures
        r == threadpool_obfuscation(texts(imports@)),
{
    finds_threadpool_hits(imports) >= 2 && ((finds_memory_mutation(imports) && (finds_dynamic_load_chain(imports) || any_has(imports, "ntflushinstructioncache"))) || finds_threadpool_hits(imports) >= 3)
}

/// Windows are enumerated and code is loaded in memory.
pub open spec fn reflective_loader_chain(imports: Seq<Seq<char>>) -> bool {
    (any_contains(imports, "enumwindows"@) || any_contains(imports, "enumchildwindows"@)) && (any_contains(imports, "virtualprotect"@) || any_contains(imports, "ntprotectvirtualmemory"@)) && (any_contains(imports, "rtlmovememory"@) || any_contains(imports, "ntflushinstructioncache"@) || dynamic_load_chain(imports))
}

fn finds_reflective_loader_chain(imports: &[String]) -> (r: bool)
    ensures
        r == reflective_loader_chain(texts(imports@)),
{
    (any_has(imports, "enumwindows") || any_has(imports, "enumchildwindows")) && (any_has(imports, "virtualprotect") || any_has(imports, "ntprotectvirtualmemory")) && (any_has(imports, "rtlmovememory") || any_has(imports, "ntflushinstructioncache") || finds_dynamic_load_chain(imports))
}

/// A vulnerable security driver, a way to terminate processes, and a security product.
pub open spec fn driver_termination(imports: Seq<Seq<char>>, data: Seq<u8>) -> bool {
    (holds_narrow(data, "amsdk.sys"@) || holds_narrow(data, "zam.exe"@) || holds_narrow(data, "watchdog antimalware"@)) && (any_contains(imports, "terminateprocess"@) || holds_narrow(data, "ntterminateprocess"@) || holds_narrow(data, "zwterminateprocess"@)) && (holds_narrow(data, "msmpeng.exe"@) || holds_narrow(data, "windefend"@) || holds_narrow(data, "csfalconservice.exe"@) || holds_narrow(data, "ekrn.exe"@) || holds_narrow(data, "avp.exe"@))
}

fn finds_driver_termination(imports: &[String], data: &[u8]) -> (r: bool)
    ensures
        r == driver_termination(texts(imports@), data@),
{
    (has_narrow(data, "amsdk.sys") || has_narrow(data, "zam.exe") || has_narrow(data, "watchdog antimalware")) && (any_has(imports, "terminateprocess") || has_narrow(data, "ntterminateprocess") || has_narrow(data, "zwterminateprocess")) && (has_narrow(data, "msmpeng.exe") || has_narrow(data, "windefend") || has_narrow(data, "csfalconservice.exe") || has_narrow(data, "ekrn.exe") || has_narrow(data, "avp.exe"))
}

/// A protection setting or hook, and a way to change it.
pub open spec fn defender_tampering(imports: Seq<Seq<char>>, data: Seq<u8>) -> bool {
    (holds_narrow(data, "amsiscanbuffer"@) || holds_narrow(data, "etweventwrite"@) || holds_narrow(data, "disablerealtimemonitoring"@) || holds_narrow(data, "exclusionpath"@) || holds_narrow(data, "mpreference"@)) && (memory_mutation(imports) || holds_narrow(data, "sc stop"@) || holds_narrow(data, "set-mppreference"@))
}

fn finds_defender_tampering(imports: &[String], data: &[u8]) -> (r: bool)
    ensures
        r == defender_tampering(texts(imports@), data@),
{
    (has_narrow(data, "amsiscanbuffer") || has_narrow(data, "etweventwrite") || has_narrow(data, "disablerealtimemonitoring") || has_narrow(data, "exclusionpath") || has_narrow(data, "mpreference")) && (finds_memory_mutation(imports) || has_narrow(data, "sc stop") || has_narrow(data, "set-mppreference"))
}

/// A known elevation target and a way to start it.
pub open spec fn uac_bypass(imports: Seq<Seq<char>>, data: Seq<u8>) -> bool {
    (holds_narrow(data, "fodhelper.exe"@) || holds_narrow(data, "eventvwr.exe"@) || holds_narrow(data, "computerdefaults.exe"@) || holds_narrow(data, "sdclt.exe"@)) && (any_contains(imports, "shellexecute"@) || any_contains(imports, "createprocess"@) || any_contains(imports, "winexec"@))
}

fn finds_uac_bypass(imports: &[String], data: &[u8]) -> (r: bool)
    ensures
        r == uac_bypass(texts(imports@), data@),
{
    (has_narrow(data, "fodhelper.exe") || has_narrow(data, "eventvwr.exe") || has_narrow(data, "computerdefaults.exe") || has_narrow(data, "sdclt.exe")) && (any_has(imports, "shellexecute") || any_has(imports, "createprocess") || any_has(imports, "winexec"))
}

/// How many persistence markers the bytes hold.
pub open spec fn persistence_hits(data: Seq<u8>) -> nat {
    one_if(holds_narrow(data, "currentversion\\run"@))
        + one_if(holds_narrow(data, "schtasks /create"@))
        + one_if(holds_narrow(data, "create service"@))
        + one_if(holds_narrow(data, "sc create"@))
        + one_if(holds_narrow(data, "\\startup\\"@))
}

fn finds_persistence_hits(data: &[u8]) -> (r: u8)
    ensures
        r == persistence_hits(data@),
{
    one_when(has_narrow(data, "currentversion\\run"))
        + one_when(has_narrow(data, "schtasks /create"))
        + one_when(has_narrow(data, "create service"))
        + one_when(has_narrow(data, "sc create"))
        + one_when(has_narrow(data, "\\startup\\"))
}

/// Clipboard or window text is read.
pub open spec fn credential_capture(imports: Seq<Seq<char>>, data: Seq<u8>) -> bool {
    any_contains(imports, "getclipboarddata"@) || any_contains(imports, "openclipboard"@) || any_contains(imports, "getwindowtext"@) || holds_narrow(data, "GetClipboardData"@) || holds_narrow(data, "OpenClipboard"@) || holds_narrow(data, "GetWindowText"@)
}

fn finds_credential_capture(imports: &[String], data: &[u8]) -> (r: bool)
    ensures
        r == credential_capture(texts(imports@), data@),
{
    any_has(imports, "getclipboarddata") || any_has(imports, "openclipboard") || any_has(imports, "getwindowtext") || has_narrow(data, "GetClipboardData") || has_narrow(data, "OpenClipboard") || has_narrow(data, "GetWindowText")
}

/// A credential store is named.
pub open spec fn credential_store(data: Seq<u8>) -> bool {
    holds_narrow(data, "logins.json"@) || holds_narrow(data, "cookies.sqlite"@) || holds_narrow(data, "wallet.dat"@) || holds_narrow(data, "login data"@) || holds_narrow(data, "web data"@) || holds_narrow(data, "autofill"@)
}

fn finds_credential_store(data: &[u8]) -> (r: bool)
    ensures
        r == credential_store(data@),
{
    has_narrow(data, "logins.json") || has_narrow(data, "cookies.sqlite") || has_narrow(data, "wallet.dat") || has_narrow(data, "login data") || has_narrow(data, "web data") || has_narrow(data, "autofill")
}

/// Collection or transfer is supported.
pub open spec fn credential_exfiltration(imports: Seq<Seq<char>>, data: Seq<u8>) -> bool {
    any_contains(imports, "ftpswebrequest"@) || any_contains(imports, "smtpclient"@) || any_contains(imports, "httpsendrequest"@) || any_contains(imports, "winhttpopen"@) || any_contains(imports, "internetopen"@) || holds_narrow(data, "FtpWebRequest"@) || holds_narrow(data, "SmtpClient"@) || holds_narrow(data, "HttpSendRequest"@) || holds_narrow(data, "WinHttpOpen"@)
}

fn finds_credential_exfiltration(imports: &[String], data: &[u8]) -> (r: bool)
    ensures
        r == credential_exfiltration(texts(imports@), data@),
{
    any_has(imports, "ftpswebrequest") || any_has(imports, "smtpclient") || any_has(imports, "httpsendrequest") || any_has(imports, "winhttpopen") || any_has(imports, "internetopen") || has_narrow(data, "FtpWebRequest") || has_narrow(data, "SmtpClient") || has_narrow(data, "HttpSendRequest") || has_narrow(data, "WinHttpOpen")
}

/// Capture, a credential store and transfer agree.
pub open spec fn credential_harvest(imports: Seq<Seq<char>>, data: Seq<u8>) -> bool {
    credential_capture(imports, data) && credential_store(data) && credential_exfiltration(imports, data)
}

fn finds_credential_harvest(imports: &[String], data: &[u8]) -> (r: bool)
    ensures
        r == credential_harvest(texts(imports@), data@),
{
    finds_credential_capture(imports, data) && finds_credential_store(data) && finds_credential_exfiltration(imports, data)
}

/// The indicators of correlated imports, libraries and strings, in order. Imports are in
/// lower case.
pub open spec fn chain_indicators(
    imports: Seq<Seq<char>>,
    data: Seq<u8>,
    libraries: Seq<Seq<char>>,
) -> Seq<Seq<char>> {
    Seq::<Seq<char>>::empty() + only_if(suspicious_imports(imports), "suspicious_imports"@)
        + only_if(injection_chain(imports), "api_injection_chain"@)
        + only_if(ransom_chain(imports), "api_ransom_chain"@)
        + only_if(privilege_chain(imports), "privilege_escalation_chain"@)
        + only_if(dynamic_load_chain(imports), "dynamic_load_chain"@)
        + only_if(sideload_injection(imports, data, libraries), "white_black_sideload_injection"@)
        + only_if(threadpool_obfuscation(imports), "threadpool_obfuscation"@)
        + only_if(reflective_loader_chain(imports), "reflective_loader_chain"@)
        + only_if(driver_termination(imports, data), "driver_security_termination"@)
        + only_if(defender_tampering(imports, data), "defender_tampering_chain"@)
        + only_if(uac_bypass(imports, data), "uac_bypass_chain"@)
        + only_if(persistence_hits(data) >= 2, "persistence_chain"@)
        + only_if(credential_harvest(imports, data), "credential_harvest_chain"@)
        + only_if(hooking_chain(imports, data), "hooking_chain:setwindowshookex+keyboard"@)
}

fn chain_notes(imports: &[String], data: &[u8], libraries: &[String]) -> (notes: Vec<String>)
    ensures
        texts(notes@) == chain_indicators(texts(imports@), data@, texts(libraries@)),
{
    let mut notes: Vec<String> = Vec::new();
    assert(texts(notes@) =~= Seq::empty());
    push_when(&mut notes, finds_suspicious_imports(imports), "suspicious_imports");
    push_when(&mut notes, finds_injection_chain(imports), "api_injection_chain");
    push_when(&mut notes, finds_ransom_chain(imports), "api_ransom_chain");
    push_when(&mut notes, finds_privilege_chain(imports), "privilege_escalation_chain");
    push_when(&mut notes, finds_dynamic_load_chain(imports), "dynamic_load_chain");
    push_when(
        &mut notes,
        finds_sideload_injection(imports, data, libraries),
        "white_black_sideload_injection",
    );
    push_when(&mut notes, finds_threadpool_obfuscation(imports), "threadpool_obfuscation");
    push_when(&mut notes, finds_reflective_loader_chain(imports), "reflective_loader_chain");
    push_when(&mut notes, finds_driver_termination(imports, data), "driver_security_termination");
    push_when(&mut notes, finds_defender_tampering(imports, data), "defender_tampering_chain");
    push_when(&mut notes, finds_uac_bypass(imports, data), "uac_bypass_chain");
    push_when(&mut notes, finds_persistence_hits(data) >= 2, "persistence_chain");
    push_when(&mut notes, finds_credential_harvest(imports, data), "credential_harvest_chain");
    push_when(
        &mut notes,
        finds_hooking_chain(imports, data),
        "hooking_chain:setwindowshookex+keyboard",
    );
    notes
}

/// What is wrong with a certificate table at `start` of `table` bytes in a file of `size`.
pub open spec fn certificate_fault(start: nat, table: nat, size: nat) -> Option<Seq<char>> {
    if table == 0 {
        None
    } else if start + table > size {
        Some("signature:mismatch:certificate_table_truncated"@)
    } else if table % 8 != 0 {
        Some("signature:mismatch:certificate_table_unaligned"@)
    } else {
        None
    }
}

/// Where the data directories start inside an optional header, by its magic number.
pub open spec fn directories_offset(magic: nat) -> int {
    if magic == 0x10b {
        96
    } else if magic == 0x20b {
        112
    } else {
        0
    }
}

/// The fault of the certificate table that the raw headers describe. Headers that end
/// before the table is described have none.
pub open spec fn certificate_anomaly(data: Seq<u8>) -> Option<Seq<char>> {
    let size = data.len();
    let header = u32_at(data, 0x3c) as int;
    let optional = header + 24;
    let directories = optional + directories_offset(u16_at(data, optional));
    let entry = directories + 32;
    if size < 0x5a || header == 0 || optional + 2 > size || !pe_signature_at(data, header) {
        None
    } else if directories == optional || directories > size || u32_at(data, directories - 4) <= 4
        || entry + 8 > size {
        None
    } else {
        certificate_fault(u32_at(data, entry), u32_at(data, entry + 4), size)
    }
}

fn fault_of_certificates(start: u32, table: u32, size: usize) -> (fault: Option<&'static str>)
    ensures
        match fault {
            Some(f) => certificate_fault(start as nat, table as nat, size as nat) == Some(f@),
            None => certificate_fault(start as nat, table as nat, size as nat) is None,
        },
{
    if table == 0 {
        None
    } else if start as u64 + table as u64 > size as u64 {
        Some("signature:mismatch:certificate_table_truncated")
    } else if table % 8 != 0 {
        Some("signature:mismatch:certificate_table_unaligned")
    } else {
        None
    }
}

/// The fault of the certificate table that the raw headers describe.
pub fn preparse_certificate_anomaly(data: &[u8]) -> (fault: Option<&'static str>)
    ensures
        match fault {
            Some(f) => certificate_anomaly(data@) == Some(f@),
            None => certificate_anomaly(data@) is None,
        },
{
    let size: usize = data.len();
    if size < 0x5a {
        return None;
    }
    let header: u64 = read_u32(data, 0x3c) as u64;
    let optional: u64 = header + 24;
    if header == 0 || optional + 2 > size as u64 || !has_pe_signature(data, header) {
        return None;
    }
    let magic: u16 = read_u16(data, optional as usize);
    let offset: u64 = if magic == 0x10b {
        96
    } else if magic == 0x20b {
        112
    } else {
        return None;
    };
    let directories: u64 = optional + offset;
    if directories > size as u64 {
        return None;
    }
    if read_u32(data, (directories - 4) as usize) <= 4 || directories + 40 > size as u64 {
        return None;
    }
    let entry: usize = (directories + 32) as usize;
    fault_of_certificates(read_u32(data, entry), read_u32(data, entry + 4), size)
}

/// Printable ASCII, or a space.
pub open spec fn is_path_byte(b: u8) -> bool {
    0x20 <= b <= 0x7e
}

/// Where the printable text that ends before `from` starts.
pub open spec fn printable_start(data: Seq<u8>, from: int) -> int
    decreases from,
{
    if 0 < from <= data.len() && is_path_byte(data[from - 1]) {
        printable_start(data, from - 1)
    } else {
        from
    }
}

pub open spec fn has_separator(data: Seq<u8>) -> bool {
    exists|i: int| 0 <= i < data.len() && (#[trigger] data[i] == 0x5c || data[i] == 0x2f)
}

/// A debug path ends at `end`.
pub open spec fn pdb_path_ends(data: Seq<u8>, end: int) -> bool {
    let start = printable_start(data, end - 1);
    &&& 4 <= end <= data.len()
    &&& data[end - 4] == 0x2e
    &&& lower_byte(data[end - 3]) == 0x70
    &&& lower_byte(data[end - 2]) == 0x64
    &&& lower_byte(data[end - 1]) == 0x62
    &&& end - start <= MAX_PDB_PATH_BYTES
    &&& has_separator(data.subrange(start, end))
}

pub open spec fn ascii_text(data: Seq<u8>) -> Seq<char> {
    Seq::new(data.len(), |i: int| data[i] as char)
}

/// The first debug path that ends at `end` or later, within `limit`.
pub open spec fn first_pdb_path(data: Seq<u8>, end: int, limit: int) -> Seq<char>
    decreases limit + 1 - end,
{
    if end > limit {
        Seq::empty()
    } else if pdb_path_ends(data, end) {
        ascii_text(data.subrange(printable_start(data, end - 1), end))
    } else {
        first_pdb_path(data, end + 1, limit)
    }
}

/// The debug path of an image, empty where none is found near its headers.
pub open spec fn pdb_path_of(data: Seq<u8>) -> Seq<char> {
    let limit = if data.len() < MAX_PDB_SCAN_BYTES {
        data.len() as int
    } else {
        MAX_PDB_SCAN_BYTES as int
    };
    first_pdb_path(data, 4, limit)
}

proof fn lemma_printable_start(data: Seq<u8>, from: int)
    requires
        0 <= from <= data.len(),
    ensures
        0 <= printable_start(data, from) <= from,
    decreases from,
{
    if 0 < from && is_path_byte(data[from - 1]) {
        lemma_printable_start(data, from - 1);
    }
}

/// The debug path of an image, empty where none is found near its headers.
pub fn find_ascii_pdb_path(data: &[u8]) -> (path: String)
    ensures
        path@ == pdb_path_of(data@),
{
    let limit: usize = if data.len() < MAX_PDB_SCAN_BYTES {
        data.len()
    } else {
        MAX_PDB_SCAN_BYTES
    };
    let mut end: usize = 4;
    while end <= limit
        invariant
            4 <= end,
            limit <= data@.len(),
            limit <= MAX_PDB_SCAN_BYTES,
            pdb_path_of(data@) == first_pdb_path(data@, end as int, limit as int),
        decreases limit + 1 - end,
    {
        if data[end - 4] == 0x2e && lower_byte_of(data[end - 3]) == 0x70 && lower_byte_of(
            data[end - 2],
        ) == 0x64 && lower_byte_of(data[end - 1]) == 0x62 {
            let mut start: usize = end - 1;
            while start > 0 && 0x20 <= data[start - 1] && data[start - 1] <= 0x7e
                invariant
                    start < end <= limit <= data@.len(),
                    printable_start(data@, start as int) == printable_start(data@, end - 1),
                decreases start,
            {
                start = start - 1;
            }
            assert(start == printable_start(data@, end - 1));
            let mut separated = false;
            let mut path = String::new();
            let mut i: usize = start;
            let ghost whole = data@.subrange(start as int, end as int);
            while i < end
                invariant
                    start <= i <= end <= limit <= data@.len(),
                    whole == data@.subrange(start as int, end as int),
                    separated == has_separator(whole.take(i - start)),
                    path@ == ascii_text(whole.take(i - start)),
                decreases end - i,
            {
                let b: u8 = data[i];
                path.push(b as char);
                let ghost before = whole.take(i - start);
                let ghost after = whole.take(i + 1 - start);
                assert(after[i - start] == b);
                assert(forall|k: int| 0 <= k < before.len() ==> before[k] == after[k]);
                if b == 0x5c || b == 0x2f {
                    separated = true;
                }
                assert(separated == has_separator(after)) by {
                    if has_separator(before) {
                        let k = choose|k: int|
                            0 <= k < before.len() && (#[trigger] before[k] == 0x5c || before[k]
                                == 0x2f);
                        assert(after[k] == before[k]);
                    }
                    if has_separator(after) {
                        let k = choose|k: int|
                            0 <= k < after.len() && (#[trigger] after[k] == 0x5c || after[k]
                                == 0x2f);
                        if k < before.len() {
                            assert(before[k] == after[k]);
                        }
                    }
                }
                assert(path@ =~= ascii_text(after));
                i = i + 1;
            }
            assert(whole.take(i - start) =~= whole);
            if separated && end - start <= MAX_PDB_PATH_BYTES {
                return path;
            }
        }
        end = end + 1;
    }
    String::new()
}

/// A second image starts at `at`: a DOS header that leads to a PE signature.
pub open spec fn embedded_image_at(data: Seq<u8>, at: int) -> bool {
    &&& 1 <= at < data.len() - 0x40
    &&& data[at] == 0x4D
    &&& data[at + 1] == 0x5A
    &&& pe_signature_at(data, at + u32_at(data, at + 0x3c))
}

/// The buffer holds an image beside the one that it starts with.
pub open spec fn embedded_image(data: Seq<u8>) -> bool {
    exists|at: int| #[trigger] embedded_image_at(data, at)
}

/// The buffer holds an image beside the one that it starts with.
pub fn contains_embedded_pe(data: &[u8]) -> (b: bool)
    ensures
        b == embedded_image(data@),
{
    let size: usize = data.len();
    if size < 0x40 {
        return false;
    }
    let mut at: usize = 1;
    while at < size - 0x40
        invariant
            1 <= at,
            0x40 <= size == data@.len(),
            forall|k: int| 1 <= k < at ==> !embedded_image_at(data@, k),
        decreases size - at,
    {
        if data[at] == 0x4D && data[at + 1] == 0x5A {
            let offset: u64 = read_u32(data, at + 0x3c) as u64;
            if (at as u64) <= u64::MAX - offset && has_pe_signature(data, at as u64 + offset) {
                assert(embedded_image_at(data@, at as int));
                return true;
            }
        }
        at = at + 1;
    }
    false
}

/// The entry point lies in an executable section.
pub open spec fn entry_covered(sections: Seq<SectionView>, entry: u64) -> bool {
    exists|i: int|
        0 <= i < sections.len() && (#[trigger] sections[i]).address <= entry < sections[i].address
            + sections[i].virtual_size && sections[i].characteristics & SECTION_EXECUTABLE != 0
}

pub open spec fn linker_text(header: Option<OptionalHeader>) -> Seq<char> {
    match header {
        Some(h) => decimal(h.linker_major as nat) + "."@ + decimal(h.linker_minor as nat),
        None => decimal(0) + "."@ + decimal(0),
    }
}

pub open spec fn header_notes(header: Option<OptionalHeader>, stamp: u32, now: u64) -> Seq<
    Seq<char>,
> {
    match header {
        Some(h) => only_if(h.tls_size matches Some(n) && n > 0, "tls_callbacks"@) + only_if(
            stamp == 0 || stamp_anomalous(stamp, now),
            "timestamp_anomaly: "@ + decimal(stamp as nat),
        ),
        None => Seq::empty(),
    }
}

pub open spec fn certificate_notes(header: Option<OptionalHeader>, size: nat) -> Seq<Seq<char>> {
    match header {
        Some(OptionalHeader { certificates: Some(c), .. }) => match certificate_fault(
            c.0 as nat,
            c.1 as nat,
            size,
        ) {
            Some(f) => seq![f],
            None => Seq::empty(),
        },
        _ => Seq::empty(),
    }
}

/// The indicators of a PE image, in order.
pub open spec fn pe_indicators(
    data: Seq<u8>,
    image: PeLayoutView,
    header: Option<OptionalHeader>,
    readings: ReadingsView,
    now: u64,
) -> Seq<Seq<char>> {
    let imports = lowered_all(image.imports);
    only_if(
        anomaly_score(linker_text(header), pdb_path_of(data), image.timestamp, now).units
            >= Score::of_hundredths(25).units,
        "compiler_toolchain_anomaly"@,
    ) + only_if(
        readings.profile.units >= Score::of_hundredths(55).units,
        "flat_high_entropy_payload"@,
    ) + only_if(
        image.sections.len() > 10,
        "many_sections: "@ + decimal(image.sections.len()),
    ) + section_notes(image.sections, readings.sections, data.len(), 0) + header_notes(
        header,
        image.timestamp,
        now,
    ) + only_if(
        combination_score(imports).units >= Score::of_hundredths(20).units,
        "api_context_combo"@,
    ) + chain_indicators(imports, data, image.libraries) + certificate_notes(header, data.len())
        + only_if(embedded_image(data), "embedded_pe_payload"@) + only_if(
        overlay_span(image.sections, data.len()) is Some && readings.overlay.units
            >= Score::of_ratio(735, 100).units,
        "encrypted_overlay_payload"@,
    ) + only_if(
        image.entry != 0 && !entry_covered(image.sections, image.entry),
        "entry_point_anomaly"@,
    )
}

pub open spec fn is_rwx_segment(s: SegmentFacts) -> bool {
    s.flags & 4 != 0 && s.flags & 2 != 0 && s.flags & 1 != 0
}

/// The note on the first readable, writable and executable segment from `i` on.
pub open spec fn segment_notes(segments: Seq<SegmentFacts>, i: int) -> Seq<Seq<char>>
    decreases segments.len() - i,
{
    if i < 0 || i >= segments.len() {
        Seq::empty()
    } else if is_rwx_segment(segments[i]) {
        seq!["unsafe_segment_flags: phdr "@ + decimal(segments[i].kind as nat)]
    } else {
        segment_notes(segments, i + 1)
    }
}

/// The entry point lies in an executable load segment.
pub open spec fn entry_loaded(segments: Seq<SegmentFacts>, entry: u64) -> bool {
    exists|i: int|
        0 <= i < segments.len() && (#[trigger] segments[i]).kind == 1 && segments[i].address
            <= entry < segments[i].address + segments[i].memory_size && segments[i].address
            + segments[i].memory_size <= u64::MAX && segments[i].flags & 1 != 0
}

/// The indicators of an ELF image, in order.
pub open spec fn elf_indicators(image: ElfLayoutView) -> Seq<Seq<char>> {
    segment_notes(image.segments, 0) + only_if(
        !entry_loaded(image.segments, image.entry),
        "entry_point_anomaly"@,
    ) + only_if(
        image.library_count > 5,
        "many_deps: "@ + decimal(image.library_count as nat),
    )
}

pub open spec fn is_rwx_protection(p: u32) -> bool {
    p & 1 != 0 && p & 2 != 0 && p & 4 != 0
}

/// The indicators of a Mach-O binary, in order.
pub open spec fn mach_indicators(image: MachLayoutView) -> Seq<Seq<char>> {
    only_if(
        exists|i: int|
            0 <= i < image.protections.len() && is_rwx_protection(#[trigger] image.protections[i]),
        "unsafe_segment_flags"@,
    ) + only_if(
        image.library_count > 5,
        "many_deps: "@ + decimal(image.library_count as nat),
    )
}

/// The indicators that precede parsing.
pub open spec fn raw_indicators(data: Seq<u8>) -> Seq<Seq<char>> {
    unpacking_indicators(data) + match certificate_anomaly(data) {
        Some(f) => seq![f],
        None => Seq::empty(),
    }
}

/// All the indicators of a buffer of a given format, in order.
pub open spec fn format_indicators(
    data: Seq<u8>,
    format: ObjectFormat,
    readings: ReadingsView,
    now: u64,
) -> Seq<Seq<char>> {
    raw_indicators(data) + match format {
        ObjectFormat::Pe => match pe_of(data) {
            Some(image) => pe_indicators(data, image, parsed_optional_header(data), readings, now),
            None => Seq::empty(),
        },
        ObjectFormat::Elf => match parsed_elf(data) {
            Some(image) => elf_indicators(image),
            None => Seq::empty(),
        },
        ObjectFormat::Mach => match mach_of(data) {
            Some(image) => mach_indicators(image),
            None => Seq::empty(),
        },
        ObjectFormat::Other => Seq::empty(),
    }
}

/// `base` followed by those texts of `extra` that are not there yet.
pub open spec fn merged(base: Seq<Seq<char>>, extra: Seq<Seq<char>>) -> Seq<Seq<char>>
    decreases extra.len(),
{
    if extra.len() == 0 {
        base
    } else {
        let before = merged(base, extra.drop_last());
        if before.contains(extra.last()) {
            before
        } else {
            before.push(extra.last())
        }
    }
}

/// The score of a list of indicators.
pub open spec fn signal_score(indicators: Seq<Seq<char>>) -> Score {
    calibrated(weights_of(static_hits(static_rules(), lowered_all(indicators))))
}

/// The indicators together with the descriptions of the rules that they fire.
pub open spec fn explained(indicators: Seq<Seq<char>>) -> Seq<Seq<char>> {
    merged(
        indicators,
        descriptions_of(static_hits(static_rules(), lowered_all(indicators))),
    )
}

/// What an analysis concludes from the parser's verdict and the indicators. A buffer that
/// cannot be parsed is still judged where its certificate table is at fault.
pub open spec fn analysis_of(
    data: Seq<u8>,
    format: Result<ObjectFormat, Seq<char>>,
    readings: ReadingsView,
    now: u64,
) -> Result<(Score, Seq<Seq<char>>), Seq<char>> {
    match format {
        Ok(f) => {
            let indicators = format_indicators(data, f, readings, now);
            Ok((signal_score(indicators), explained(indicators)))
        },
        Err(reason) => {
            let indicators = raw_indicators(data);
            if any_contains(indicators, "signature:mismatch"@) {
                Ok((signal_score(indicators), indicators))
            } else {
                Err(reason)
            }
        },
    }
}

pub open spec fn outcome(r: Result<HeuristicScore, HeuristicError>) -> Result<
    (Score, Seq<Seq<char>>),
    Seq<char>,
> {
    match r {
        Ok(h) => Ok((h.score, texts(h.indicators@))),
        Err(HeuristicError::Parse(reason)) => Err(reason@),
    }
}

/// The span of a section's raw data.
fn span_of_section(s: &SectionFacts, size: usize) -> (span: Option<(usize, usize)>)
    ensures
        span == section_span(s@, size as nat),
{
    let end: u64 = s.raw_pointer as u64 + s.raw_size as u64;
    if s.raw_size > 0 && end <= size as u64 {
        Some((s.raw_pointer as usize, end as usize))
    } else {
        None
    }
}

fn raw_end_of(sections: &[SectionFacts]) -> (end: u64)
    ensures
        end == raw_end(sections@.map_values(|s: SectionFacts| s@)),
        end <= 0x2_0000_0000,
{
    let ghost views = sections@.map_values(|s: SectionFacts| s@);
    let mut end: u64 = 0;
    let mut i: usize = 0;
    while i < sections.len()
        invariant
            i <= sections@.len(),
            views == sections@.map_values(|s: SectionFacts| s@),
            end == raw_end(views.take(i as int)),
            end <= 0x2_0000_0000,
        decreases sections@.len() - i,
    {
        assert(views.take(i + 1).drop_last() =~= views.take(i as int));
        assert(views.take(i + 1).last() == sections@[i as int]@);
        let this: u64 = sections[i].raw_pointer as u64 + sections[i].raw_size as u64;
        if this > end {
            end = this;
        }
        i = i + 1;
    }
    assert(views.take(i as int) =~= views);
    end
}

fn overlay_of(sections: &[SectionFacts], size: usize) -> (span: Option<(usize, usize)>)
    ensures
        span == overlay_span(sections@.map_values(|s: SectionFacts| s@), size as nat),
{
    let end: u64 = raw_end_of(sections);
    if end < size as u64 && size as u64 - end >= MIN_OVERLAY_BYTES as u64 {
        Some((end as usize, size))
    } else {
        None
    }
}

/// The byte ranges of a buffer whose entropy an analysis needs: none of them unless the
/// buffer is a PE image.
pub fn entropy_spans(data: &[u8]) -> (spans: EntropySpans)
    ensures
        match (format_of(data@), pe_of(data@)) {
            (Ok(ObjectFormat::Pe), Some(image)) => {
                &&& spans.sections@ == image.sections.map_values(
                    |s: SectionView| section_span(s, data@.len()),
                )
                &&& spans.overlay == overlay_span(image.sections, data@.len())
            },
            _ => spans.sections@.len() == 0 && spans.overlay is None,
        },
{
    let mut sections: Vec<Option<(usize, usize)>> = Vec::new();
    match object_format(data) {
        Ok(ObjectFormat::Pe) => match pe_layout(data) {
            Some(image) => {
                let ghost views = image@.sections;
                let ghost spans = views.map_values(|s: SectionView| section_span(s, data@.len()));
                let mut i: usize = 0;
                while i < image.sections.len()
                    invariant
                        i <= image.sections@.len(),
                        views == image@.sections,
                        spans == views.map_values(|s: SectionView| section_span(s, data@.len())),
                        sections@ == spans.take(i as int),
                    decreases image.sections@.len() - i,
                {
                    sections.push(span_of_section(&image.sections[i], data.len()));
                    assert(spans.take(i + 1) =~= spans.take(i as int).push(spans[i as int]));
                    i = i + 1;
                }
                assert(spans.take(i as int) =~= spans);
                let overlay = overlay_of(&image.sections, data.len());
                EntropySpans { sections, overlay }
            },
            None => EntropySpans { sections, overlay: None },
        },
        _ => EntropySpans { sections, overlay: None },
    }
}

/// Appends the notes on the sections.
fn note_sections(
    notes: &mut Vec<String>,
    sections: &[SectionFacts],
    readings: &[EntropyReading],
    size: usize,
)
    ensures
        texts(final(notes)@) == texts(old(notes)@) + section_notes(
            sections@.map_values(|s: SectionFacts| s@),
            readings@.map_values(|r: EntropyReading| r@),
            size as nat,
            0,
        ),
{
    let ghost views = sections@.map_values(|s: SectionFacts| s@);
    let ghost measured = readings@.map_values(|r: EntropyReading| r@);
    let ghost start = texts(notes@);
    let ghost wanted = start + section_notes(views, measured, size as nat, 0);
    let mut i: usize = 0;
    while i < sections.len()
        invariant
            i <= sections@.len(),
            views == sections@.map_values(|s: SectionFacts| s@),
            measured == readings@.map_values(|r: EntropyReading| r@),
            wanted == texts(old(notes)@) + section_notes(views, measured, size as nat, 0),
            texts(notes@) + section_notes(views, measured, size as nat, i as int) == wanted,
        decreases sections@.len() - i,
    {
        let s = &sections[i];
        assert(views[i as int] == s@);
        let title = match &s.name {
            Some(n) => n.clone(),
            None => "?".to_owned(),
        };
        assert(title@ == section_title(views[i as int]));
        let ghost before = texts(notes@);
        if span_of_section(s, size).is_some() && i < readings.len() {
            assert(measured[i as int] == readings@[i as int]@);
            let limit = Score::ratio(75, 10);
            if readings[i].value.units > limit.units {
                let head = concat3("high_section_entropy: ", readings[i].text.as_str(), " (section ");
                let note = concat3(head.as_str(), title.as_str(), ")");
                assert(note@ =~= "high_section_entropy: "@ + measured[i as int].text + " (section "@
                    + section_title(views[i as int]) + ")"@);
                push_text(notes, note);
                assert(texts(notes@) =~= wanted);
                return;
            }
        }
        let wx = s.characteristics & SECTION_WRITABLE != 0 && s.characteristics
            & SECTION_EXECUTABLE != 0;
        let label = concat2("wx_section: ", title.as_str());
        push_when(notes, wx, label.as_str());
        proof {
            let rest = section_notes(views, measured, size as nat, i + 1);
            let mine = only_if(wx, "wx_section: "@ + section_title(views[i as int]));
            assert(before + (mine + rest) =~= (before + mine) + rest);
        }
        i = i + 1;
    }
    assert(texts(notes@) + Seq::<Seq<char>>::empty() =~= texts(notes@));
}

fn covers_entry(sections: &[SectionFacts], entry: u64) -> (b: bool)
    ensures
        b == entry_covered(sections@.map_values(|s: SectionFacts| s@), entry),
{
    let ghost views = sections@.map_values(|s: SectionFacts| s@);
    let mut i: usize = 0;
    while i < sections.len()
        invariant
            i <= sections@.len(),
            views == sections@.map_values(|s: SectionFacts| s@),
            forall|k: int|
                0 <= k < i ==> !((#[trigger] views[k]).address <= entry < views[k].address
                    + views[k].virtual_size && views[k].characteristics & SECTION_EXECUTABLE != 0),
        decreases sections@.len() - i,
    {
        let s = &sections[i];
        assert(views[i as int] == s@);
        let start: u64 = s.address as u64;
        let end: u64 = start + s.virtual_size as u64;
        if start <= entry && entry < end && s.characteristics & SECTION_EXECUTABLE != 0 {
            return true;
        }
        i = i + 1;
    }
    false
}

/// The stamp lies more than thirty days ahead of `now`, or more than twenty years back.
pub fn is_timestamp_anomalous(stamp: u32, now: u64) -> (b: bool)
    ensures
        b == stamp_anomalous(stamp, now),
{
    let s: u64 = stamp as u64;
    let ahead = s > FUTURE_TOLERANCE_SECONDS && s - FUTURE_TOLERANCE_SECONDS > now;
    let stale = s + STALE_SECONDS < now;
    ahead || stale
}

fn note_header(
    notes: &mut Vec<String>,
    header: &Option<OptionalHeader>,
    stamp: u32,
    now: u64,
)
    ensures
        texts(final(notes)@) == texts(old(notes)@) + header_notes(*header, stamp, now),
{
    if let Some(h) = header {
        let tls = match h.tls_size {
            Some(n) => n > 0,
            None => false,
        };
        push_when(notes, tls, "tls_callbacks");
        let count = decimal_text(stamp as u64);
        let label = concat2("timestamp_anomaly: ", count.as_str());
        push_when(notes, stamp == 0 || is_timestamp_anomalous(stamp, now), label.as_str());
    }
    assert(texts(notes@) =~= texts(old(notes)@) + header_notes(*header, stamp, now));
}

fn note_certificates(notes: &mut Vec<String>, header: &Option<OptionalHeader>, size: usize)
    ensures
        texts(final(notes)@) == texts(old(notes)@) + certificate_notes(*header, size as nat),
{
    if let Some(h) = header {
        if let Some(c) = h.certificates {
            if let Some(fault) = fault_of_certificates(c.0, c.1, size) {
                push_text(notes, fault.to_owned());
            }
        }
    }
    assert(texts(notes@) =~= texts(old(notes)@) + certificate_notes(*header, size as nat));
}

/// The toolchain fingerprint of a PE image.
fn compiler_fingerprint(
    data: &[u8],
    header: &Option<OptionalHeader>,
    compile_timestamp: u32,
) -> (f: CompilerFingerprint)
    ensures
        f.linker_version@ == linker_text(*header),
        f.pdb_path@ == pdb_path_of(data@),
        f.compile_timestamp == compile_timestamp,
{
    let (major, minor): (u8, u8) = match header {
        Some(h) => (h.linker_major, h.linker_minor),
        None => (0, 0),
    };
    let left = decimal_text(major as u64);
    let right = decimal_text(minor as u64);
    let linker_version = concat3(left.as_str(), ".", right.as_str());
    CompilerFingerprint { linker_version, pdb_path: find_ascii_pdb_path(data), compile_timestamp }
}

/// Appends the indicators of a PE image.
fn note_pe(
    notes: &mut Vec<String>,
    data: &[u8],
    image: &PeLayout,
    header: &Option<OptionalHeader>,
    readings: &EntropyReadings,
    now: u64,
)
    ensures
        texts(final(notes)@) == texts(old(notes)@) + pe_indicators(
            data@,
            image@,
            *header,
            readings@,
            now,
        ),
{
    let imports = lower_all(&image.imports);
    let fingerprint = compiler_fingerprint(data, header, image.timestamp);
    let anomaly = fingerprint.score_anomaly_at(now);
    let mut mine: Vec<String> = Vec::new();
    assert(texts(mine@) =~= Seq::empty());
    assert(forall|s: Seq<Seq<char>>| #[trigger] (Seq::<Seq<char>>::empty() + s) =~= s);
    push_when(&mut mine, anomaly.at_least(Score::hundredths(25)), "compiler_toolchain_anomaly");
    let profile = readings.profile.score();
    push_when(&mut mine, profile.at_least(Score::hundredths(55)), "flat_high_entropy_payload");
    let count = decimal_text(image.sections.len() as u64);
    let many = concat2("many_sections: ", count.as_str());
    push_when(&mut mine, image.sections.len() > 10, many.as_str());
    note_sections(&mut mine, &image.sections, &readings.sections, data.len());
    note_header(&mut mine, header, image.timestamp, now);
    let combined = score_api_combinations(&imports);
    push_when(&mut mine, combined.at_least(Score::hundredths(20)), "api_context_combo");
    let mut chains = chain_notes(&imports, data, &image.libraries);
    append_texts(&mut mine, &mut chains);
    note_certificates(&mut mine, header, data.len());
    push_when(&mut mine, contains_embedded_pe(data), "embedded_pe_payload");
    let overlay = overlay_of(&image.sections, data.len());
    push_when(
        &mut mine,
        overlay.is_some() && readings.overlay.at_least(Score::ratio(735, 100)),
        "encrypted_overlay_payload",
    );
    push_when(
        &mut mine,
        image.entry != 0 && !covers_entry(&image.sections, image.entry),
        "entry_point_anomaly",
    );
    append_texts(notes, &mut mine);
}

/// Moves the texts of one list behind those of another.
pub fn append_texts(items: &mut Vec<String>, more: &mut Vec<String>)
    ensures
        texts(final(items)@) == texts(old(items)@) + texts(old(more)@),
{
    let ghost left = items@;
    let ghost right = more@;
    items.append(more);
    assert(texts(left + right) =~= texts(left) + texts(right));
}

/// Appends the indicators of an ELF image.
fn note_elf(notes: &mut Vec<String>, image: &ElfLayout)
    ensures
        texts(final(notes)@) == texts(old(notes)@) + elf_indicators(image@),
{
    let ghost start = texts(notes@);
    let segments = &image.segments;
    let mut first: Option<u32> = None;
    let mut loaded = false;
    let mut i: usize = 0;
    while i < segments.len()
        invariant
            i <= segments@.len(),
            first is None ==> segment_notes(segments@, 0) == segment_notes(segments@, i as int),
            first matches Some(kind) ==> segment_notes(segments@, 0)
                == seq!["unsafe_segment_flags: phdr "@ + decimal(kind as nat)],
            loaded == entry_loaded(segments@.take(i as int), image.entry),
        decreases segments@.len() - i,
    {
        let s = segments[i];
        let ghost before = segments@.take(i as int);
        let ghost after = segments@.take(i + 1);
        if first.is_none() && s.flags & 4 != 0 && s.flags & 2 != 0 && s.flags & 1 != 0 {
            first = Some(s.kind);
        }
        let here = s.kind == 1 && segment_holds(s.address, s.memory_size, image.entry) && s.flags
            & 1 != 0;
        assert(after[i as int] == s);
        assert(forall|k: int| 0 <= k < before.len() ==> before[k] == after[k]);
        if here {
            loaded = true;
        }
        assert(loaded == entry_loaded(after, image.entry)) by {
            if entry_loaded(before, image.entry) {
                let k = choose|k: int|
                    0 <= k < before.len() && (#[trigger] before[k]).kind == 1 && before[k].address
                        <= image.entry < before[k].address + before[k].memory_size
                        && before[k].address + before[k].memory_size <= u64::MAX && before[k].flags
                        & 1 != 0;
                assert(after[k] == before[k]);
            }
            if entry_loaded(after, image.entry) {
                let k = choose|k: int|
                    0 <= k < after.len() && (#[trigger] after[k]).kind == 1 && after[k].address
                        <= image.entry < after[k].address + after[k].memory_size
                        && after[k].address + after[k].memory_size <= u64::MAX && after[k].flags & 1
                        != 0;
                if k < before.len() {
                    assert(before[k] == after[k]);
                }
            }
        }
        i = i + 1;
    }
    assert(segments@.take(i as int) =~= segments@);
    if let Some(kind) = first {
        let number = decimal_text(kind as u64);
        push_text(notes, concat2("unsafe_segment_flags: phdr ", number.as_str()));
        assert(texts(notes@) =~= start + segment_notes(segments@, 0));
    } else {
        assert(texts(notes@) =~= start + segment_notes(segments@, 0));
    }
    push_when(notes, !loaded, "entry_point_anomaly");
    let count = decimal_text(image.library_count as u64);
    let many = concat2("many_deps: ", count.as_str());
    push_when(notes, image.library_count > 5, many.as_str());
    assert(texts(notes@) =~= start + elf_indicators(image@));
}

/// The entry point lies between `start` and `start + size`.
fn segment_holds(start: u64, size: u64, entry: u64) -> (b: bool)
    ensures
        b == (start <= entry < start + size && start + size <= u64::MAX),
{
    size <= u64::MAX - start && start <= entry && entry < start + size
}

/// Appends the indicators of a Mach-O binary.
fn note_mach(notes: &mut Vec<String>, image: &MachLayout)
    ensures
        texts(final(notes)@) == texts(old(notes)@) + mach_indicators(image@),
{
    let ghost start = texts(notes@);
    let protections = &image.protections;
    let mut found = false;
    let mut i: usize = 0;
    while i < protections.len() && !found
        invariant
            i <= protections@.len(),
            !found ==> forall|k: int|
                0 <= k < i ==> !is_rwx_protection(#[trigger] protections@[k]),
            found ==> exists|k: int|
                0 <= k < protections@.len() && is_rwx_protection(#[trigger] protections@[k]),
        decreases protections@.len() - i,
    {
        let p: u32 = protections[i];
        if p & 1 != 0 && p & 2 != 0 && p & 4 != 0 {
            assert(is_rwx_protection(protections@[i as int]));
            found = true;
        }
        i = i + 1;
    }
    assert(image@.protections == protections@);
    assert(!found ==> i == protections@.len());
    assert(found == (exists|k: int|
        0 <= k < image@.protections.len() && is_rwx_protection(#[trigger] image@.protections[k])));
    push_when(notes, found, "unsafe_segment_flags");
    let count = decimal_text(image.library_count as u64);
    let many = concat2("many_deps: ", count.as_str());
    push_when(notes, image.library_count > 5, many.as_str());
    assert(texts(notes@) =~= start + mach_indicators(image@));
}

/// Appends those texts of `extra` that are not there yet.
fn merge_texts(items: &mut Vec<String>, extra: &[String])
    ensures
        texts(final(items)@) == merged(texts(old(items)@), texts(extra@)),
{
    let ghost base = texts(items@);
    let mut i: usize = 0;
    while i < extra.len()
        invariant
            i <= extra@.len(),
            texts(items@) == merged(base, texts(extra@).take(i as int)),
        decreases extra@.len() - i,
    {
        assert(texts(extra@).take(i + 1).drop_last() =~= texts(extra@).take(i as int));
        assert(texts(extra@).take(i + 1).last() == extra@[i as int]@);
        if !list_contains(items, extra[i].as_str()) {
            push_text(items, extra[i].clone());
        }
        i = i + 1;
    }
    assert(texts(extra@).take(i as int) =~= texts(extra@));
}

/// The indicators that precede parsing.
fn raw_notes(data: &[u8]) -> (notes: Vec<String>)
    ensures
        texts(notes@) == raw_indicators(data@),
{
    let assessment = assess_unpacking(data);
    let mut notes = assessment.indicators;
    let ghost before = texts(notes@);
    if let Some(fault) = preparse_certificate_anomaly(data) {
        push_text(&mut notes, fault.to_owned());
    }
    assert(texts(notes@) =~= raw_indicators(data@));
    notes
}

/// Analyses a buffer at time `now`, in seconds since the epoch, given the parser's verdict
/// and the measured entropies.
pub fn analyze_parsed(
    data: &[u8],
    format: Result<ObjectFormat, String>,
    readings: &EntropyReadings,
    now: u64,
) -> (result: Result<HeuristicScore, HeuristicError>)
    ensures
        outcome(result) == analysis_of(
            data@,
            match format {
                Ok(f) => Ok(f),
                Err(e) => Err(e@),
            },
            readings@,
            now,
        ),
        result matches Ok(h) ==> h.score.in_unit(),
{
    let mut notes = raw_notes(data);
    let ghost raw = texts(notes@);
    match format {
        Ok(f) => {
            match f {
                ObjectFormat::Pe => {
                    if let Some(image) = pe_layout(data) {
                        let header = optional_header(data);
                        note_pe(&mut notes, data, &image, &header, readings, now);
                    }
                },
                ObjectFormat::Elf => {
                    if let Some(image) = elf_layout(data) {
                        note_elf(&mut notes, &image);
                    }
                },
                ObjectFormat::Mach => {
                    if let Some(image) = mach_layout(data) {
                        note_mach(&mut notes, &image);
                    }
                },
                ObjectFormat::Other => {},
            }
            assert(texts(notes@) =~= format_indicators(data@, f, readings@, now));
            let scored = score_static_signals(&notes);
            let mut indicators = notes;
            merge_texts(&mut indicators, &scored.indicators);
            Ok(HeuristicScore { score: scored.score, indicators })
        },
        Err(reason) => {
            if any_has(&notes, "signature:mismatch") {
                let scored = score_static_signals(&notes);
                Ok(HeuristicScore { score: scored.score, indicators: notes })
            } else {
                Err(HeuristicError::Parse(reason))
            }
        },
    }
}

/// Analyses a buffer at time `now`, in seconds since the epoch.
pub fn analyze_bytes_at(
    data: &[u8],
    readings: &EntropyReadings,
    now: u64,
) -> (result: Result<HeuristicScore, HeuristicError>)
    ensures
        outcome(result) == analysis_of(data@, format_of(data@), readings@, now),
        result matches Ok(h) ==> h.score.in_unit(),
{
    analyze_parsed(data, object_format(data), readings, now)
}

/// Analyses a buffer now.
pub fn analyze_bytes(data: &[u8], readings: &EntropyReadings) -> (result: Result<
    HeuristicScore,
    HeuristicError,
>)
    ensures
        exists|now: u64|
            outcome(result) == #[trigger] analysis_of(
                data@,
                format_of(data@),
                readings@,
                now,
            ),
        result matches Ok(h) ==> h.score.in_unit(),
{
    let now: u64 = (now_millis() / 1000 % 0x1_0000_0000_0000_0000) as u64;
    analyze_bytes_at(data, readings, now)
}

pub open spec fn is_direction_mark(c: char) -> bool {
    c == '\u{202e}' || c == '\u{202c}' || c == '\u{200f}'
}

/// The file name holds a right-to-left mark, which disguises an extension.
pub open spec fn disguised_name(name: Seq<char>) -> bool {
    exists|i: int| 0 <= i < name.len() && is_direction_mark(#[trigger] name[i])
}

pub open spec fn context_notes(context: PathContext) -> Seq<Seq<char>> {
    match context {
        PathContext::System32Drivers => seq!["path_context:system32_drivers"@],
        PathContext::TempDirectory => seq!["path_context:temporary_directory"@],
        PathContext::Downloads => seq!["path_context:downloads"@],
        PathContext::Desktop => seq!["path_context:desktop"@],
        _ => Seq::empty(),
    }
}

/// A result adjusted by where the file lies and how it is named.
pub open spec fn contextual(
    base: (Score, Seq<Seq<char>>),
    path: Seq<char>,
    name: Seq<char>,
) -> (Score, Seq<Seq<char>>) {
    if disguised_name(name) {
        (
            calibrated(seq![base.0, Score::of_hundredths(35)]),
            base.1.push("rtlo_filename_spoofing"@) + context_notes(path_context(path)),
        )
    } else {
        (adjusted_score(base.0, path), base.1 + context_notes(path_context(path)))
    }
}

fn is_disguised(name: &str) -> (b: bool)
    ensures
        b == disguised_name(name@),
{
    let chars = crate::text::chars_of(name);
    let mut i: usize = 0;
    while i < chars.len()
        invariant
            i <= chars@.len(),
            chars@ == name@,
            forall|k: int| 0 <= k < i ==> !is_direction_mark(#[trigger] chars@[k]),
        decreases chars@.len() - i,
    {
        let c = chars[i];
        if c == '\u{202e}' || c == '\u{202c}' || c == '\u{200f}' {
            assert(is_direction_mark(name@[i as int]));
            return true;
        }
        i = i + 1;
    }
    false
}

/// Adjusts a result by where the file lies and how it is named.
pub fn apply_context(base: HeuristicScore, path: &str, file_name: &str) -> (result: HeuristicScore)
    requires
        base.score.in_unit(),
    ensures
        (result.score, texts(result.indicators@)) == contextual(
            (base.score, texts(base.indicators@)),
            path@,
            file_name@,
        ),
        result.score.in_unit(),
{
    let mut indicators = base.indicators;
    let ghost before = texts(indicators@);
    let score = if is_disguised(file_name) {
        push_text(&mut indicators, "rtlo_filename_spoofing".to_owned());
        let mut weights: Vec<Score> = Vec::new();
        weights.push(base.score);
        weights.push(Score::hundredths(35));
        assert(weights@ =~= seq![base.score, Score::of_hundredths(35)]);
        calibrated_score(&weights)
    } else {
        adjust_score_by_path(base.score, path)
    };
    let ghost middle = texts(indicators@);
    match classify_path_context(path) {
        PathContext::System32Drivers => push_text(
            &mut indicators,
            "path_context:system32_drivers".to_owned(),
        ),
        PathContext::TempDirectory => push_text(
            &mut indicators,
            "path_context:temporary_directory".to_owned(),
        ),
        PathContext::Downloads => push_text(&mut indicators, "path_context:downloads".to_owned()),
        PathContext::Desktop => push_text(&mut indicators, "path_context:desktop".to_owned()),
        _ => {},
    }
    assert(texts(indicators@) =~= middle + context_notes(path_context(path@)));
    HeuristicScore { score, indicators }
}

/// The result of analysing a file with where it lies and how it is named.
pub open spec fn analysis_in_context(
    analysis: Result<(Score, Seq<Seq<char>>), Seq<char>>,
    path: Seq<char>,
    windows: bool,
) -> Result<(Score, Seq<Seq<char>>), Seq<char>> {
    match analysis {
        Ok(base) => Ok(
            contextual(
                base,
                path,
                match file_name_in(path, windows) {
                    Some(name) => name,
                    None => Seq::empty(),
                },
            ),
        ),
        Err(reason) => Err(reason),
    }
}

/// Analyses a file at time `now` together with where it lies and how it is named, by the
/// rules for paths of Windows or of Unix.
pub fn analyze_bytes_with_context_at(
    data: &[u8],
    path: &str,
    windows: bool,
    readings: &EntropyReadings,
    now: u64,
) -> (result: Result<HeuristicScore, HeuristicError>)
    ensures
        outcome(result) == analysis_in_context(
            analysis_of(data@, format_of(data@), readings@, now),
            path@,
            windows,
        ),
        result matches Ok(h) ==> h.score.in_unit(),
{
    let name = match file_name_of(path, windows) {
        Some(name) => name,
        None => {
            let none = String::new();
            assert(none@ =~= Seq::empty());
            none
        },
    };
    match analyze_bytes_at(data, readings, now) {
        Ok(base) => Ok(apply_context(base, path, name.as_str())),
        Err(e) => Err(e),
    }
}

/// Analyses a file now, by the rules for paths of the platform.
pub fn analyze_bytes_with_context(data: &[u8], path: &str, readings: &EntropyReadings) -> (result:
    Result<HeuristicScore, HeuristicError>)
    ensures
        exists|now: u64, windows: bool|
            outcome(result) == #[trigger] analysis_in_context(
                analysis_of(data@, format_of(data@), readings@, now),
                path@,
                windows,
            ),
        result matches Ok(h) ==> h.score.in_unit(),
{
    let now: u64 = (now_millis() / 1000 % 0x1_0000_0000_0000_0000) as u64;
    let windows = is_windows();
    analyze_bytes_with_context_at(data, path, windows, readings, now)
}

} // verus!
