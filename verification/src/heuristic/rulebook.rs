//! The rules that turn named signals and observed behaviour into a calibrated score.

use crate::score::{
    is_power_of_two, lemma_one_power, lemma_product_capped, lemma_rounded_capped, Score, ONE_UNITS,
};
use crate::text::{
    any_contains, any_has, chars_of, contains_text, has_chars, has_text, join, joined, lower,
    lowered, push_text, same_text, texts,
};
use vstd::prelude::*;

verus! {

/// Version of the built-in rules and of how features are read.
pub const STATIC_RULES_VERSION: u64 = 4;

/// A score together with the indicators that explain it.
#[derive(Debug)]
pub struct HeuristicScore {
    pub score: Score,
    pub indicators: Vec<String>,
}

/// One weighted rule.
#[derive(Debug, Clone, Copy)]
pub struct HeuristicRule {
    pub id: &'static str,
    pub weight: Score,
    pub description: &'static str,
}

pub struct RuleView {
    pub id: Seq<char>,
    pub weight: Score,
    pub description: Seq<char>,
}

impl View for HeuristicRule {
    type V = RuleView;

    open spec fn view(&self) -> RuleView {
        RuleView { id: self.id@, weight: self.weight, description: self.description@ }
    }
}

pub open spec fn rule(id: Seq<char>, hundredths: nat, description: Seq<char>) -> RuleView {
    RuleView { id, weight: Score::of_hundredths(hundredths), description }
}

pub open spec fn rule_views(rules: Seq<HeuristicRule>) -> Seq<RuleView> {
    rules.map_values(|r: HeuristicRule| r@)
}

/// Some text of `items` contains both needles.
pub open spec fn any_contains_both(items: Seq<Seq<char>>, a: Seq<char>, b: Seq<char>) -> bool {
    exists|i: int|
        0 <= i < items.len() && contains_text(#[trigger] items[i], a) && contains_text(items[i], b)
}

pub open spec fn one_if(b: bool) -> nat {
    if b {
        1
    } else {
        0
    }
}

/// The rules over static signals.
pub open spec fn static_rules() -> Seq<RuleView> {
    seq![
        rule(
            "many_sections"@,
            15,
            "Executable contains an unusually large number of sections"@,
        ),
        rule(
            "high_section_entropy"@,
            25,
            "Section entropy is consistent with packed or encrypted data"@,
        ),
        rule(
            "flat_high_entropy_payload"@,
            18,
            "A flat high-entropy profile is consistent with encrypted payload data"@,
        ),
        rule(
            "packer_detected"@,
            10,
            "A known executable packer marker was detected"@,
        ),
        rule(
            "obfuscated_command_strings"@,
            12,
            "Obfuscated command or network strings decode to high-risk content"@,
        ),
        rule(
            "unpacking_decoded_embedded_pe"@,
            42,
            "A bounded decode revealed an embedded PE header"@,
        ),
        rule(
            "wx_section"@,
            30,
            "Section has write and execute permissions"@,
        ),
        rule(
            "tls_callbacks"@,
            10,
            "TLS callback table is populated"@,
        ),
        rule(
            "suspicious_imports"@,
            20,
            "Imports expose memory, injection, or dynamic API resolution"@,
        ),
        rule(
            "timestamp_anomaly"@,
            5,
            "Executable timestamp is missing, stale, or in the future"@,
        ),
        rule(
            "entry_point_anomaly"@,
            15,
            "Entry point is outside an executable section"@,
        ),
        rule(
            "unsafe_segment_flags"@,
            20,
            "Load segment is simultaneously readable, writable, and executable"@,
        ),
        rule(
            "many_deps"@,
            10,
            "Executable imports an unusually large dependency set"@,
        ),
        rule(
            "api_injection_chain"@,
            70,
            "VirtualAlloc + WriteProcessMemory + CreateRemoteThread"@,
        ),
        rule(
            "api_context_combo"@,
            22,
            "Process-memory manipulation is combined with deletion or registry persistence"@,
        ),
        rule(
            "compiler_toolchain_anomaly"@,
            12,
            "Compiler/toolchain metadata is unusual for the claimed build age"@,
        ),
        rule(
            "api_ransom_chain"@,
            40,
            "CryptAcquireContext + CryptEncrypt + DeleteFile / MoveFile"@,
        ),
        rule(
            "privilege_escalation_chain"@,
            50,
            "OpenProcessToken + AdjustTokenPrivileges + OpenProcess"@,
        ),
        rule(
            "hooking_chain"@,
            30,
            "SetWindowsHookEx + GetAsyncKeyState or keyboard capture"@,
        ),
        rule(
            "dynamic_load_chain"@,
            20,
            "GetProcAddress + LoadLibrary usage for native API resolution"@,
        ),
        rule(
            "white_black_sideload_injection"@,
            48,
            "Proxy-DLL side-loading artifacts are combined with in-memory execution or process injection"@,
        ),
        rule(
            "embedded_payload"@,
            25,
            "Embedded PE or encrypted block inside resource/data section"@,
        ),
        rule(
            "authenticode_anomaly"@,
            25,
            "Unsigned or invalid signature or mismatched issuer"@,
        ),
        rule(
            "threadpool_obfuscation"@,
            34,
            "Windows thread-pool scheduling is combined with dynamic memory or API resolution"@,
        ),
        rule(
            "reflective_loader_chain"@,
            42,
            "Window enumeration or exported callback is combined with in-memory code loading"@,
        ),
        rule(
            "driver_security_termination"@,
            72,
            "Vulnerable security driver marker is combined with process-termination capability"@,
        ),
        rule(
            "defender_tampering_chain"@,
            60,
            "AMSI/ETW or Defender configuration is modified together with execution or service control"@,
        ),
        rule(
            "uac_bypass_chain"@,
            46,
            "Known UAC-bypass target is combined with process creation or shell execution"@,
        ),
        rule(
            "persistence_chain"@,
            36,
            "Startup, scheduled-task, or service persistence indicators occur together"@,
        ),
        rule(
            "credential_harvest_chain"@,
            42,
            "Clipboard or foreground-window text access is combined with credential-store artifacts and collection/exfiltration support"@,
        ),
        rule(
            "embedded_pe_payload"@,
            38,
            "A second PE image is embedded in a non-trivial executable payload"@,
        ),
        rule(
            "encrypted_overlay_payload"@,
            30,
            "Large high-entropy overlay data is appended after the PE image"@,
        ),
        rule(
            "rtlo_filename_spoofing"@,
            35,
            "Filename uses right-to-left override characters to disguise its extension"@,
        ),
    ]
}

/// The rules over observed behaviour.
pub open spec fn dynamic_rules() -> Seq<RuleView> {
    seq![
        rule(
            "api_injection_chain"@,
            70,
            "VirtualAlloc + WriteProcessMemory + CreateRemoteThread"@,
        ),
        rule(
            "api_ransom_chain"@,
            40,
            "CryptAcquireContext + CryptEncrypt + DeleteFile/MoveFile"@,
        ),
        rule(
            "privilege_escalation_chain"@,
            50,
            "OpenProcessToken + AdjustTokenPrivileges + OpenProcess"@,
        ),
        rule(
            "hooking_chain"@,
            30,
            "SetWindowsHookEx + keyboard capture"@,
        ),
        rule(
            "dynamic_load_chain"@,
            20,
            "GetProcAddress + LoadLibrary for Native API resolution"@,
        ),
        rule(
            "threadpool_obfuscation"@,
            34,
            "Thread-pool work/timer scheduling combined with memory or dynamic API resolution"@,
        ),
        rule(
            "driver_security_termination"@,
            72,
            "Security-driver load combined with termination of security processes"@,
        ),
        rule(
            "defender_tampering_chain"@,
            60,
            "AMSI/ETW or Defender tampering combined with execution or service control"@,
        ),
        rule(
            "persistence_chain"@,
            36,
            "Startup, scheduled-task, or service persistence sequence"@,
        ),
    ]
}

/// A static rule fires on the signals `s`, given in lower case.
pub open spec fn static_match(id: Seq<char>, s: Seq<Seq<char>>) -> bool {
    if id == "many_sections"@ {
        any_contains(s, "many_sections"@)
    } else if id == "high_section_entropy"@ {
        any_contains(s, "high_section_entropy"@)
    } else if id == "flat_high_entropy_payload"@ {
        any_contains(s, "flat_high_entropy_payload"@)
    } else if id == "packer_detected"@ {
        any_contains(s, "packer_detected:"@)
    } else if id == "obfuscated_command_strings"@ {
        any_contains(s, "obfuscated_command_or_url"@)
    } else if id == "unpacking_decoded_embedded_pe"@ {
        any_contains(s, "unpacking_decoded_embedded_pe"@)
    } else if id == "wx_section"@ {
        (any_contains(s, "wx_section"@) || any_contains(s, "write_execute"@) || any_contains(s, "w^x"@))
    } else if id == "tls_callbacks"@ {
        any_contains_both(s, "tls"@, "callback"@)
    } else if id == "suspicious_imports"@ {
        any_contains(s, "suspicious_imports"@)
    } else if id == "timestamp_anomaly"@ {
        any_contains(s, "timestamp_anomaly"@)
    } else if id == "entry_point_anomaly"@ {
        any_contains(s, "entry_point_anomaly"@)
    } else if id == "unsafe_segment_flags"@ {
        any_contains(s, "unsafe_segment_flags"@)
    } else if id == "many_deps"@ {
        any_contains(s, "many_deps"@)
    } else if id == "api_injection_chain"@ {
        any_contains(s, "virtualalloc"@) && any_contains(s, "writeprocessmemory"@) && any_contains(s, "createremotethread"@)
    } else if id == "api_context_combo"@ {
        any_contains(s, "api_context_combo"@)
    } else if id == "compiler_toolchain_anomaly"@ {
        any_contains(s, "compiler_toolchain_anomaly"@)
    } else if id == "api_ransom_chain"@ {
        any_contains(s, "cryptacquirecontext"@) && any_contains(s, "cryptencrypt"@) && (any_contains(s, "deletefile"@) || any_contains(s, "movefile"@))
    } else if id == "privilege_escalation_chain"@ {
        any_contains(s, "openprocesstoken"@) && any_contains(s, "adjusttokenprivileges"@) && any_contains(s, "openprocess"@)
    } else if id == "hooking_chain"@ {
        any_contains(s, "setwindowshookex"@) && (any_contains(s, "getasynckeystate"@) || any_contains(s, "keyboard"@))
    } else if id == "dynamic_load_chain"@ {
        any_contains(s, "getprocaddress"@) && any_contains(s, "loadlibrary"@)
    } else if id == "white_black_sideload_injection"@ {
        any_contains(s, "white_black_sideload_injection"@)
    } else if id == "embedded_payload"@ {
        any_contains_both(s, "embedded"@, "payload"@)
    } else if id == "authenticode_anomaly"@ {
        (any_contains_both(s, "signature"@, "invalid"@) || any_contains_both(s, "signature"@, "expired"@) || any_contains_both(s, "signature"@, "mismatch"@))
    } else if id == "threadpool_obfuscation"@ {
        any_contains(s, "threadpool_obfuscation"@)
    } else if id == "reflective_loader_chain"@ {
        any_contains(s, "reflective_loader_chain"@)
    } else if id == "driver_security_termination"@ {
        any_contains(s, "driver_security_termination"@)
    } else if id == "defender_tampering_chain"@ {
        any_contains(s, "defender_tampering_chain"@)
    } else if id == "uac_bypass_chain"@ {
        any_contains(s, "uac_bypass_chain"@)
    } else if id == "persistence_chain"@ {
        any_contains(s, "persistence_chain"@)
    } else if id == "credential_harvest_chain"@ {
        any_contains(s, "credential_harvest_chain"@)
    } else if id == "embedded_pe_payload"@ {
        any_contains(s, "embedded_pe_payload"@)
    } else if id == "encrypted_overlay_payload"@ {
        any_contains(s, "encrypted_overlay_payload"@)
    } else if id == "rtlo_filename_spoofing"@ {
        any_contains(s, "rtlo_filename_spoofing"@)
    } else {
        false
    }
}

/// A dynamic rule fires on the joined events `j`, given in lower case.
pub open spec fn dynamic_match(id: Seq<char>, j: Seq<char>) -> bool {
    if id == "api_injection_chain"@ {
        contains_text(j, "virtualalloc"@) && contains_text(j, "writeprocessmemory"@) && contains_text(j, "createremotethread"@)
    } else if id == "api_ransom_chain"@ {
        contains_text(j, "cryptacquirecontext"@) && contains_text(j, "cryptencrypt"@) && (contains_text(j, "deletefile"@) || contains_text(j, "movefile"@))
    } else if id == "privilege_escalation_chain"@ {
        contains_text(j, "openprocesstoken"@) && contains_text(j, "adjusttokenprivileges"@) && contains_text(j, "openprocess"@)
    } else if id == "hooking_chain"@ {
        contains_text(j, "setwindowshookex"@) && (contains_text(j, "getasynckeystate"@) || contains_text(j, "keyboard"@))
    } else if id == "dynamic_load_chain"@ {
        contains_text(j, "getprocaddress"@) && contains_text(j, "loadlibrary"@)
    } else if id == "threadpool_obfuscation"@ {
        one_if(contains_text(j, "createthreadpoolwork"@))
            + one_if(contains_text(j, "create_threadpool_work"@))
            + one_if(contains_text(j, "submitthreadpoolwork"@))
            + one_if(contains_text(j, "closethreadpoolwork"@))
            + one_if(contains_text(j, "tpallocwork"@))
            + one_if(contains_text(j, "tppostwork"@))
            + one_if(contains_text(j, "trysubmitthreadpoolcallback"@))
            + one_if(contains_text(j, "setthreadpooltimer"@))
            + one_if(contains_text(j, "createthreadpooltimer"@)) >= 2 && (contains_text(j, "virtualalloc"@) || contains_text(j, "virtualprotect"@) || contains_text(j, "ntprotectvirtualmemory"@) || contains_text(j, "rtlmovememory"@) || contains_text(j, "getprocaddress"@))
    } else if id == "driver_security_termination"@ {
        (contains_text(j, "amsdk.sys"@) || contains_text(j, "zam.exe"@) || contains_text(j, "watchdog antimalware"@)) && (contains_text(j, "terminateprocess"@) || contains_text(j, "ntterminateprocess"@) || contains_text(j, "zwterminateprocess"@))
    } else if id == "defender_tampering_chain"@ {
        (contains_text(j, "amsiscanbuffer"@) || contains_text(j, "etweventwrite"@) || contains_text(j, "disablerealtimemonitoring"@) || contains_text(j, "exclusionpath"@) || contains_text(j, "mpreference"@)) && (contains_text(j, "virtualprotect"@) || contains_text(j, "writeprocessmemory"@) || contains_text(j, "sc stop"@) || contains_text(j, "set-mppreference"@))
    } else if id == "persistence_chain"@ {
        one_if(contains_text(j, "currentversion\\run"@))
            + one_if(contains_text(j, "schtasks /create"@))
            + one_if(contains_text(j, "create service"@))
            + one_if(contains_text(j, "sc create"@))
            + one_if(contains_text(j, "\\startup\\"@)) >= 2
    } else {
        false
    }
}

/// The static rules that fire, in rulebook order.
pub open spec fn static_hits(rules: Seq<RuleView>, s: Seq<Seq<char>>) -> Seq<RuleView>
    decreases rules.len(),
{
    if rules.len() == 0 {
        Seq::empty()
    } else {
        let rest = static_hits(rules.drop_last(), s);
        if static_match(rules.last().id, s) {
            rest.push(rules.last())
        } else {
            rest
        }
    }
}

/// The dynamic rules that fire, in order.
pub open spec fn dynamic_hits(rules: Seq<RuleView>, j: Seq<char>) -> Seq<RuleView>
    decreases rules.len(),
{
    if rules.len() == 0 {
        Seq::empty()
    } else {
        let rest = dynamic_hits(rules.drop_last(), j);
        if dynamic_match(rules.last().id, j) {
            rest.push(rules.last())
        } else {
            rest
        }
    }
}

pub open spec fn weights_of(rules: Seq<RuleView>) -> Seq<Score> {
    rules.map_values(|r: RuleView| r.weight)
}

pub open spec fn descriptions_of(rules: Seq<RuleView>) -> Seq<Seq<char>> {
    rules.map_values(|r: RuleView| r.description)
}

pub open spec fn lowered_all(items: Seq<Seq<char>>) -> Seq<Seq<char>> {
    items.map_values(|t: Seq<char>| lowered(t))
}

/// What the weights leave unexplained: each takes its share of what is left.
pub open spec fn residual_of(weights: Seq<Score>) -> Score
    decreases weights.len(),
{
    if weights.len() == 0 {
        Score::one()
    } else {
        residual_of(weights.drop_last()).product(
            Score::one().difference(weights.last().lesser(Score::of_hundredths(95))),
        )
    }
}

/// Evidence combined with diminishing returns, and a small bonus for corroboration.
pub open spec fn calibrated(weights: Seq<Score>) -> Score {
    if weights.len() == 0 {
        Score::zero()
    } else {
        let corroboration = Score { units: ((weights.len() - 1) * ONE_UNITS) as u128 }.product(
            Score::of_ratio(25, 1000),
        ).lesser(Score::of_hundredths(10));
        Score::one().difference(residual_of(weights)).sum(corroboration).lesser(Score::one())
    }
}

pub fn one_when(b: bool) -> (n: u8)
    ensures
        n == one_if(b),
        n <= 1,
{
    if b {
        1
    } else {
        0
    }
}

/// Some text of the list contains both needles.
pub fn any_has_both(items: &[String], a: &str, b: &str) -> (found: bool)
    ensures
        found == any_contains_both(texts(items@), a@, b@),
{
    let first = chars_of(a);
    let second = chars_of(b);
    let mut i: usize = 0;
    while i < items.len()
        invariant
            i <= items@.len(),
            first@ == a@,
            second@ == b@,
            forall|k: int|
                0 <= k < i ==> !(contains_text(#[trigger] texts(items@)[k], a@) && contains_text(
                    texts(items@)[k],
                    b@,
                )),
        decreases items@.len() - i,
    {
        let chars = chars_of(items[i].as_str());
        if has_chars(&chars, &first) && has_chars(&chars, &second) {
            assert(contains_text(texts(items@)[i as int], a@));
            return true;
        }
        i = i + 1;
    }
    false
}

fn add_rule(
    rules: &mut Vec<HeuristicRule>,
    id: &'static str,
    hundredths: u64,
    description: &'static str,
)
    requires
        hundredths <= 100,
    ensures
        rule_views(final(rules)@) == rule_views(old(rules)@).push(
            rule(id@, hundredths as nat, description@),
        ),
{
    rules.push(HeuristicRule { id, weight: Score::hundredths(hundredths), description });
    assert(rule_views(rules@) =~= rule_views(old(rules)@).push(
        rule(id@, hundredths as nat, description@),
    ));
}

/// The rules over static signals.
pub fn static_rulebook() -> (rules: Vec<HeuristicRule>)
    ensures
        rule_views(rules@) == static_rules(),
{
    let mut rules: Vec<HeuristicRule> = Vec::new();
    assert(rule_views(rules@) =~= Seq::empty());
    add_rule(
        &mut rules,
        "many_sections",
        15,
        "Executable contains an unusually large number of sections",
    );
    add_rule(
        &mut rules,
        "high_section_entropy",
        25,
        "Section entropy is consistent with packed or encrypted data",
    );
    add_rule(
        &mut rules,
        "flat_high_entropy_payload",
        18,
        "A flat high-entropy profile is consistent with encrypted payload data",
    );
    add_rule(
        &mut rules,
        "packer_detected",
        10,
        "A known executable packer marker was detected",
    );
    add_rule(
        &mut rules,
        "obfuscated_command_strings",
        12,
        "Obfuscated command or network strings decode to high-risk content",
    );
    add_rule(
        &mut rules,
        "unpacking_decoded_embedded_pe",
        42,
        "A bounded decode revealed an embedded PE header",
    );
    add_rule(
        &mut rules,
        "wx_section",
        30,
        "Section has write and execute permissions",
    );
    add_rule(
        &mut rules,
        "tls_callbacks",
        10,
        "TLS callback table is populated",
    );
    add_rule(
        &mut rules,
        "suspicious_imports",
        20,
        "Imports expose memory, injection, or dynamic API resolution",
    );
    add_rule(
        &mut rules,
        "timestamp_anomaly",
        5,
        "Executable timestamp is missing, stale, or in the future",
    );
    add_rule(
        &mut rules,
        "entry_point_anomaly",
        15,
        "Entry point is outside an executable section",
    );
    add_rule(
        &mut rules,
        "unsafe_segment_flags",
        20,
        "Load segment is simultaneously readable, writable, and executable",
    );
    add_rule(
        &mut rules,
        "many_deps",
        10,
        "Executable imports an unusually large dependency set",
    );
    add_rule(
        &mut rules,
        "api_injection_chain",
        70,
        "VirtualAlloc + WriteProcessMemory + CreateRemoteThread",
    );
    add_rule(
        &mut rules,
        "api_context_combo",
        22,
        "Process-memory manipulation is combined with deletion or registry persistence",
    );
    add_rule(
        &mut rules,
        "compiler_toolchain_anomaly",
        12,
        "Compiler/toolchain metadata is unusual for the claimed build age",
    );
    add_rule(
        &mut rules,
        "api_ransom_chain",
        40,
        "CryptAcquireContext + CryptEncrypt + DeleteFile / MoveFile",
    );
    add_rule(
        &mut rules,
        "privilege_escalation_chain",
        50,
        "OpenProcessToken + AdjustTokenPrivileges + OpenProcess",
    );
    add_rule(
        &mut rules,
        "hooking_chain",
        30,
        "SetWindowsHookEx + GetAsyncKeyState or keyboard capture",
    );
    add_rule(
        &mut rules,
        "dynamic_load_chain",
        20,
        "GetProcAddress + LoadLibrary usage for native API resolution",
    );
    add_rule(
        &mut rules,
        "white_black_sideload_injection",
        48,
        "Proxy-DLL side-loading artifacts are combined with in-memory execution or process injection",
    );
    add_rule(
        &mut rules,
        "embedded_payload",
        25,
        "Embedded PE or encrypted block inside resource/data section",
    );
    add_rule(
        &mut rules,
        "authenticode_anomaly",
        25,
        "Unsigned or invalid signature or mismatched issuer",
    );
    add_rule(
        &mut rules,
        "threadpool_obfuscation",
        34,
        "Windows thread-pool scheduling is combined with dynamic memory or API resolution",
    );
    add_rule(
        &mut rules,
        "reflective_loader_chain",
        42,
        "Window enumeration or exported callback is combined with in-memory code loading",
    );
    add_rule(
        &mut rules,
        "driver_security_termination",
        72,
        "Vulnerable security driver marker is combined with process-termination capability",
    );
    add_rule(
        &mut rules,
        "defender_tampering_chain",
        60,
        "AMSI/ETW or Defender configuration is modified together with execution or service control",
    );
    add_rule(
        &mut rules,
        "uac_bypass_chain",
        46,
        "Known UAC-bypass target is combined with process creation or shell execution",
    );
    add_rule(
        &mut rules,
        "persistence_chain",
        36,
        "Startup, scheduled-task, or service persistence indicators occur together",
    );
    add_rule(
        &mut rules,
        "credential_harvest_chain",
        42,
        "Clipboard or foreground-window text access is combined with credential-store artifacts and collection/exfiltration support",
    );
    add_rule(
        &mut rules,
        "embedded_pe_payload",
        38,
        "A second PE image is embedded in a non-trivial executable payload",
    );
    add_rule(
        &mut rules,
        "encrypted_overlay_payload",
        30,
        "Large high-entropy overlay data is appended after the PE image",
    );
    add_rule(
        &mut rules,
        "rtlo_filename_spoofing",
        35,
        "Filename uses right-to-left override characters to disguise its extension",
    );
    rules
}

fn dynamic_rulebook() -> (rules: Vec<HeuristicRule>)
    ensures
        rule_views(rules@) == dynamic_rules(),
{
    let mut rules: Vec<HeuristicRule> = Vec::new();
    assert(rule_views(rules@) =~= Seq::empty());
    add_rule(
        &mut rules,
        "api_injection_chain",
        70,
        "VirtualAlloc + WriteProcessMemory + CreateRemoteThread",
    );
    add_rule(
        &mut rules,
        "api_ransom_chain",
        40,
        "CryptAcquireContext + CryptEncrypt + DeleteFile/MoveFile",
    );
    add_rule(
        &mut rules,
        "privilege_escalation_chain",
        50,
        "OpenProcessToken + AdjustTokenPrivileges + OpenProcess",
    );
    add_rule(
        &mut rules,
        "hooking_chain",
        30,
        "SetWindowsHookEx + keyboard capture",
    );
    add_rule(
        &mut rules,
        "dynamic_load_chain",
        20,
        "GetProcAddress + LoadLibrary for Native API resolution",
    );
    add_rule(
        &mut rules,
        "threadpool_obfuscation",
        34,
        "Thread-pool work/timer scheduling combined with memory or dynamic API resolution",
    );
    add_rule(
        &mut rules,
        "driver_security_termination",
        72,
        "Security-driver load combined with termination of security processes",
    );
    add_rule(
        &mut rules,
        "defender_tampering_chain",
        60,
        "AMSI/ETW or Defender tampering combined with execution or service control",
    );
    add_rule(
        &mut rules,
        "persistence_chain",
        36,
        "Startup, scheduled-task, or service persistence sequence",
    );
    rules
}

/// A static rule fires on signals given in lower case.
fn fires_on_signals(id: &str, signals: &[String]) -> (b: bool)
    ensures
        b == static_match(id@, texts(signals@)),
{
    if same_text(id, "many_sections") {
        any_has(signals, "many_sections")
    } else if same_text(id, "high_section_entropy") {
        any_has(signals, "high_section_entropy")
    } else if same_text(id, "flat_high_entropy_payload") {
        any_has(signals, "flat_high_entropy_payload")
    } else if same_text(id, "packer_detected") {
        any_has(signals, "packer_detected:")
    } else if same_text(id, "obfuscated_command_strings") {
        any_has(signals, "obfuscated_command_or_url")
    } else if same_text(id, "unpacking_decoded_embedded_pe") {
        any_has(signals, "unpacking_decoded_embedded_pe")
    } else if same_text(id, "wx_section") {
        (any_has(signals, "wx_section") || any_has(signals, "write_execute") || any_has(signals, "w^x"))
    } else if same_text(id, "tls_callbacks") {
        any_has_both(signals, "tls", "callback")
    } else if same_text(id, "suspicious_imports") {
        any_has(signals, "suspicious_imports")
    } else if same_text(id, "timestamp_anomaly") {
        any_has(signals, "timestamp_anomaly")
    } else if same_text(id, "entry_point_anomaly") {
        any_has(signals, "entry_point_anomaly")
    } else if same_text(id, "unsafe_segment_flags") {
        any_has(signals, "unsafe_segment_flags")
    } else if same_text(id, "many_deps") {
        any_has(signals, "many_deps")
    } else if same_text(id, "api_injection_chain") {
        any_has(signals, "virtualalloc") && any_has(signals, "writeprocessmemory") && any_has(signals, "createremotethread")
    } else if same_text(id, "api_context_combo") {
        any_has(signals, "api_context_combo")
    } else if same_text(id, "compiler_toolchain_anomaly") {
        any_has(signals, "compiler_toolchain_anomaly")
    } else if same_text(id, "api_ransom_chain") {
        any_has(signals, "cryptacquirecontext") && any_has(signals, "cryptencrypt") && (any_has(signals, "deletefile") || any_has(signals, "movefile"))
    } else if same_text(id, "privilege_escalation_chain") {
        any_has(signals, "openprocesstoken") && any_has(signals, "adjusttokenprivileges") && any_has(signals, "openprocess")
    } else if same_text(id, "hooking_chain") {
        any_has(signals, "setwindowshookex") && (any_has(signals, "getasynckeystate") || any_has(signals, "keyboard"))
    } else if same_text(id, "dynamic_load_chain") {
        any_has(signals, "getprocaddress") && any_has(signals, "loadlibrary")
    } else if same_text(id, "white_black_sideload_injection") {
        any_has(signals, "white_black_sideload_injection")
    } else if same_text(id, "embedded_payload") {
        any_has_both(signals, "embedded", "payload")
    } else if same_text(id, "authenticode_anomaly") {
        (any_has_both(signals, "signature", "invalid") || any_has_both(signals, "signature", "expired") || any_has_both(signals, "signature", "mismatch"))
    } else if same_text(id, "threadpool_obfuscation") {
        any_has(signals, "threadpool_obfuscation")
    } else if same_text(id, "reflective_loader_chain") {
        any_has(signals, "reflective_loader_chain")
    } else if same_text(id, "driver_security_termination") {
        any_has(signals, "driver_security_termination")
    } else if same_text(id, "defender_tampering_chain") {
        any_has(signals, "defender_tampering_chain")
    } else if same_text(id, "uac_bypass_chain") {
        any_has(signals, "uac_bypass_chain")
    } else if same_text(id, "persistence_chain") {
        any_has(signals, "persistence_chain")
    } else if same_text(id, "credential_harvest_chain") {
        any_has(signals, "credential_harvest_chain")
    } else if same_text(id, "embedded_pe_payload") {
        any_has(signals, "embedded_pe_payload")
    } else if same_text(id, "encrypted_overlay_payload") {
        any_has(signals, "encrypted_overlay_payload")
    } else if same_text(id, "rtlo_filename_spoofing") {
        any_has(signals, "rtlo_filename_spoofing")
    } else {
        false
    }
}

/// A dynamic rule fires on joined events given in lower case.
fn fires_on_events(id: &str, events: &str) -> (b: bool)
    ensures
        b == dynamic_match(id@, events@),
{
    if same_text(id, "api_injection_chain") {
        has_text(events, "virtualalloc") && has_text(events, "writeprocessmemory") && has_text(events, "createremotethread")
    } else if same_text(id, "api_ransom_chain") {
        has_text(events, "cryptacquirecontext") && has_text(events, "cryptencrypt") && (has_text(events, "deletefile") || has_text(events, "movefile"))
    } else if same_text(id, "privilege_escalation_chain") {
        has_text(events, "openprocesstoken") && has_text(events, "adjusttokenprivileges") && has_text(events, "openprocess")
    } else if same_text(id, "hooking_chain") {
        has_text(events, "setwindowshookex") && (has_text(events, "getasynckeystate") || has_text(events, "keyboard"))
    } else if same_text(id, "dynamic_load_chain") {
        has_text(events, "getprocaddress") && has_text(events, "loadlibrary")
    } else if same_text(id, "threadpool_obfuscation") {
        one_when(has_text(events, "createthreadpoolwork"))
            + one_when(has_text(events, "create_threadpool_work"))
            + one_when(has_text(events, "submitthreadpoolwork"))
            + one_when(has_text(events, "closethreadpoolwork"))
            + one_when(has_text(events, "tpallocwork"))
            + one_when(has_text(events, "tppostwork"))
            + one_when(has_text(events, "trysubmitthreadpoolcallback"))
            + one_when(has_text(events, "setthreadpooltimer"))
            + one_when(has_text(events, "createthreadpooltimer")) >= 2 && (has_text(events, "virtualalloc") || has_text(events, "virtualprotect") || has_text(events, "ntprotectvirtualmemory") || has_text(events, "rtlmovememory") || has_text(events, "getprocaddress"))
    } else if same_text(id, "driver_security_termination") {
        (has_text(events, "amsdk.sys") || has_text(events, "zam.exe") || has_text(events, "watchdog antimalware")) && (has_text(events, "terminateprocess") || has_text(events, "ntterminateprocess") || has_text(events, "zwterminateprocess"))
    } else if same_text(id, "defender_tampering_chain") {
        (has_text(events, "amsiscanbuffer") || has_text(events, "etweventwrite") || has_text(events, "disablerealtimemonitoring") || has_text(events, "exclusionpath") || has_text(events, "mpreference")) && (has_text(events, "virtualprotect") || has_text(events, "writeprocessmemory") || has_text(events, "sc stop") || has_text(events, "set-mppreference"))
    } else if same_text(id, "persistence_chain") {
        one_when(has_text(events, "currentversion\\run"))
            + one_when(has_text(events, "schtasks /create"))
            + one_when(has_text(events, "create service"))
            + one_when(has_text(events, "sc create"))
            + one_when(has_text(events, "\\startup\\")) >= 2
    } else {
        false
    }
}

/// The texts in lower case.
pub fn lower_all(items: &[String]) -> (low: Vec<String>)
    ensures
        texts(low@) == lowered_all(texts(items@)),
{
    let mut low: Vec<String> = Vec::new();
    let mut i: usize = 0;
    while i < items.len()
        invariant
            i <= items@.len(),
            texts(low@) == lowered_all(texts(items@)).take(i as int),
        decreases items@.len() - i,
    {
        push_text(&mut low, lower(items[i].as_str()));
        assert(lowered_all(texts(items@)).take(i + 1) =~= lowered_all(texts(items@)).take(
            i as int,
        ).push(lowered(items@[i as int]@)));
        i = i + 1;
    }
    assert(lowered_all(texts(items@)).take(i as int) =~= lowered_all(texts(items@)));
    low
}

/// The calibrated combination of at most thirty-three weights.
pub fn calibrated_score(weights: &[Score]) -> (s: Score)
    requires
        weights@.len() <= 33,
    ensures
        s == calibrated(weights@),
        s.in_unit(),
{
    if weights.len() == 0 {
        return Score { units: 0 };
    }
    let one = Score { units: ONE_UNITS };
    let mut residual = one;
    let mut i: usize = 0;
    proof {
        lemma_one_power();
    }
    while i < weights.len()
        invariant
            i <= weights@.len(),
            one == Score::one(),
            is_power_of_two(ONE_UNITS as nat),
            residual == residual_of(weights@.take(i as int)),
            residual.in_unit(),
        decreases weights@.len() - i,
    {
        assert(weights@.take(i + 1).drop_last() =~= weights@.take(i as int));
        assert(weights@.take(i + 1).last() == weights@[i as int]);
        let cap = Score::hundredths(95);
        let weight = weights[i].min(cap);
        let share = one.minus(weight);
        proof {
            lemma_rounded_capped((one.units - weight.units) as nat, ONE_UNITS as nat);
            lemma_product_capped(residual.units as nat, share.units as nat);
        }
        residual = residual.times(share);
        i = i + 1;
    }
    assert(weights@.take(i as int) =~= weights@);
    let extra: u128 = (weights.len() - 1) as u128;
    let count = Score { units: extra * ONE_UNITS };
    let corroboration = count.times(Score::ratio(25, 1000)).min(Score::hundredths(10));
    let explained = one.minus(residual);
    proof {
        lemma_rounded_capped((one.units - residual.units) as nat, ONE_UNITS as nat);
    }
    explained.plus(corroboration).min(one)
}

/// Scores a list of static signals against the rulebook.
pub fn score_static_signals(signals: &[String]) -> (result: HeuristicScore)
    ensures
        ({
            let hits = static_hits(static_rules(), lowered_all(texts(signals@)));
            &&& result.score == calibrated(weights_of(hits))
            &&& texts(result.indicators@) == descriptions_of(hits)
            &&& result.score.in_unit()
        }),
{
    let low = lower_all(signals);
    let rules = static_rulebook();
    assert(rules@.len() == rule_views(rules@).len());
    let mut indicators: Vec<String> = Vec::new();
    let mut weights: Vec<Score> = Vec::new();
    let mut i: usize = 0;
    assert(texts(indicators@) =~= descriptions_of(Seq::empty()));
    assert(weights@ =~= weights_of(Seq::empty()));
    while i < rules.len()
        invariant
            i <= rules@.len(),
            rules@.len() == 33,
            weights@.len() <= i,
            texts(low@) == lowered_all(texts(signals@)),
            texts(indicators@) == descriptions_of(
                static_hits(rule_views(rules@).take(i as int), texts(low@)),
            ),
            weights@ == weights_of(static_hits(rule_views(rules@).take(i as int), texts(low@))),
        decreases rules@.len() - i,
    {
        let ghost before = static_hits(rule_views(rules@).take(i as int), texts(low@));
        let rule = rules[i];
        assert(rule_views(rules@).take(i + 1).drop_last() =~= rule_views(rules@).take(i as int));
        assert(rule_views(rules@).take(i + 1).last() == rule@);
        if fires_on_signals(rule.id, &low) {
            push_text(&mut indicators, rule.description.to_owned());
            weights.push(rule.weight);
            assert(descriptions_of(before.push(rule@)) =~= descriptions_of(before).push(
                rule.description@,
            ));
            assert(weights_of(before.push(rule@)) =~= weights_of(before).push(rule.weight));
        }
        i = i + 1;
    }
    assert(rule_views(rules@).take(i as int) =~= rule_views(rules@));
    HeuristicScore { score: calibrated_score(&weights), indicators }
}

/// Scores a list of observed events.
pub fn score_dynamic_behavior(events: &[String]) -> (result: HeuristicScore)
    ensures
        ({
            let hits = dynamic_hits(dynamic_rules(), lowered(joined(texts(events@), " "@)));
            &&& result.score == calibrated(weights_of(hits))
            &&& texts(result.indicators@) == descriptions_of(hits)
            &&& result.score.in_unit()
        }),
{
    let all = join(events, " ");
    let low = lower(all.as_str());
    let rules = dynamic_rulebook();
    assert(rules@.len() == rule_views(rules@).len());
    let mut indicators: Vec<String> = Vec::new();
    let mut weights: Vec<Score> = Vec::new();
    let mut i: usize = 0;
    assert(texts(indicators@) =~= descriptions_of(Seq::empty()));
    assert(weights@ =~= weights_of(Seq::empty()));
    while i < rules.len()
        invariant
            i <= rules@.len(),
            rules@.len() == 9,
            weights@.len() <= i,
            low@ == lowered(joined(texts(events@), " "@)),
            texts(indicators@) == descriptions_of(
                dynamic_hits(rule_views(rules@).take(i as int), low@),
            ),
            weights@ == weights_of(dynamic_hits(rule_views(rules@).take(i as int), low@)),
        decreases rules@.len() - i,
    {
        let ghost before = dynamic_hits(rule_views(rules@).take(i as int), low@);
        let rule = rules[i];
        assert(rule_views(rules@).take(i + 1).drop_last() =~= rule_views(rules@).take(i as int));
        assert(rule_views(rules@).take(i + 1).last() == rule@);
        if fires_on_events(rule.id, low.as_str()) {
            push_text(&mut indicators, rule.description.to_owned());
            weights.push(rule.weight);
            assert(descriptions_of(before.push(rule@)) =~= descriptions_of(before).push(
                rule.description@,
            ));
            assert(weights_of(before.push(rule@)) =~= weights_of(before).push(rule.weight));
        }
        i = i + 1;
    }
    assert(rule_views(rules@).take(i as int) =~= rule_views(rules@));
    HeuristicScore { score: calibrated_score(&weights), indicators }
}

} // verus!
