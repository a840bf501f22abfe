//! What the analysis of an image must say of its entry point, sections and segments.

use crate::heuristic::analysis::{
    analysis_of, certificate_anomaly, certificate_notes, chain_indicators, credential_harvest,
    defender_tampering, driver_termination, dynamic_load_chain, elf_indicators, embedded_image,
    entry_covered, entry_loaded, explained, header_notes, hooking_chain, injection_chain, is_wx,
    linker_text, merged, overlay_span, pdb_path_of, pe_indicators, persistence_hits,
    privilege_chain, ransom_chain, raw_indicators, reading_value, reflective_loader_chain,
    section_notes, section_span, section_title, segment_notes, sideload_injection,
    suspicious_imports, threadpool_obfuscation, uac_bypass, ReadingView, ReadingsView,
};
use crate::heuristic::context::{anomaly_score, combination_score};
use crate::heuristic::rulebook::{descriptions_of, lowered_all, static_hits, static_rules, RuleView};
use crate::objects::{
    format_of, parsed_elf, parsed_optional_header, pe_of, ElfLayoutView, ObjectFormat,
    OptionalHeader, PeLayoutView, SectionView, SegmentFacts,
};
use crate::score::Score;
use crate::text::{decimal, only_if};
use crate::unpacking::unpacking_indicators;
use vstd::prelude::*;

verus! {

/// The text begins as the indicator of an entry point does.
spec fn entryish(t: Seq<char>) -> bool {
    t.len() > 2 && t[0] == 'e' && t[1] == 'n' && t[2] == 't'
}

/// No text begins so.
#[verifier::opaque]
spec fn apart(items: Seq<Seq<char>>) -> bool {
    forall|i: int| 0 <= i < items.len() ==> !entryish(#[trigger] items[i])
}

proof fn lemma_apart_joined(a: Seq<Seq<char>>, b: Seq<Seq<char>>)
    requires
        apart(a),
        apart(b),
    ensures
        apart(a + b),
{
    reveal(apart);
    assert forall|i: int| 0 <= i < (a + b).len() implies !entryish(#[trigger] (a + b)[i]) by {
        if i < a.len() {
            assert((a + b)[i] == a[i]);
        } else {
            assert((a + b)[i] == b[i - a.len()]);
        }
    }
}

proof fn lemma_apart_if(condition: bool, t: Seq<char>)
    requires
        !entryish(t),
    ensures
        apart(only_if(condition, t)),
{
    reveal(apart);
}

pub proof fn lemma_holds_joined(a: Seq<Seq<char>>, b: Seq<Seq<char>>, t: Seq<char>)
    ensures
        (a + b).contains(t) == (a.contains(t) || b.contains(t)),
{
    if a.contains(t) {
        let i = a.index_of(t);
        assert((a + b)[i] == t);
    }
    if b.contains(t) {
        let i = b.index_of(t);
        assert((a + b)[a.len() + i] == t);
    }
    if (a + b).contains(t) {
        let i = (a + b).index_of(t);
        if i < a.len() {
            assert(a[i] == t);
        } else {
            assert(b[i - a.len()] == t);
        }
    }
}

pub proof fn lemma_holds_if(condition: bool, t: Seq<char>)
    ensures
        only_if(condition, t).contains(t) == condition,
{
    if condition {
        assert(only_if(condition, t)[0] == t);
    }
}

pub proof fn lemma_merged_holds(base: Seq<Seq<char>>, extra: Seq<Seq<char>>, t: Seq<char>)
    ensures
        merged(base, extra).contains(t) == (base.contains(t) || extra.contains(t)),
    decreases extra.len(),
{
    if extra.len() > 0 {
        let front = extra.drop_last();
        let before = merged(base, front);
        lemma_merged_holds(base, front, t);
        lemma_merged_holds(base, front, extra.last());
        assert(extra =~= front.push(extra.last()));
        vstd::seq_lib::lemma_seq_contains_after_push(front, extra.last(), t);
        vstd::seq_lib::lemma_seq_contains_after_push(before, extra.last(), t);
    }
}

/// No description of a rule begins as the indicator of an entry point does.
proof fn lemma_descriptions_apart()
    ensures
        apart(descriptions_of(static_rules())),
{
    reveal_strlit("Executable contains an unusually large number of sections");
    reveal_strlit("Section entropy is consistent with packed or encrypted data");
    reveal_strlit("A flat high-entropy profile is consistent with encrypted payload data");
    reveal_strlit("A known executable packer marker was detected");
    reveal_strlit("Obfuscated command or network strings decode to high-risk content");
    reveal_strlit("A bounded decode revealed an embedded PE header");
    reveal_strlit("Section has write and execute permissions");
    reveal_strlit("TLS callback table is populated");
    reveal_strlit("Imports expose memory, injection, or dynamic API resolution");
    reveal_strlit("Executable timestamp is missing, stale, or in the future");
    reveal_strlit("Entry point is outside an executable section");
    reveal_strlit("Load segment is simultaneously readable, writable, and executable");
    reveal_strlit("Executable imports an unusually large dependency set");
    reveal_strlit("VirtualAlloc + WriteProcessMemory + CreateRemoteThread");
    reveal_strlit("Process-memory manipulation is combined with deletion or registry persistence");
    reveal_strlit("Compiler/toolchain metadata is unusual for the claimed build age");
    reveal_strlit("CryptAcquireContext + CryptEncrypt + DeleteFile / MoveFile");
    reveal_strlit("OpenProcessToken + AdjustTokenPrivileges + OpenProcess");
    reveal_strlit("SetWindowsHookEx + GetAsyncKeyState or keyboard capture");
    reveal_strlit("GetProcAddress + LoadLibrary usage for native API resolution");
    reveal_strlit("Proxy-DLL side-loading artifacts are combined with in-memory execution or process injection");
    reveal_strlit("Embedded PE or encrypted block inside resource/data section");
    reveal_strlit("Unsigned or invalid signature or mismatched issuer");
    reveal_strlit("Windows thread-pool scheduling is combined with dynamic memory or API resolution");
    reveal_strlit("Window enumeration or exported callback is combined with in-memory code loading");
    reveal_strlit("Vulnerable security driver marker is combined with process-termination capability");
    reveal_strlit("AMSI/ETW or Defender configuration is modified together with execution or service control");
    reveal_strlit("Known UAC-bypass target is combined with process creation or shell execution");
    reveal_strlit("Startup, scheduled-task, or service persistence indicators occur together");
    reveal_strlit("Clipboard or foreground-window text access is combined with credential-store artifacts and collection/exfiltration support");
    reveal_strlit("A second PE image is embedded in a non-trivial executable payload");
    reveal_strlit("Large high-entropy overlay data is appended after the PE image");
    reveal_strlit("Filename uses right-to-left override characters to disguise its extension");
    assert(!entryish("Executable contains an unusually large number of sections"@));
    assert(!entryish("Section entropy is consistent with packed or encrypted data"@));
    assert(!entryish("A flat high-entropy profile is consistent with encrypted payload data"@));
    assert(!entryish("A known executable packer marker was detected"@));
    assert(!entryish("Obfuscated command or network strings decode to high-risk content"@));
    assert(!entryish("A bounded decode revealed an embedded PE header"@));
    assert(!entryish("Section has write and execute permissions"@));
    assert(!entryish("TLS callback table is populated"@));
    assert(!entryish("Imports expose memory, injection, or dynamic API resolution"@));
    assert(!entryish("Executable timestamp is missing, stale, or in the future"@));
    assert(!entryish("Entry point is outside an executable section"@));
    assert(!entryish("Load segment is simultaneously readable, writable, and executable"@));
    assert(!entryish("Executable imports an unusually large dependency set"@));
    assert(!entryish("VirtualAlloc + WriteProcessMemory + CreateRemoteThread"@));
    assert(!entryish("Process-memory manipulation is combined with deletion or registry persistence"@));
    assert(!entryish("Compiler/toolchain metadata is unusual for the claimed build age"@));
    assert(!entryish("CryptAcquireContext + CryptEncrypt + DeleteFile / MoveFile"@));
    assert(!entryish("OpenProcessToken + AdjustTokenPrivileges + OpenProcess"@));
    assert(!entryish("SetWindowsHookEx + GetAsyncKeyState or keyboard capture"@));
    assert(!entryish("GetProcAddress + LoadLibrary usage for native API resolution"@));
    assert(!entryish("Proxy-DLL side-loading artifacts are combined with in-memory execution or process injection"@));
    assert(!entryish("Embedded PE or encrypted block inside resource/data section"@));
    assert(!entryish("Unsigned or invalid signature or mismatched issuer"@));
    assert(!entryish("Windows thread-pool scheduling is combined with dynamic memory or API resolution"@));
    assert(!entryish("Window enumeration or exported callback is combined with in-memory code loading"@));
    assert(!entryish("Vulnerable security driver marker is combined with process-termination capability"@));
    assert(!entryish("AMSI/ETW or Defender configuration is modified together with execution or service control"@));
    assert(!entryish("Known UAC-bypass target is combined with process creation or shell execution"@));
    assert(!entryish("Startup, scheduled-task, or service persistence indicators occur together"@));
    assert(!entryish("Clipboard or foreground-window text access is combined with credential-store artifacts and collection/exfiltration support"@));
    assert(!entryish("A second PE image is embedded in a non-trivial executable payload"@));
    assert(!entryish("Large high-entropy overlay data is appended after the PE image"@));
    assert(!entryish("Filename uses right-to-left override characters to disguise its extension"@));
    reveal(apart);
    let rules = static_rules();
    let all = descriptions_of(rules);
    assert(all.len() == 33);
    assert forall|i: int| 0 <= i < all.len() implies !entryish(#[trigger] all[i]) by {
        assert(all[i] == rules[i].description);
    }
}

proof fn lemma_hits_apart(rules: Seq<RuleView>, s: Seq<Seq<char>>)
    requires
        apart(descriptions_of(rules)),
    ensures
        apart(descriptions_of(static_hits(rules, s))),
    decreases rules.len(),
{
    reveal(apart);
    if rules.len() > 0 {
        let front = rules.drop_last();
        assert forall|i: int| 0 <= i < descriptions_of(front).len() implies !entryish(
            #[trigger] descriptions_of(front)[i],
        ) by {
            assert(descriptions_of(front)[i] == descriptions_of(rules)[i]);
        }
        lemma_hits_apart(front, s);
        let before = static_hits(front, s);
        let all = static_hits(rules, s);
        assert(!entryish(rules.last().description)) by {
            assert(descriptions_of(rules)[rules.len() - 1] == rules.last().description);
        }
        assert forall|i: int| 0 <= i < descriptions_of(all).len() implies !entryish(
            #[trigger] descriptions_of(all)[i],
        ) by {
            if i < before.len() {
                assert(descriptions_of(before)[i] == descriptions_of(all)[i]);
            }
        }
    }
}

proof fn lemma_raw_apart(data: Seq<u8>)
    ensures
        apart(raw_indicators(data)),
{
    reveal_strlit("packer_detected:upx");
    reveal_strlit("packer_detected:aspack");
    reveal_strlit("packer_detected:themida");
    reveal_strlit("packer_detected:vmprotect");
    reveal_strlit("base64_obfuscated_pe");
    reveal_strlit("xor_obfuscated_pe");
    reveal_strlit("xor_obfuscated_command_or_url");
    reveal_strlit("unpacking_decoded_embedded_pe");
    reveal_strlit("embedded_payload_decoded:");
    reveal_strlit("signature:mismatch:certificate_table_truncated");
    reveal_strlit("signature:mismatch:certificate_table_unaligned");
    reveal(apart);
    let all = unpacking_indicators(data);
    assert forall|i: int| 0 <= i < all.len() implies !entryish(#[trigger] all[i]) by {}
    let fault = match certificate_anomaly(data) {
        Some(f) => seq![f],
        None => Seq::empty(),
    };
    assert(apart(fault));
    lemma_apart_joined(all, fault);
}

proof fn lemma_sections_apart(
    sections: Seq<SectionView>,
    readings: Seq<ReadingView>,
    size: nat,
    i: int,
)
    ensures
        apart(section_notes(sections, readings, size, i)),
    decreases sections.len() - i,
{
    reveal(apart);
    reveal_strlit("high_section_entropy: ");
    reveal_strlit("wx_section: ");
    if 0 <= i < sections.len() {
        lemma_sections_apart(sections, readings, size, i + 1);
        let mine = "wx_section: "@ + section_title(sections[i]);
        assert(mine[0] == 'w');
        lemma_apart_if(is_wx(sections[i].characteristics), mine);
        lemma_apart_joined(
            only_if(is_wx(sections[i].characteristics), mine),
            section_notes(sections, readings, size, i + 1),
        );
        if section_span(sections[i], size) is Some && reading_value(readings, i).units
            > Score::of_ratio(75, 10).units {
            let note = "high_section_entropy: "@ + readings[i].text + " (section "@
                + section_title(sections[i]) + ")"@;
            assert(note[0] == 'h');
        }
    }
}

proof fn lemma_chain_names()
    ensures
        !entryish("suspicious_imports"@),
        !entryish("api_injection_chain"@),
        !entryish("api_ransom_chain"@),
        !entryish("privilege_escalation_chain"@),
        !entryish("dynamic_load_chain"@),
        !entryish("white_black_sideload_injection"@),
        !entryish("threadpool_obfuscation"@),
        !entryish("reflective_loader_chain"@),
        !entryish("driver_security_termination"@),
        !entryish("defender_tampering_chain"@),
        !entryish("uac_bypass_chain"@),
        !entryish("persistence_chain"@),
        !entryish("credential_harvest_chain"@),
        !entryish("hooking_chain:setwindowshookex+keyboard"@),
{
    reveal_strlit("suspicious_imports");
    reveal_strlit("api_injection_chain");
    reveal_strlit("api_ransom_chain");
    reveal_strlit("privilege_escalation_chain");
    reveal_strlit("dynamic_load_chain");
    reveal_strlit("white_black_sideload_injection");
    reveal_strlit("threadpool_obfuscation");
    reveal_strlit("reflective_loader_chain");
    reveal_strlit("driver_security_termination");
    reveal_strlit("defender_tampering_chain");
    reveal_strlit("uac_bypass_chain");
    reveal_strlit("persistence_chain");
    reveal_strlit("credential_harvest_chain");
    reveal_strlit("hooking_chain:setwindowshookex+keyboard");
}

/// The indicators of chains, given which of them are there.
spec fn chain_list(
    c0: bool,
    c1: bool,
    c2: bool,
    c3: bool,
    c4: bool,
    c5: bool,
    c6: bool,
    c7: bool,
    c8: bool,
    c9: bool,
    c10: bool,
    c11: bool,
    c12: bool,
    c13: bool,
) -> Seq<Seq<char>> {
    Seq::<Seq<char>>::empty() + only_if(c0, "suspicious_imports"@)
        + only_if(c1, "api_injection_chain"@)
        + only_if(c2, "api_ransom_chain"@)
        + only_if(c3, "privilege_escalation_chain"@)
        + only_if(c4, "dynamic_load_chain"@)
        + only_if(c5, "white_black_sideload_injection"@)
        + only_if(c6, "threadpool_obfuscation"@)
        + only_if(c7, "reflective_loader_chain"@)
        + only_if(c8, "driver_security_termination"@)
        + only_if(c9, "defender_tampering_chain"@)
        + only_if(c10, "uac_bypass_chain"@)
        + only_if(c11, "persistence_chain"@)
        + only_if(c12, "credential_harvest_chain"@)
        + only_if(c13, "hooking_chain:setwindowshookex+keyboard"@)
}

proof fn lemma_chain_list_apart(
    c0: bool,
    c1: bool,
    c2: bool,
    c3: bool,
    c4: bool,
    c5: bool,
    c6: bool,
    c7: bool,
    c8: bool,
    c9: bool,
    c10: bool,
    c11: bool,
    c12: bool,
    c13: bool,
)
    ensures
        apart(chain_list(c0, c1, c2, c3, c4, c5, c6, c7, c8, c9, c10, c11, c12, c13)),
{
    lemma_chain_names();
    let s0 = Seq::<Seq<char>>::empty();
    assert(apart(s0)) by {
        reveal(apart);
    }
    lemma_apart_if(c0, "suspicious_imports"@);
    let s1 = s0 + only_if(c0, "suspicious_imports"@);
    lemma_apart_joined(s0, only_if(c0, "suspicious_imports"@));
    lemma_apart_if(c1, "api_injection_chain"@);
    let s2 = s1 + only_if(c1, "api_injection_chain"@);
    lemma_apart_joined(s1, only_if(c1, "api_injection_chain"@));
    lemma_apart_if(c2, "api_ransom_chain"@);
    let s3 = s2 + only_if(c2, "api_ransom_chain"@);
    lemma_apart_joined(s2, only_if(c2, "api_ransom_chain"@));
    lemma_apart_if(c3, "privilege_escalation_chain"@);
    let s4 = s3 + only_if(c3, "privilege_escalation_chain"@);
    lemma_apart_joined(s3, only_if(c3, "privilege_escalation_chain"@));
    lemma_apart_if(c4, "dynamic_load_chain"@);
    let s5 = s4 + only_if(c4, "dynamic_load_chain"@);
    lemma_apart_joined(s4, only_if(c4, "dynamic_load_chain"@));
    lemma_apart_if(c5, "white_black_sideload_injection"@);
    let s6 = s5 + only_if(c5, "white_black_sideload_injection"@);
    lemma_apart_joined(s5, only_if(c5, "white_black_sideload_injection"@));
    lemma_apart_if(c6, "threadpool_obfuscation"@);
    let s7 = s6 + only_if(c6, "threadpool_obfuscation"@);
    lemma_apart_joined(s6, only_if(c6, "threadpool_obfuscation"@));
    lemma_apart_if(c7, "reflective_loader_chain"@);
    let s8 = s7 + only_if(c7, "reflective_loader_chain"@);
    lemma_apart_joined(s7, only_if(c7, "reflective_loader_chain"@));
    lemma_apart_if(c8, "driver_security_termination"@);
    let s9 = s8 + only_if(c8, "driver_security_termination"@);
    lemma_apart_joined(s8, only_if(c8, "driver_security_termination"@));
    lemma_apart_if(c9, "defender_tampering_chain"@);
    let s10 = s9 + only_if(c9, "defender_tampering_chain"@);
    lemma_apart_joined(s9, only_if(c9, "defender_tampering_chain"@));
    lemma_apart_if(c10, "uac_bypass_chain"@);
    let s11 = s10 + only_if(c10, "uac_bypass_chain"@);
    lemma_apart_joined(s10, only_if(c10, "uac_bypass_chain"@));
    lemma_apart_if(c11, "persistence_chain"@);
    let s12 = s11 + only_if(c11, "persistence_chain"@);
    lemma_apart_joined(s11, only_if(c11, "persistence_chain"@));
    lemma_apart_if(c12, "credential_harvest_chain"@);
    let s13 = s12 + only_if(c12, "credential_harvest_chain"@);
    lemma_apart_joined(s12, only_if(c12, "credential_harvest_chain"@));
    lemma_apart_if(c13, "hooking_chain:setwindowshookex+keyboard"@);
    let s14 = s13 + only_if(c13, "hooking_chain:setwindowshookex+keyboard"@);
    lemma_apart_joined(s13, only_if(c13, "hooking_chain:setwindowshookex+keyboard"@));
}

proof fn lemma_chains_apart(imports: Seq<Seq<char>>, data: Seq<u8>, libraries: Seq<Seq<char>>)
    ensures
        apart(chain_indicators(imports, data, libraries)),
{
    lemma_chain_list_apart(
        suspicious_imports(imports),
        injection_chain(imports),
        ransom_chain(imports),
        privilege_chain(imports),
        dynamic_load_chain(imports),
        sideload_injection(imports, data, libraries),
        threadpool_obfuscation(imports),
        reflective_loader_chain(imports),
        driver_termination(imports, data),
        defender_tampering(imports, data),
        uac_bypass(imports, data),
        persistence_hits(data) >= 2,
        credential_harvest(imports, data),
        hooking_chain(imports, data),
    );
}

/// Everything that is said of a PE image but for its entry point.
proof fn lemma_pe_apart(
    data: Seq<u8>,
    image: PeLayoutView,
    header: Option<OptionalHeader>,
    readings: ReadingsView,
    now: u64,
) -> (others: Seq<Seq<char>>)
    ensures
        apart(others),
        pe_indicators(data, image, header, readings, now) == others + only_if(
            image.entry != 0 && !entry_covered(image.sections, image.entry),
            "entry_point_anomaly"@,
        ),
{
    let imports = lowered_all(image.imports);
    reveal_strlit("compiler_toolchain_anomaly");
    reveal_strlit("flat_high_entropy_payload");
    reveal_strlit("many_sections: ");
    reveal_strlit("tls_callbacks");
    reveal_strlit("timestamp_anomaly: ");
    reveal_strlit("api_context_combo");
    reveal_strlit("signature:mismatch:certificate_table_truncated");
    reveal_strlit("signature:mismatch:certificate_table_unaligned");
    reveal_strlit("embedded_pe_payload");
    reveal_strlit("encrypted_overlay_payload");
    let many = "many_sections: "@ + decimal(image.sections.len());
    assert(many[0] == 'm');
    let stamped = "timestamp_anomaly: "@ + decimal(image.timestamp as nat);
    assert(stamped[0] == 't');
    let p0 = only_if(
        anomaly_score(
            linker_text(header),
            pdb_path_of(data),
            image.timestamp,
            now,
        ).units >= Score::of_hundredths(25).units,
        "compiler_toolchain_anomaly"@,
    );
    let p1 = only_if(
        readings.profile.units >= Score::of_hundredths(55).units,
        "flat_high_entropy_payload"@,
    );
    let p2 = only_if(image.sections.len() > 10, many);
    let p3 = section_notes(image.sections, readings.sections, data.len(), 0);
    let p4 = header_notes(header, image.timestamp, now);
    let p5 = only_if(
        combination_score(imports).units >= Score::of_hundredths(20).units,
        "api_context_combo"@,
    );
    let p6 = chain_indicators(imports, data, image.libraries);
    let p7 = certificate_notes(header, data.len());
    let p8 = only_if(embedded_image(data), "embedded_pe_payload"@);
    let p9 = only_if(
        overlay_span(image.sections, data.len()) is Some && readings.overlay.units
            >= Score::of_ratio(735, 100).units,
        "encrypted_overlay_payload"@,
    );
    assert(apart(p0) && apart(p1) && apart(p2) && apart(p5) && apart(p8) && apart(p9)) by {
        reveal(apart);
    }
    lemma_sections_apart(image.sections, readings.sections, data.len(), 0);
    lemma_chains_apart(imports, data, image.libraries);
    assert(apart(p4) && apart(p7)) by {
        reveal(apart);
    }
    lemma_apart_joined(p0, p1);
    lemma_apart_joined(p0 + p1, p2);
    lemma_apart_joined(p0 + p1 + p2, p3);
    lemma_apart_joined(p0 + p1 + p2 + p3, p4);
    lemma_apart_joined(p0 + p1 + p2 + p3 + p4, p5);
    lemma_apart_joined(p0 + p1 + p2 + p3 + p4 + p5, p6);
    lemma_apart_joined(p0 + p1 + p2 + p3 + p4 + p5 + p6, p7);
    lemma_apart_joined(p0 + p1 + p2 + p3 + p4 + p5 + p6 + p7, p8);
    lemma_apart_joined(p0 + p1 + p2 + p3 + p4 + p5 + p6 + p7 + p8, p9);
    p0 + p1 + p2 + p3 + p4 + p5 + p6 + p7 + p8 + p9
}

/// What is said of a buffer holds the indicator of an entry point where its format's own
/// indicators do.
proof fn lemma_explained_entry(raw: Seq<Seq<char>>, own: Seq<Seq<char>>)
    requires
        apart(raw),
    ensures
        explained(raw + own).contains("entry_point_anomaly"@) == own.contains(
            "entry_point_anomaly"@,
        ),
{
    let mark = "entry_point_anomaly"@;
    reveal(apart);
    reveal_strlit("entry_point_anomaly");
    assert(entryish(mark));
    let indicators = raw + own;
    let hits = static_hits(static_rules(), lowered_all(indicators));
    lemma_descriptions_apart();
    lemma_hits_apart(static_rules(), lowered_all(indicators));
    lemma_merged_holds(indicators, descriptions_of(hits), mark);
    lemma_holds_joined(raw, own, mark);
}

/// The section covers the entry point and may be executed.
pub open spec fn runs_at(section: SectionView, entry: u64) -> bool {
    &&& section.address <= entry
    &&& entry < section.address + section.virtual_size
    &&& section.characteristics & 0x2000_0000u32 != 0
}

/// An entry point of a PE image is an anomaly where it is not zero and no section covers it
/// that may be executed; otherwise it is none.
pub proof fn law_pe_entry_point_is_judged(
    data: Seq<u8>,
    image: PeLayoutView,
    readings: ReadingsView,
    now: u64,
)
    requires
        format_of(data) == Ok::<ObjectFormat, Seq<char>>(ObjectFormat::Pe),
        pe_of(data) == Some(image),
    ensures
        analysis_of(data, format_of(data), readings, now) is Ok,
        analysis_of(data, format_of(data), readings, now)->Ok_0.1.contains(
            "entry_point_anomaly"@,
        ) <==> image.entry != 0 && forall|i: int|
            0 <= i < image.sections.len() ==> !runs_at(#[trigger] image.sections[i], image.entry),
{
    let own = pe_indicators(data, image, parsed_optional_header(data), readings, now);
    let raw = raw_indicators(data);
    let mark = "entry_point_anomaly"@;
    let others = lemma_pe_apart(data, image, parsed_optional_header(data), readings, now);
    let odd = image.entry != 0 && !entry_covered(image.sections, image.entry);
    lemma_raw_apart(data);
    lemma_explained_entry(raw, own);
    reveal(apart);
    reveal_strlit("entry_point_anomaly");
    assert(entryish(mark));
    lemma_holds_joined(others, only_if(odd, mark), mark);
    lemma_holds_if(odd, mark);
    lemma_covered(image.sections, image.entry);
}

proof fn lemma_covered(sections: Seq<SectionView>, entry: u64)
    ensures
        entry_covered(sections, entry) <==> !(forall|i: int|
            0 <= i < sections.len() ==> !runs_at(#[trigger] sections[i], entry)),
{
    if entry_covered(sections, entry) {
        let i = choose|i: int|
            0 <= i < sections.len() && (#[trigger] sections[i]).address <= entry
                < sections[i].address + sections[i].virtual_size && sections[i].characteristics
                & 0x2000_0000u32 != 0;
        assert(runs_at(sections[i], entry));
    } else {
        assert forall|i: int| 0 <= i < sections.len() implies !runs_at(
            #[trigger] sections[i],
            entry,
        ) by {}
    }
}

/// The segment is loaded, covers the entry point and may be executed.
pub open spec fn segment_runs_at(segment: SegmentFacts, entry: u64) -> bool {
    &&& segment.kind == 1
    &&& segment.address <= entry
    &&& entry < segment.address + segment.memory_size
    &&& segment.address + segment.memory_size <= 0xffff_ffff_ffff_ffff
    &&& segment.flags & 1u32 != 0
}

proof fn lemma_segments_apart(segments: Seq<SegmentFacts>, i: int)
    ensures
        apart(segment_notes(segments, i)),
    decreases segments.len() - i,
{
    reveal(apart);
    reveal_strlit("unsafe_segment_flags: phdr ");
    if 0 <= i < segments.len() {
        lemma_segments_apart(segments, i + 1);
        let note = "unsafe_segment_flags: phdr "@ + decimal(segments[i].kind as nat);
        assert(note[0] == 'u');
    }
}

/// An entry point of an ELF image is an anomaly where no loaded segment covers it that may be
/// executed; otherwise it is none.
pub proof fn law_elf_entry_point_is_judged(
    data: Seq<u8>,
    image: ElfLayoutView,
    readings: ReadingsView,
    now: u64,
)
    requires
        format_of(data) == Ok::<ObjectFormat, Seq<char>>(ObjectFormat::Elf),
        parsed_elf(data) == Some(image),
    ensures
        analysis_of(data, format_of(data), readings, now) is Ok,
        analysis_of(data, format_of(data), readings, now)->Ok_0.1.contains(
            "entry_point_anomaly"@,
        ) <==> forall|i: int|
            0 <= i < image.segments.len() ==> !segment_runs_at(
                #[trigger] image.segments[i],
                image.entry,
            ),
{
    let mark = "entry_point_anomaly"@;
    let own = elf_indicators(image);
    let raw = raw_indicators(data);
    let odd = !entry_loaded(image.segments, image.entry);
    let notes = segment_notes(image.segments, 0);
    let many = "many_deps: "@ + decimal(image.library_count as nat);
    lemma_raw_apart(data);
    lemma_explained_entry(raw, own);
    lemma_segments_apart(image.segments, 0);
    reveal(apart);
    reveal_strlit("entry_point_anomaly");
    reveal_strlit("many_deps: ");
    assert(entryish(mark));
    assert(many[0] == 'm');
    let deps = only_if(image.library_count > 5, many);
    lemma_holds_joined(notes, only_if(odd, mark), mark);
    lemma_holds_joined(notes + only_if(odd, mark), deps, mark);
    lemma_holds_if(odd, mark);
    let bare = forall|i: int|
        0 <= i < image.segments.len() ==> !segment_runs_at(
            #[trigger] image.segments[i],
            image.entry,
        );
    if entry_loaded(image.segments, image.entry) {
        let i = choose|i: int|
            0 <= i < image.segments.len() && (#[trigger] image.segments[i]).kind == 1
                && image.segments[i].address <= image.entry < image.segments[i].address
                + image.segments[i].memory_size && image.segments[i].address
                + image.segments[i].memory_size <= u64::MAX && image.segments[i].flags & 1 != 0;
        assert(segment_runs_at(image.segments[i], image.entry));
        assert(!bare);
    } else if !bare {
        let i = choose|i: int|
            0 <= i < image.segments.len() && segment_runs_at(
                #[trigger] image.segments[i],
                image.entry,
            );
        assert(entry_loaded(image.segments, image.entry));
    }
}

} // verus!
