//! Which rules signals and events must fire.

use crate::heuristic::chain_laws::names;
use crate::heuristic::rulebook::{
    dynamic_hits, dynamic_match, dynamic_rules, static_hits, static_match, static_rules, RuleView,
};
use crate::text::contains_text;
use crate::text_laws::law_more_text_hides_nothing;
use vstd::prelude::*;

verus! {

/// A rule of that name is among those that fired.
pub open spec fn fired(hits: Seq<RuleView>, id: Seq<char>) -> bool {
    exists|i: int| 0 <= i < hits.len() && (#[trigger] hits[i]).id == id
}

/// A rule of that name fires on the signals.
pub open spec fn signals_fire(s: Seq<Seq<char>>, id: Seq<char>) -> bool {
    fired(static_hits(static_rules(), s), id)
}

/// A rule of that name fires on what was observed.
pub open spec fn events_fire(j: Seq<char>, id: Seq<char>) -> bool {
    fired(dynamic_hits(dynamic_rules(), j), id)
}

proof fn lemma_static_fires(rules: Seq<RuleView>, id: Seq<char>, s: Seq<Seq<char>>)
    ensures
        fired(static_hits(rules, s), id) <==> fired(rules, id) && static_match(id, s),
    decreases rules.len(),
{
    let hits = static_hits(rules, s);
    if rules.len() > 0 {
        let front = rules.drop_last();
        let before = static_hits(front, s);
        lemma_static_fires(front, id, s);
        lemma_fired_push(front, rules.last(), id);
        lemma_fired_push(before, rules.last(), id);
        assert(front.push(rules.last()) =~= rules);
    }
}

proof fn lemma_dynamic_fires(rules: Seq<RuleView>, id: Seq<char>, j: Seq<char>)
    ensures
        fired(dynamic_hits(rules, j), id) <==> fired(rules, id) && dynamic_match(id, j),
    decreases rules.len(),
{
    let hits = dynamic_hits(rules, j);
    if rules.len() > 0 {
        let front = rules.drop_last();
        let before = dynamic_hits(front, j);
        lemma_dynamic_fires(front, id, j);
        lemma_fired_push(front, rules.last(), id);
        lemma_fired_push(before, rules.last(), id);
        assert(front.push(rules.last()) =~= rules);
    }
}

proof fn lemma_fired_push(hits: Seq<RuleView>, r: RuleView, id: Seq<char>)
    ensures
        fired(hits.push(r), id) <==> fired(hits, id) || r.id == id,
{
    let more = hits.push(r);
    if fired(hits, id) {
        let i = choose|i: int| 0 <= i < hits.len() && (#[trigger] hits[i]).id == id;
        assert(more[i].id == id);
    }
    if r.id == id {
        assert(more[hits.len() as int].id == id);
    }
    if fired(more, id) {
        let i = choose|i: int| 0 <= i < more.len() && (#[trigger] more[i]).id == id;
        if i < hits.len() {
            assert(hits[i].id == id);
        }
    }
}

/// What tells the names of the rules apart.
spec fn mark(id: Seq<char>) -> (nat, char, char) {
    (id.len(), id[0], id[1])
}

proof fn lemma_marks_first()
    ensures
        mark("many_sections"@) == (13nat, 'm', 'a'),
        mark("high_section_entropy"@) == (20nat, 'h', 'i'),
        mark("flat_high_entropy_payload"@) == (25nat, 'f', 'l'),
        mark("packer_detected"@) == (15nat, 'p', 'a'),
        mark("obfuscated_command_strings"@) == (26nat, 'o', 'b'),
        mark("unpacking_decoded_embedded_pe"@) == (29nat, 'u', 'n'),
        mark("wx_section"@) == (10nat, 'w', 'x'),
        mark("tls_callbacks"@) == (13nat, 't', 'l'),
        mark("suspicious_imports"@) == (18nat, 's', 'u'),
        mark("timestamp_anomaly"@) == (17nat, 't', 'i'),
        mark("entry_point_anomaly"@) == (19nat, 'e', 'n'),
        mark("unsafe_segment_flags"@) == (20nat, 'u', 'n'),
{
    reveal_strlit("many_sections");
    reveal_strlit("high_section_entropy");
    reveal_strlit("flat_high_entropy_payload");
    reveal_strlit("packer_detected");
    reveal_strlit("obfuscated_command_strings");
    reveal_strlit("unpacking_decoded_embedded_pe");
    reveal_strlit("wx_section");
    reveal_strlit("tls_callbacks");
    reveal_strlit("suspicious_imports");
    reveal_strlit("timestamp_anomaly");
    reveal_strlit("entry_point_anomaly");
    reveal_strlit("unsafe_segment_flags");
}

proof fn lemma_marks_middle()
    ensures
        mark("many_deps"@) == (9nat, 'm', 'a'),
        mark("api_injection_chain"@) == (19nat, 'a', 'p'),
        mark("api_context_combo"@) == (17nat, 'a', 'p'),
        mark("compiler_toolchain_anomaly"@) == (26nat, 'c', 'o'),
        mark("api_ransom_chain"@) == (16nat, 'a', 'p'),
        mark("privilege_escalation_chain"@) == (26nat, 'p', 'r'),
        mark("hooking_chain"@) == (13nat, 'h', 'o'),
        mark("dynamic_load_chain"@) == (18nat, 'd', 'y'),
        mark("white_black_sideload_injection"@) == (30nat, 'w', 'h'),
        mark("embedded_payload"@) == (16nat, 'e', 'm'),
        mark("authenticode_anomaly"@) == (20nat, 'a', 'u'),
        mark("threadpool_obfuscation"@) == (22nat, 't', 'h'),
{
    reveal_strlit("many_deps");
    reveal_strlit("api_injection_chain");
    reveal_strlit("api_context_combo");
    reveal_strlit("compiler_toolchain_anomaly");
    reveal_strlit("api_ransom_chain");
    reveal_strlit("privilege_escalation_chain");
    reveal_strlit("hooking_chain");
    reveal_strlit("dynamic_load_chain");
    reveal_strlit("white_black_sideload_injection");
    reveal_strlit("embedded_payload");
    reveal_strlit("authenticode_anomaly");
    reveal_strlit("threadpool_obfuscation");
}

proof fn lemma_marks_last()
    ensures
        mark("reflective_loader_chain"@) == (23nat, 'r', 'e'),
        mark("driver_security_termination"@) == (27nat, 'd', 'r'),
        mark("defender_tampering_chain"@) == (24nat, 'd', 'e'),
        mark("uac_bypass_chain"@) == (16nat, 'u', 'a'),
        mark("persistence_chain"@) == (17nat, 'p', 'e'),
        mark("credential_harvest_chain"@) == (24nat, 'c', 'r'),
        mark("embedded_pe_payload"@) == (19nat, 'e', 'm'),
        mark("encrypted_overlay_payload"@) == (25nat, 'e', 'n'),
        mark("rtlo_filename_spoofing"@) == (22nat, 'r', 't'),
{
    reveal_strlit("reflective_loader_chain");
    reveal_strlit("driver_security_termination");
    reveal_strlit("defender_tampering_chain");
    reveal_strlit("uac_bypass_chain");
    reveal_strlit("persistence_chain");
    reveal_strlit("credential_harvest_chain");
    reveal_strlit("embedded_pe_payload");
    reveal_strlit("encrypted_overlay_payload");
    reveal_strlit("rtlo_filename_spoofing");
}

proof fn lemma_static_there(k: int)
    requires
        0 <= k < static_rules().len(),
    ensures
        fired(static_rules(), static_rules()[k].id),
{
}

proof fn lemma_rule_many_sections(s: Seq<Seq<char>>)
    ensures
        signals_fire(s, "many_sections"@) <==> names(s, "many_sections"@),
{
    reveal(names);
    lemma_marks_first();
    lemma_marks_middle();
    lemma_marks_last();
    lemma_static_fires(static_rules(), "many_sections"@, s);
    assert(static_rules()[0].id == "many_sections"@);
    lemma_static_there(0);
}

proof fn lemma_rule_high_section_entropy(s: Seq<Seq<char>>)
    ensures
        signals_fire(s, "high_section_entropy"@) <==> names(s, "high_section_entropy"@),
{
    reveal(names);
    lemma_marks_first();
    lemma_marks_middle();
    lemma_marks_last();
    lemma_static_fires(static_rules(), "high_section_entropy"@, s);
    assert(static_rules()[1].id == "high_section_entropy"@);
    lemma_static_there(1);
}

proof fn lemma_rule_flat_high_entropy_payload(s: Seq<Seq<char>>)
    ensures
        signals_fire(s, "flat_high_entropy_payload"@) <==> names(s, "flat_high_entropy_payload"@),
{
    reveal(names);
    lemma_marks_first();
    lemma_marks_middle();
    lemma_marks_last();
    lemma_static_fires(static_rules(), "flat_high_entropy_payload"@, s);
    assert(static_rules()[2].id == "flat_high_entropy_payload"@);
    lemma_static_there(2);
}

proof fn lemma_rule_unpacking_decoded_embedded_pe(s: Seq<Seq<char>>)
    ensures
        signals_fire(s, "unpacking_decoded_embedded_pe"@) <==> names(s, "unpacking_decoded_embedded_pe"@),
{
    reveal(names);
    lemma_marks_first();
    lemma_marks_middle();
    lemma_marks_last();
    lemma_static_fires(static_rules(), "unpacking_decoded_embedded_pe"@, s);
    assert(static_rules()[5].id == "unpacking_decoded_embedded_pe"@);
    lemma_static_there(5);
}

proof fn lemma_rule_suspicious_imports(s: Seq<Seq<char>>)
    ensures
        signals_fire(s, "suspicious_imports"@) <==> names(s, "suspicious_imports"@),
{
    reveal(names);
    lemma_marks_first();
    lemma_marks_middle();
    lemma_marks_last();
    lemma_static_fires(static_rules(), "suspicious_imports"@, s);
    assert(static_rules()[8].id == "suspicious_imports"@);
    lemma_static_there(8);
}

proof fn lemma_rule_timestamp_anomaly(s: Seq<Seq<char>>)
    ensures
        signals_fire(s, "timestamp_anomaly"@) <==> names(s, "timestamp_anomaly"@),
{
    reveal(names);
    lemma_marks_first();
    lemma_marks_middle();
    lemma_marks_last();
    lemma_static_fires(static_rules(), "timestamp_anomaly"@, s);
    assert(static_rules()[9].id == "timestamp_anomaly"@);
    lemma_static_there(9);
}

proof fn lemma_rule_entry_point_anomaly(s: Seq<Seq<char>>)
    ensures
        signals_fire(s, "entry_point_anomaly"@) <==> names(s, "entry_point_anomaly"@),
{
    reveal(names);
    lemma_marks_first();
    lemma_marks_middle();
    lemma_marks_last();
    lemma_static_fires(static_rules(), "entry_point_anomaly"@, s);
    assert(static_rules()[10].id == "entry_point_anomaly"@);
    lemma_static_there(10);
}

proof fn lemma_rule_unsafe_segment_flags(s: Seq<Seq<char>>)
    ensures
        signals_fire(s, "unsafe_segment_flags"@) <==> names(s, "unsafe_segment_flags"@),
{
    reveal(names);
    lemma_marks_first();
    lemma_marks_middle();
    lemma_marks_last();
    lemma_static_fires(static_rules(), "unsafe_segment_flags"@, s);
    assert(static_rules()[11].id == "unsafe_segment_flags"@);
    lemma_static_there(11);
}

proof fn lemma_rule_many_deps(s: Seq<Seq<char>>)
    ensures
        signals_fire(s, "many_deps"@) <==> names(s, "many_deps"@),
{
    reveal(names);
    lemma_marks_first();
    lemma_marks_middle();
    lemma_marks_last();
    lemma_static_fires(static_rules(), "many_deps"@, s);
    assert(static_rules()[12].id == "many_deps"@);
    lemma_static_there(12);
}

proof fn lemma_rule_api_context_combo(s: Seq<Seq<char>>)
    ensures
        signals_fire(s, "api_context_combo"@) <==> names(s, "api_context_combo"@),
{
    reveal(names);
    lemma_marks_first();
    lemma_marks_middle();
    lemma_marks_last();
    lemma_static_fires(static_rules(), "api_context_combo"@, s);
    assert(static_rules()[14].id == "api_context_combo"@);
    lemma_static_there(14);
}

proof fn lemma_rule_compiler_toolchain_anomaly(s: Seq<Seq<char>>)
    ensures
        signals_fire(s, "compiler_toolchain_anomaly"@) <==> names(s, "compiler_toolchain_anomaly"@),
{
    reveal(names);
    lemma_marks_first();
    lemma_marks_middle();
    lemma_marks_last();
    lemma_static_fires(static_rules(), "compiler_toolchain_anomaly"@, s);
    assert(static_rules()[15].id == "compiler_toolchain_anomaly"@);
    lemma_static_there(15);
}

proof fn lemma_rule_white_black_sideload_injection(s: Seq<Seq<char>>)
    ensures
        signals_fire(s, "white_black_sideload_injection"@) <==> names(s, "white_black_sideload_injection"@),
{
    reveal(names);
    lemma_marks_first();
    lemma_marks_middle();
    lemma_marks_last();
    lemma_static_fires(static_rules(), "white_black_sideload_injection"@, s);
    assert(static_rules()[20].id == "white_black_sideload_injection"@);
    lemma_static_there(20);
}

proof fn lemma_rule_threadpool_obfuscation(s: Seq<Seq<char>>)
    ensures
        signals_fire(s, "threadpool_obfuscation"@) <==> names(s, "threadpool_obfuscation"@),
{
    reveal(names);
    lemma_marks_first();
    lemma_marks_middle();
    lemma_marks_last();
    lemma_static_fires(static_rules(), "threadpool_obfuscation"@, s);
    assert(static_rules()[23].id == "threadpool_obfuscation"@);
    lemma_static_there(23);
}

proof fn lemma_rule_reflective_loader_chain(s: Seq<Seq<char>>)
    ensures
        signals_fire(s, "reflective_loader_chain"@) <==> names(s, "reflective_loader_chain"@),
{
    reveal(names);
    lemma_marks_first();
    lemma_marks_middle();
    lemma_marks_last();
    lemma_static_fires(static_rules(), "reflective_loader_chain"@, s);
    assert(static_rules()[24].id == "reflective_loader_chain"@);
    lemma_static_there(24);
}

proof fn lemma_rule_driver_security_termination(s: Seq<Seq<char>>)
    ensures
        signals_fire(s, "driver_security_termination"@) <==> names(s, "driver_security_termination"@),
{
    reveal(names);
    lemma_marks_first();
    lemma_marks_middle();
    lemma_marks_last();
    lemma_static_fires(static_rules(), "driver_security_termination"@, s);
    assert(static_rules()[25].id == "driver_security_termination"@);
    lemma_static_there(25);
}

proof fn lemma_rule_defender_tampering_chain(s: Seq<Seq<char>>)
    ensures
        signals_fire(s, "defender_tampering_chain"@) <==> names(s, "defender_tampering_chain"@),
{
    reveal(names);
    lemma_marks_first();
    lemma_marks_middle();
    lemma_marks_last();
    lemma_static_fires(static_rules(), "defender_tampering_chain"@, s);
    assert(static_rules()[26].id == "defender_tampering_chain"@);
    lemma_static_there(26);
}

proof fn lemma_rule_uac_bypass_chain(s: Seq<Seq<char>>)
    ensures
        signals_fire(s, "uac_bypass_chain"@) <==> names(s, "uac_bypass_chain"@),
{
    reveal(names);
    lemma_marks_first();
    lemma_marks_middle();
    lemma_marks_last();
    lemma_static_fires(static_rules(), "uac_bypass_chain"@, s);
    assert(static_rules()[27].id == "uac_bypass_chain"@);
    lemma_static_there(27);
}

proof fn lemma_rule_persistence_chain(s: Seq<Seq<char>>)
    ensures
        signals_fire(s, "persistence_chain"@) <==> names(s, "persistence_chain"@),
{
    reveal(names);
    lemma_marks_first();
    lemma_marks_middle();
    lemma_marks_last();
    lemma_static_fires(static_rules(), "persistence_chain"@, s);
    assert(static_rules()[28].id == "persistence_chain"@);
    lemma_static_there(28);
}

proof fn lemma_rule_credential_harvest_chain(s: Seq<Seq<char>>)
    ensures
        signals_fire(s, "credential_harvest_chain"@) <==> names(s, "credential_harvest_chain"@),
{
    reveal(names);
    lemma_marks_first();
    lemma_marks_middle();
    lemma_marks_last();
    lemma_static_fires(static_rules(), "credential_harvest_chain"@, s);
    assert(static_rules()[29].id == "credential_harvest_chain"@);
    lemma_static_there(29);
}

proof fn lemma_rule_embedded_pe_payload(s: Seq<Seq<char>>)
    ensures
        signals_fire(s, "embedded_pe_payload"@) <==> names(s, "embedded_pe_payload"@),
{
    reveal(names);
    lemma_marks_first();
    lemma_marks_middle();
    lemma_marks_last();
    lemma_static_fires(static_rules(), "embedded_pe_payload"@, s);
    assert(static_rules()[30].id == "embedded_pe_payload"@);
    lemma_static_there(30);
}

proof fn lemma_rule_encrypted_overlay_payload(s: Seq<Seq<char>>)
    ensures
        signals_fire(s, "encrypted_overlay_payload"@) <==> names(s, "encrypted_overlay_payload"@),
{
    reveal(names);
    lemma_marks_first();
    lemma_marks_middle();
    lemma_marks_last();
    lemma_static_fires(static_rules(), "encrypted_overlay_payload"@, s);
    assert(static_rules()[31].id == "encrypted_overlay_payload"@);
    lemma_static_there(31);
}

proof fn lemma_rule_rtlo_filename_spoofing(s: Seq<Seq<char>>)
    ensures
        signals_fire(s, "rtlo_filename_spoofing"@) <==> names(s, "rtlo_filename_spoofing"@),
{
    reveal(names);
    lemma_marks_first();
    lemma_marks_middle();
    lemma_marks_last();
    lemma_static_fires(static_rules(), "rtlo_filename_spoofing"@, s);
    assert(static_rules()[32].id == "rtlo_filename_spoofing"@);
    lemma_static_there(32);
}

/// A signal that names one of these findings fires the rule of that name, and nothing else
/// does.
pub proof fn law_named_findings_fire_their_rules(s: Seq<Seq<char>>)
    ensures
        signals_fire(s, "many_sections"@) <==> names(s, "many_sections"@),
        signals_fire(s, "high_section_entropy"@) <==> names(s, "high_section_entropy"@),
        signals_fire(s, "flat_high_entropy_payload"@) <==> names(s, "flat_high_entropy_payload"@),
        signals_fire(s, "unpacking_decoded_embedded_pe"@) <==> names(s, "unpacking_decoded_embedded_pe"@),
        signals_fire(s, "suspicious_imports"@) <==> names(s, "suspicious_imports"@),
        signals_fire(s, "timestamp_anomaly"@) <==> names(s, "timestamp_anomaly"@),
        signals_fire(s, "entry_point_anomaly"@) <==> names(s, "entry_point_anomaly"@),
        signals_fire(s, "unsafe_segment_flags"@) <==> names(s, "unsafe_segment_flags"@),
        signals_fire(s, "many_deps"@) <==> names(s, "many_deps"@),
        signals_fire(s, "api_context_combo"@) <==> names(s, "api_context_combo"@),
        signals_fire(s, "compiler_toolchain_anomaly"@) <==> names(s, "compiler_toolchain_anomaly"@),
        signals_fire(s, "white_black_sideload_injection"@) <==> names(s, "white_black_sideload_injection"@),
        signals_fire(s, "threadpool_obfuscation"@) <==> names(s, "threadpool_obfuscation"@),
        signals_fire(s, "reflective_loader_chain"@) <==> names(s, "reflective_loader_chain"@),
        signals_fire(s, "driver_security_termination"@) <==> names(s, "driver_security_termination"@),
        signals_fire(s, "defender_tampering_chain"@) <==> names(s, "defender_tampering_chain"@),
        signals_fire(s, "uac_bypass_chain"@) <==> names(s, "uac_bypass_chain"@),
        signals_fire(s, "persistence_chain"@) <==> names(s, "persistence_chain"@),
        signals_fire(s, "credential_harvest_chain"@) <==> names(s, "credential_harvest_chain"@),
        signals_fire(s, "embedded_pe_payload"@) <==> names(s, "embedded_pe_payload"@),
        signals_fire(s, "encrypted_overlay_payload"@) <==> names(s, "encrypted_overlay_payload"@),
        signals_fire(s, "rtlo_filename_spoofing"@) <==> names(s, "rtlo_filename_spoofing"@),
{
    lemma_rule_many_sections(s);
    lemma_rule_high_section_entropy(s);
    lemma_rule_flat_high_entropy_payload(s);
    lemma_rule_unpacking_decoded_embedded_pe(s);
    lemma_rule_suspicious_imports(s);
    lemma_rule_timestamp_anomaly(s);
    lemma_rule_entry_point_anomaly(s);
    lemma_rule_unsafe_segment_flags(s);
    lemma_rule_many_deps(s);
    lemma_rule_api_context_combo(s);
    lemma_rule_compiler_toolchain_anomaly(s);
    lemma_rule_white_black_sideload_injection(s);
    lemma_rule_threadpool_obfuscation(s);
    lemma_rule_reflective_loader_chain(s);
    lemma_rule_driver_security_termination(s);
    lemma_rule_defender_tampering_chain(s);
    lemma_rule_uac_bypass_chain(s);
    lemma_rule_persistence_chain(s);
    lemma_rule_credential_harvest_chain(s);
    lemma_rule_embedded_pe_payload(s);
    lemma_rule_encrypted_overlay_payload(s);
    lemma_rule_rtlo_filename_spoofing(s);
}

proof fn lemma_rule_packer_detected(s: Seq<Seq<char>>)
    ensures
        signals_fire(s, "packer_detected"@) <==> names(s, "packer_detected:"@),
{
    reveal(names);
    lemma_marks_first();
    lemma_marks_middle();
    lemma_marks_last();
    lemma_static_fires(static_rules(), "packer_detected"@, s);
    assert(static_rules()[3].id == "packer_detected"@);
    lemma_static_there(3);
}

proof fn lemma_rule_obfuscated_command_strings(s: Seq<Seq<char>>)
    ensures
        signals_fire(s, "obfuscated_command_strings"@) <==> names(s, "obfuscated_command_or_url"@),
{
    reveal(names);
    lemma_marks_first();
    lemma_marks_middle();
    lemma_marks_last();
    lemma_static_fires(static_rules(), "obfuscated_command_strings"@, s);
    assert(static_rules()[4].id == "obfuscated_command_strings"@);
    lemma_static_there(4);
}

proof fn lemma_rule_wx_section(s: Seq<Seq<char>>)
    ensures
        signals_fire(s, "wx_section"@) <==> names(s, "wx_section"@) || names(s, "write_execute"@) || names(s, "w^x"@),
{
    reveal(names);
    lemma_marks_first();
    lemma_marks_middle();
    lemma_marks_last();
    lemma_static_fires(static_rules(), "wx_section"@, s);
    assert(static_rules()[6].id == "wx_section"@);
    lemma_static_there(6);
}

proof fn lemma_rule_api_injection_chain(s: Seq<Seq<char>>)
    ensures
        signals_fire(s, "api_injection_chain"@) <==> names(s, "virtualalloc"@) && names(s, "writeprocessmemory"@) && names(
            s,
            "createremotethread"@,
        ),
{
    reveal(names);
    lemma_marks_first();
    lemma_marks_middle();
    lemma_marks_last();
    lemma_static_fires(static_rules(), "api_injection_chain"@, s);
    assert(static_rules()[13].id == "api_injection_chain"@);
    lemma_static_there(13);
}

proof fn lemma_rule_api_ransom_chain(s: Seq<Seq<char>>)
    ensures
        signals_fire(s, "api_ransom_chain"@) <==> names(s, "cryptacquirecontext"@) && names(s, "cryptencrypt"@) && (names(
            s,
            "deletefile"@,
        ) || names(s, "movefile"@)),
{
    reveal(names);
    lemma_marks_first();
    lemma_marks_middle();
    lemma_marks_last();
    lemma_static_fires(static_rules(), "api_ransom_chain"@, s);
    assert(static_rules()[16].id == "api_ransom_chain"@);
    lemma_static_there(16);
}

proof fn lemma_rule_privilege_escalation_chain(s: Seq<Seq<char>>)
    ensures
        signals_fire(s, "privilege_escalation_chain"@) <==> names(s, "openprocesstoken"@) && names(
            s,
            "adjusttokenprivileges"@,
        ) && names(s, "openprocess"@),
{
    reveal(names);
    lemma_marks_first();
    lemma_marks_middle();
    lemma_marks_last();
    lemma_static_fires(static_rules(), "privilege_escalation_chain"@, s);
    assert(static_rules()[17].id == "privilege_escalation_chain"@);
    lemma_static_there(17);
}

proof fn lemma_rule_hooking_chain(s: Seq<Seq<char>>)
    ensures
        signals_fire(s, "hooking_chain"@) <==> names(s, "setwindowshookex"@) && (names(s, "getasynckeystate"@) || names(
            s,
            "keyboard"@,
        )),
{
    reveal(names);
    lemma_marks_first();
    lemma_marks_middle();
    lemma_marks_last();
    lemma_static_fires(static_rules(), "hooking_chain"@, s);
    assert(static_rules()[18].id == "hooking_chain"@);
    lemma_static_there(18);
}

proof fn lemma_rule_dynamic_load_chain(s: Seq<Seq<char>>)
    ensures
        signals_fire(s, "dynamic_load_chain"@) <==> names(s, "getprocaddress"@) && names(s, "loadlibrary"@),
{
    reveal(names);
    lemma_marks_first();
    lemma_marks_middle();
    lemma_marks_last();
    lemma_static_fires(static_rules(), "dynamic_load_chain"@, s);
    assert(static_rules()[19].id == "dynamic_load_chain"@);
    lemma_static_there(19);
}

/// Packers, hidden commands and writable code fire their rules by the signs they have in
/// signals, and chains of functions fire theirs where the signals name every link.
pub proof fn law_signs_and_chains_fire_their_rules(s: Seq<Seq<char>>)
    ensures
        signals_fire(s, "packer_detected"@) <==> names(s, "packer_detected:"@),
        signals_fire(s, "obfuscated_command_strings"@) <==> names(s, "obfuscated_command_or_url"@),
        signals_fire(s, "wx_section"@) <==> names(s, "wx_section"@) || names(s, "write_execute"@) || names(s, "w^x"@),
        signals_fire(s, "api_injection_chain"@) <==> names(s, "virtualalloc"@) && names(s, "writeprocessmemory"@) && names(
            s,
            "createremotethread"@,
        ),
        signals_fire(s, "api_ransom_chain"@) <==> names(s, "cryptacquirecontext"@) && names(s, "cryptencrypt"@) && (names(
            s,
            "deletefile"@,
        ) || names(s, "movefile"@)),
        signals_fire(s, "privilege_escalation_chain"@) <==> names(s, "openprocesstoken"@) && names(
            s,
            "adjusttokenprivileges"@,
        ) && names(s, "openprocess"@),
        signals_fire(s, "hooking_chain"@) <==> names(s, "setwindowshookex"@) && (names(s, "getasynckeystate"@) || names(
            s,
            "keyboard"@,
        )),
        signals_fire(s, "dynamic_load_chain"@) <==> names(s, "getprocaddress"@) && names(s, "loadlibrary"@),
{
    lemma_rule_packer_detected(s);
    lemma_rule_obfuscated_command_strings(s);
    lemma_rule_wx_section(s);
    lemma_rule_api_injection_chain(s);
    lemma_rule_api_ransom_chain(s);
    lemma_rule_privilege_escalation_chain(s);
    lemma_rule_hooking_chain(s);
    lemma_rule_dynamic_load_chain(s);
}

proof fn lemma_event_rules()
    ensures
        dynamic_rules()[0].id == "api_injection_chain"@ && "api_injection_chain"@.len() == 19,
        dynamic_rules()[1].id == "api_ransom_chain"@ && "api_ransom_chain"@.len() == 16,
        dynamic_rules()[2].id == "privilege_escalation_chain"@ && "privilege_escalation_chain"@.len() == 26,
        dynamic_rules()[3].id == "hooking_chain"@ && "hooking_chain"@.len() == 13,
        dynamic_rules()[4].id == "dynamic_load_chain"@ && "dynamic_load_chain"@.len() == 18,
        dynamic_rules()[5].id == "threadpool_obfuscation"@ && "threadpool_obfuscation"@.len() == 22,
        dynamic_rules()[6].id == "driver_security_termination"@ && "driver_security_termination"@.len() == 27,
        dynamic_rules()[7].id == "defender_tampering_chain"@ && "defender_tampering_chain"@.len() == 24,
        dynamic_rules()[8].id == "persistence_chain"@ && "persistence_chain"@.len() == 17,
        dynamic_rules().len() == 9,
{
    reveal_strlit("api_injection_chain");
    reveal_strlit("api_ransom_chain");
    reveal_strlit("privilege_escalation_chain");
    reveal_strlit("hooking_chain");
    reveal_strlit("dynamic_load_chain");
    reveal_strlit("threadpool_obfuscation");
    reveal_strlit("driver_security_termination");
    reveal_strlit("defender_tampering_chain");
    reveal_strlit("persistence_chain");
}

proof fn lemma_events_api_injection_chain(j: Seq<char>)
    ensures
        events_fire(j, "api_injection_chain"@) <==> contains_text(j, "virtualalloc"@) && contains_text(j, "writeprocessmemory"@)
            && contains_text(j, "createremotethread"@),
{
    lemma_event_rules();
    lemma_dynamic_fires(dynamic_rules(), "api_injection_chain"@, j);
    assert(dynamic_rules()[0].id == "api_injection_chain"@);
}

proof fn lemma_events_api_ransom_chain(j: Seq<char>)
    ensures
        events_fire(j, "api_ransom_chain"@) <==> contains_text(j, "cryptacquirecontext"@) && contains_text(j, "cryptencrypt"@)
            && (contains_text(j, "deletefile"@) || contains_text(j, "movefile"@)),
{
    lemma_event_rules();
    lemma_dynamic_fires(dynamic_rules(), "api_ransom_chain"@, j);
    assert(dynamic_rules()[1].id == "api_ransom_chain"@);
}

proof fn lemma_events_privilege_escalation_chain(j: Seq<char>)
    ensures
        events_fire(j, "privilege_escalation_chain"@) <==> contains_text(j, "openprocesstoken"@) && contains_text(
            j,
            "adjusttokenprivileges"@,
        ) && contains_text(j, "openprocess"@),
{
    lemma_event_rules();
    lemma_dynamic_fires(dynamic_rules(), "privilege_escalation_chain"@, j);
    assert(dynamic_rules()[2].id == "privilege_escalation_chain"@);
}

proof fn lemma_events_hooking_chain(j: Seq<char>)
    ensures
        events_fire(j, "hooking_chain"@) <==> contains_text(j, "setwindowshookex"@) && (contains_text(j, "getasynckeystate"@)
            || contains_text(j, "keyboard"@)),
{
    lemma_event_rules();
    lemma_dynamic_fires(dynamic_rules(), "hooking_chain"@, j);
    assert(dynamic_rules()[3].id == "hooking_chain"@);
}

proof fn lemma_events_dynamic_load_chain(j: Seq<char>)
    ensures
        events_fire(j, "dynamic_load_chain"@) <==> contains_text(j, "getprocaddress"@) && contains_text(j, "loadlibrary"@),
{
    lemma_event_rules();
    lemma_dynamic_fires(dynamic_rules(), "dynamic_load_chain"@, j);
    assert(dynamic_rules()[4].id == "dynamic_load_chain"@);
}

proof fn lemma_events_driver_security_termination(j: Seq<char>)
    ensures
        events_fire(j, "driver_security_termination"@) <==> (contains_text(j, "amsdk.sys"@) || contains_text(j, "zam.exe"@)
            || contains_text(j, "watchdog antimalware"@)) && (contains_text(
            j,
            "terminateprocess"@,
        ) || contains_text(j, "ntterminateprocess"@) || contains_text(j, "zwterminateprocess"@)),
{
    lemma_event_rules();
    lemma_dynamic_fires(dynamic_rules(), "driver_security_termination"@, j);
    assert(dynamic_rules()[6].id == "driver_security_termination"@);
}

proof fn lemma_events_defender_tampering_chain(j: Seq<char>)
    ensures
        events_fire(j, "defender_tampering_chain"@) <==> (contains_text(j, "amsiscanbuffer"@) || contains_text(
            j,
            "etweventwrite"@,
        ) || contains_text(j, "disablerealtimemonitoring"@) || contains_text(j, "exclusionpath"@)
            || contains_text(j, "mpreference"@)) && (contains_text(j, "virtualprotect"@)
            || contains_text(j, "writeprocessmemory"@) || contains_text(j, "sc stop"@)
            || contains_text(j, "set-mppreference"@)),
{
    lemma_event_rules();
    lemma_dynamic_fires(dynamic_rules(), "defender_tampering_chain"@, j);
    assert(dynamic_rules()[7].id == "defender_tampering_chain"@);
}

/// Chains of functions in what was observed fire their rules exactly where every link was
/// seen.
pub proof fn law_observed_chains_fire_their_rules(j: Seq<char>)
    ensures
        events_fire(j, "api_injection_chain"@) <==> contains_text(j, "virtualalloc"@) && contains_text(j, "writeprocessmemory"@)
            && contains_text(j, "createremotethread"@),
        events_fire(j, "api_ransom_chain"@) <==> contains_text(j, "cryptacquirecontext"@) && contains_text(j, "cryptencrypt"@)
            && (contains_text(j, "deletefile"@) || contains_text(j, "movefile"@)),
        events_fire(j, "privilege_escalation_chain"@) <==> contains_text(j, "openprocesstoken"@) && contains_text(
            j,
            "adjusttokenprivileges"@,
        ) && contains_text(j, "openprocess"@),
        events_fire(j, "hooking_chain"@) <==> contains_text(j, "setwindowshookex"@) && (contains_text(j, "getasynckeystate"@)
            || contains_text(j, "keyboard"@)),
        events_fire(j, "dynamic_load_chain"@) <==> contains_text(j, "getprocaddress"@) && contains_text(j, "loadlibrary"@),
        events_fire(j, "driver_security_termination"@) <==> (contains_text(j, "amsdk.sys"@) || contains_text(j, "zam.exe"@)
            || contains_text(j, "watchdog antimalware"@)) && (contains_text(
            j,
            "terminateprocess"@,
        ) || contains_text(j, "ntterminateprocess"@) || contains_text(j, "zwterminateprocess"@)),
        events_fire(j, "defender_tampering_chain"@) <==> (contains_text(j, "amsiscanbuffer"@) || contains_text(
            j,
            "etweventwrite"@,
        ) || contains_text(j, "disablerealtimemonitoring"@) || contains_text(j, "exclusionpath"@)
            || contains_text(j, "mpreference"@)) && (contains_text(j, "virtualprotect"@)
            || contains_text(j, "writeprocessmemory"@) || contains_text(j, "sc stop"@)
            || contains_text(j, "set-mppreference"@)),
{
    lemma_events_api_injection_chain(j);
    lemma_events_api_ransom_chain(j);
    lemma_events_privilege_escalation_chain(j);
    lemma_events_hooking_chain(j);
    lemma_events_dynamic_load_chain(j);
    lemma_events_driver_security_termination(j);
    lemma_events_defender_tampering_chain(j);
}

/// What is observed besides takes no rule away.
pub proof fn law_more_observations_lose_no_rule(
    a: Seq<char>,
    j: Seq<char>,
    b: Seq<char>,
    id: Seq<char>,
)
    requires
        events_fire(j, id),
    ensures
        events_fire(a + j + b, id),
{
    lemma_dynamic_fires(dynamic_rules(), id, j);
    lemma_dynamic_fires(dynamic_rules(), id, a + j + b);
    lemma_match_kept(id, a, j, b);
}

proof fn lemma_match_kept(id: Seq<char>, a: Seq<char>, j: Seq<char>, b: Seq<char>)
    requires
        dynamic_match(id, j),
    ensures
        dynamic_match(id, a + j + b),
{
    let all = a + j + b;
    assert forall|text: Seq<char>| contains_text(j, text) implies #[trigger] contains_text(
        all,
        text,
    ) by {
        law_more_text_hides_nothing(a, j, b, text);
    }
}

} // verus!
