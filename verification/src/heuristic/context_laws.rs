//! What the place and the name of a file, its toolchain and its scripts must tell.

use crate::bytes::holds_narrow;
use crate::heuristic::analysis::{
    ascii_text, context_notes, contextual, disguised_name, first_pdb_path, is_direction_mark,
    pdb_path_ends, pdb_path_of, printable_start, profile_score, MAX_PDB_PATH_BYTES,
    MAX_PDB_SCAN_BYTES,
};
use crate::heuristic::chain_laws::names;
use crate::heuristic::context::{
    adjusted_score, anomaly_terms, combination_terms, context_factor, download_execute,
    encoded_download, framed_path, lolbin_chain, major_version, path_context, script_indicators,
    script_persistence, script_weights, security_tampering, PathContext,
};
use crate::heuristic::image_laws::lemma_holds_joined;
use crate::monotone::lemma_product_monotone;
use crate::score::{
    is_power_of_two, lemma_one_power, lemma_ratio_capped, product_units, Score, ONE_UNITS,
};
use crate::text::{contains_text, lowered, replaced};
use crate::text_laws::{
    law_more_bytes_hide_nothing, law_more_text_hides_nothing, law_text_is_found_inside,
};
use crate::total::{capped, lemma_ratio_floor};
use vstd::prelude::*;

verus! {

/// A path as it is compared: with backslashes and in lower case.
pub open spec fn plain_path(path: Seq<char>) -> Seq<char> {
    lowered(replaced(path, '/', '\\'))
}

proof fn lemma_plain_joined(a: Seq<char>, b: Seq<char>, c: Seq<char>)
    ensures
        plain_path(a + b + c) == plain_path(a) + plain_path(b) + plain_path(c),
{
    assert(plain_path(a + b + c) =~= plain_path(a) + plain_path(b) + plain_path(c));
}

proof fn lemma_part_is_framed(a: Seq<char>, part: Seq<char>, b: Seq<char>)
    ensures
        contains_text(framed_path(a + part + b), plain_path(part)),
{
    lemma_plain_joined(a, part, b);
    law_text_is_found_inside(plain_path(a), plain_path(part), plain_path(b));
    law_more_text_hides_nothing(
        "\\"@,
        plain_path(a) + plain_path(part) + plain_path(b),
        "\\"@,
        plain_path(part),
    );
}

/// Files in the directory of drivers are told so, however the path is written.
pub proof fn law_drivers_are_recognised(a: Seq<char>, part: Seq<char>, b: Seq<char>)
    requires
        plain_path(part) == "\\windows\\system32\\drivers\\"@,
    ensures
        path_context(a + part + b) == PathContext::System32Drivers,
{
    lemma_part_is_framed(a, part, b);
}

/// Files in a system directory are told so unless they are drivers.
pub proof fn law_system_files_are_recognised(a: Seq<char>, part: Seq<char>, b: Seq<char>)
    requires
        plain_path(part) == "\\windows\\system32\\"@,
    ensures
        path_context(a + part + b) == PathContext::System32 || path_context(a + part + b)
            == PathContext::System32Drivers,
{
    lemma_part_is_framed(a, part, b);
}

/// Files in a directory for temporary files are told so where no directory of the system or
/// of programs stands in the path.
pub proof fn law_temporary_files_are_recognised(a: Seq<char>, part: Seq<char>, b: Seq<char>)
    requires
        plain_path(part) == "\\temp\\"@,
        !contains_text(framed_path(a + part + b), "\\windows\\system32\\"@),
        !contains_text(framed_path(a + part + b), "\\windows\\system32\\drivers\\"@),
        !contains_text(framed_path(a + part + b), "\\windows\\syswow64\\"@),
        !contains_text(framed_path(a + part + b), "\\program files\\"@),
    ensures
        path_context(a + part + b) == PathContext::TempDirectory,
{
    lemma_part_is_framed(a, part, b);
}

/// Every directory has its own sign in the path, looked for in a fixed order.
pub proof fn law_folders_have_their_signs(path: Seq<char>)
    ensures
        ({
            let p = "\\"@ + plain_path(path) + "\\"@;
            let drivers = contains_text(p, "\\windows\\system32\\drivers\\"@);
            let system = contains_text(p, "\\windows\\system32\\"@);
            let wow = contains_text(p, "\\windows\\syswow64\\"@);
            let programs = contains_text(p, "\\program files\\"@);
            let temp = contains_text(p, "\\local\\temp\\"@) || contains_text(p, "\\temp\\"@);
            let downloads = contains_text(p, "\\downloads\\"@);
            let desktop = contains_text(p, "\\desktop\\"@);
            let c = path_context(path);
            &&& c == PathContext::System32Drivers <==> drivers
            &&& c == PathContext::System32 <==> system && !drivers
            &&& c == PathContext::SysWow64 <==> wow && !system && !drivers
            &&& c == PathContext::ProgramFiles <==> programs && !wow && !system && !drivers
            &&& c == PathContext::TempDirectory <==> temp && !programs && !wow && !system
                && !drivers
            &&& c == PathContext::Downloads <==> downloads && !temp && !programs && !wow && !system
                && !drivers
            &&& c == PathContext::Desktop <==> desktop && !downloads && !temp && !programs && !wow
                && !system && !drivers
        }),
{
}

proof fn lemma_factors()
    ensures
        Score::of_hundredths(90).units <= ONE_UNITS,
        Score::of_hundredths(95).units <= ONE_UNITS,
        Score::of_hundredths(105).units >= ONE_UNITS,
        Score::of_hundredths(110).units >= ONE_UNITS,
{
    let one = ONE_UNITS as nat;
    lemma_one_power();
    reveal_with_fuel(is_power_of_two, 3);
    assert(is_power_of_two(1));
    assert(is_power_of_two(2));
    lemma_ratio_capped(90, 100, 1);
    lemma_ratio_capped(95, 100, 1);
    lemma_ratio_capped(105, 100, 2);
    lemma_ratio_capped(110, 100, 2);
    lemma_ratio_floor(105, 100, one);
    lemma_ratio_floor(110, 100, one);
}

proof fn lemma_factor_orders(base: Score, small: nat, large: nat)
    requires
        small <= large,
    ensures
        capped(product_units(base.units as nat, small)).units <= capped(
            product_units(base.units as nat, large),
        ).units,
{
    lemma_product_monotone(base.units as nat, small, base.units as nat, large);
}

/// The same evidence weighs no less among temporary, downloaded and desktop files and among
/// drivers than elsewhere, and no more among programs and system files.
pub proof fn law_folders_move_scores(base: Score, path: Seq<char>, elsewhere: Seq<char>)
    requires
        path_context(elsewhere) == PathContext::Other,
    ensures
        path_context(path) == PathContext::TempDirectory || path_context(path)
            == PathContext::Downloads || path_context(path) == PathContext::Desktop
            || path_context(path) == PathContext::System32Drivers ==> adjusted_score(
            base,
            path,
        ).units >= adjusted_score(base, elsewhere).units,
        path_context(path) == PathContext::ProgramFiles || path_context(path)
            == PathContext::System32 || path_context(path) == PathContext::SysWow64
            ==> adjusted_score(base, path).units <= adjusted_score(base, elsewhere).units,
{
    lemma_factors();
    let f = context_factor(path_context(path), base).units as nat;
    let one = ONE_UNITS as nat;
    if f <= one {
        lemma_factor_orders(base, f, one);
    }
    if f >= one {
        lemma_factor_orders(base, one, f);
    }
}

/// A system directory takes nothing from strong evidence.
pub proof fn law_strong_evidence_is_kept(base: Score, path: Seq<char>, elsewhere: Seq<char>)
    requires
        path_context(elsewhere) == PathContext::Other,
        path_context(path) == PathContext::System32 || path_context(path)
            == PathContext::SysWow64,
        base.units >= Score::of_hundredths(55).units,
    ensures
        adjusted_score(base, path) == adjusted_score(base, elsewhere),
{
}

/// In one directory stronger evidence weighs no less.
pub proof fn law_folders_keep_the_order(weak: Score, strong: Score, path: Seq<char>)
    requires
        weak.units <= strong.units,
    ensures
        adjusted_score(weak, path).units <= adjusted_score(strong, path).units,
{
    lemma_factors();
    lemma_product_monotone(
        weak.units as nat,
        context_factor(path_context(path), weak).units as nat,
        strong.units as nat,
        context_factor(path_context(path), strong).units as nat,
    );
}

/// A mark in the file name that turns the direction of writing is told, wherever it stands;
/// a name without one is not.
pub proof fn law_disguised_names_are_told(
    base: (Score, Seq<Seq<char>>),
    path: Seq<char>,
    name: Seq<char>,
    at: int,
)
    requires
        0 <= at < name.len(),
        name[at] == '\u{202e}' || name[at] == '\u{202c}' || name[at] == '\u{200f}',
    ensures
        contextual(base, path, name).1.contains("rtlo_filename_spoofing"@),
{
    let marked = base.1.push("rtlo_filename_spoofing"@);
    assert(is_direction_mark(name[at]));
    assert(marked[base.1.len() as int] == "rtlo_filename_spoofing"@);
    lemma_holds_joined(
        marked,
        context_notes(path_context(path)),
        "rtlo_filename_spoofing"@,
    );
}

/// A plain name leaves the indicators and only the directory speaks.
pub proof fn law_plain_names_add_nothing(
    base: (Score, Seq<Seq<char>>),
    path: Seq<char>,
    name: Seq<char>,
)
    requires
        forall|i: int|
            0 <= i < name.len() ==> #[trigger] name[i] != '\u{202e}' && name[i] != '\u{202c}'
                && name[i] != '\u{200f}',
    ensures
        contextual(base, path, name).0 == adjusted_score(base.0, path),
        path_context(path) == PathContext::Other ==> contextual(base, path, name).1 == base.1,
        path_context(path) == PathContext::TempDirectory ==> contextual(base, path, name).1
            == base.1.push("path_context:temporary_directory"@),
        path_context(path) == PathContext::Downloads ==> contextual(base, path, name).1
            == base.1.push("path_context:downloads"@),
        path_context(path) == PathContext::Desktop ==> contextual(base, path, name).1
            == base.1.push("path_context:desktop"@),
        path_context(path) == PathContext::System32Drivers ==> contextual(base, path, name).1
            == base.1.push("path_context:system32_drivers"@),
{
    assert(!disguised_name(name));
    assert(base.1 + Seq::<Seq<char>>::empty() =~= base.1);
}

/// What was told of a file is still told with its place and name.
pub proof fn law_context_keeps_indicators(
    base: (Score, Seq<Seq<char>>),
    path: Seq<char>,
    name: Seq<char>,
    t: Seq<char>,
)
    requires
        base.1.contains(t),
    ensures
        contextual(base, path, name).1.contains(t),
{
    let marked = base.1.push("rtlo_filename_spoofing"@);
    let i = base.1.index_of(t);
    assert(marked[i] == t);
    lemma_holds_joined(marked, context_notes(path_context(path)), t);
    lemma_holds_joined(base.1, context_notes(path_context(path)), t);
}

/// Functions of one family alone weigh nothing; injection beside deletion or the registry
/// weighs once, beside both three times.
pub proof fn law_single_families_are_neutral(imports: Seq<Seq<char>>)
    ensures
        ({
            let inject = names(imports, "virtualallocex"@) || names(imports, "writeprocessmemory"@)
                || names(imports, "ntwritevirtualmemory"@) || names(imports, "createremotethread"@)
                || names(imports, "ntcreatethreadex"@);
            let delete = names(imports, "deletefile"@) || names(imports, "ntdeletefile"@) || names(
                imports,
                "movefile"@,
            );
            let registry = names(imports, "regsetvalueex"@) || names(imports, "regcreatekey"@)
                || names(imports, "ntcreatekey"@);
            let terms = combination_terms(imports);
            &&& !inject || (!delete && !registry) <==> terms.len() == 0
            &&& inject && delete && !registry ==> terms == seq![Score::of_hundredths(22)]
            &&& inject && !delete && registry ==> terms == seq![Score::of_hundredths(22)]
            &&& inject && delete && registry ==> terms == seq![
                Score::of_hundredths(22),
                Score::of_hundredths(22),
                Score::of_hundredths(12),
            ]
        }),
{
    reveal(names);
}

/// The parts of the script indicators.
proof fn lemma_script_parts(d: Seq<u8>)
    ensures
        encoded_download(d) ==> script_indicators(d).contains(
            "script_encoded_download_execute"@,
        ) && script_weights(d).contains(Score::of_hundredths(78)),
        download_execute(d) ==> script_indicators(d).contains(
            "script_download_execute_chain"@,
        ) && script_weights(d).contains(Score::of_hundredths(68)),
        script_persistence(d) ==> script_indicators(d).contains(
            "script_persistence"@,
        ) && script_weights(d).contains(Score::of_hundredths(62)),
        lolbin_chain(d) ==> script_indicators(d).contains(
            "script_lolbin_chain"@,
        ) && script_weights(d).contains(Score::of_hundredths(58)),
        security_tampering(d) ==> script_indicators(d).contains(
            "script_security_tampering"@,
        ) && script_weights(d).contains(Score::of_hundredths(72)),
{
    let a = if encoded_download(d) { 1int } else { 0 };
    let b = a + if download_execute(d) { 1int } else { 0 };
    let c = b + if script_persistence(d) { 1int } else { 0 };
    let e = c + if lolbin_chain(d) { 1int } else { 0 };
    let notes = script_indicators(d);
    let weights = script_weights(d);
    if encoded_download(d) {
        assert(notes[0] == "script_encoded_download_execute"@);
        assert(weights[0] == Score::of_hundredths(78));
    }
    if download_execute(d) {
        assert(notes[a] == "script_download_execute_chain"@);
        assert(weights[a] == Score::of_hundredths(68));
    }
    if script_persistence(d) {
        assert(notes[b] == "script_persistence"@);
        assert(weights[b] == Score::of_hundredths(62));
    }
    if lolbin_chain(d) {
        assert(notes[c] == "script_lolbin_chain"@);
        assert(weights[c] == Score::of_hundredths(58));
    }
    if security_tampering(d) {
        assert(notes[e] == "script_security_tampering"@);
        assert(weights[e] == Score::of_hundredths(72));
    }
}

/// A script that decodes and runs or downloads, or that downloads and runs, is told and
/// weighed.
pub proof fn law_download_scripts_are_told(d: Seq<u8>)
    ensures
        (holds_narrow(d, "frombase64string"@) || holds_narrow(d, "-enc "@) || holds_narrow(
            d,
            "-encodedcommand"@,
        )) && (holds_narrow(d, "iex"@) || holds_narrow(d, "invoke-expression"@) || holds_narrow(
            d,
            "downloadstring"@,
        ) || holds_narrow(d, "downloadfile"@)) ==> script_indicators(d).contains(
            "script_encoded_download_execute"@,
        ) && script_weights(d).contains(Score::of_hundredths(78)),
        (holds_narrow(d, "downloadstring"@) || holds_narrow(d, "downloadfile"@) || holds_narrow(
            d,
            "invoke-webrequest"@,
        ) || holds_narrow(d, "bitsadmin"@) || holds_narrow(d, "certutil -urlcache"@)) && (
        holds_narrow(d, "iex"@) || holds_narrow(d, "invoke-expression"@) || holds_narrow(
            d,
            "start-process"@,
        ) || holds_narrow(d, "rundll32"@) || holds_narrow(d, "mshta"@)) ==> script_indicators(
            d,
        ).contains("script_download_execute_chain"@) && script_weights(d).contains(
            Score::of_hundredths(68),
        ),
{
    lemma_script_parts(d);
}

/// A script that persists, that hands an address or a temporary file to a tool of the system,
/// or that tampers with the protection or the backups, is told and weighed.
pub proof fn law_persistent_scripts_are_told(d: Seq<u8>)
    ensures
        (holds_narrow(d, "reg add"@) && (holds_narrow(d, "currentversion\\run"@) || holds_narrow(
            d,
            "currentversion/run"@,
        ))) || (holds_narrow(d, "schtasks"@) && (holds_narrow(d, "/create"@) || holds_narrow(
            d,
            "create "@,
        ))) || holds_narrow(d, "start menu\\programs\\startup"@) || holds_narrow(d, "\\startup\\"@)
            ==> script_indicators(d).contains("script_persistence"@) && script_weights(
            d,
        ).contains(Score::of_hundredths(62)),
        (holds_narrow(d, "rundll32"@) || holds_narrow(d, "regsvr32"@) || holds_narrow(d, "mshta"@)
            || holds_narrow(d, "wscript"@) || holds_narrow(d, "cscript"@)) && (holds_narrow(
            d,
            "http://"@,
        ) || holds_narrow(d, "https://"@) || holds_narrow(d, "\\temp\\"@) || holds_narrow(
            d,
            "/temp/"@,
        )) ==> script_indicators(d).contains("script_lolbin_chain"@) && script_weights(d).contains(
            Score::of_hundredths(58),
        ),
        holds_narrow(d, "set-mppreference -disablerealtimemonitoring"@) || holds_narrow(
            d,
            "set-mppreference -exclusionpath"@,
        ) || holds_narrow(d, "vssadmin delete shadows"@) || holds_narrow(
            d,
            "wbadmin delete catalog"@,
        ) ==> script_indicators(d).contains("script_security_tampering"@) && script_weights(
            d,
        ).contains(Score::of_hundredths(72)),
{
    lemma_script_parts(d);
}

/// Each indicator of a script has its weight, and a script that shows nothing has neither.
pub proof fn law_script_weights_follow_indicators(d: Seq<u8>)
    ensures
        script_indicators(d).len() == script_weights(d).len(),
        script_indicators(d).len() <= 5,
{
}

/// Bytes around a script take away none of its indicators.
pub proof fn law_more_script_hides_nothing(a: Seq<u8>, d: Seq<u8>, b: Seq<u8>)
    ensures
        script_indicators(d).len() <= script_indicators(a + d + b).len(),
{
    let all = a + d + b;
    assert forall|text: Seq<char>| holds_narrow(d, text) implies #[trigger] holds_narrow(
        all,
        text,
    ) by {
        law_more_bytes_hide_nothing(a, d, b, text);
    }
}

/// A debug path among downloads, on the desktop or among temporary files weighs, whatever the
/// linker.
pub proof fn law_scratch_builds_weigh(
    version: Seq<char>,
    a: Seq<char>,
    folder: Seq<char>,
    b: Seq<char>,
    stamp: u32,
    now: u64,
)
    requires
        lowered(folder) == "\\desktop\\"@ || lowered(folder) == "\\downloads\\"@ || lowered(folder)
            == "\\temp\\"@ || lowered(folder) == "\\hacker\\"@,
    ensures
        anomaly_terms(version, a + folder + b, stamp, now).len() >= 1,
        anomaly_terms(version, a + folder + b, stamp, now).last() == Score::of_hundredths(15),
{
    let path = a + folder + b;
    assert(lowered(path) =~= lowered(a) + lowered(folder) + lowered(b));
    law_text_is_found_inside(lowered(a), lowered(folder), lowered(b));
}

/// An even entropy weighs by its height: a flat very high profile of many blocks most, an
/// uneven high one a little, a lower one not at all.
pub proof fn law_entropy_profiles_weigh(blocks: nat, mean: Score, variance: Score)
    ensures
        blocks >= 8 && mean.units >= Score::of_ratio(785, 100).units && variance.units
            <= Score::of_hundredths(4).units ==> profile_score(blocks, mean, variance)
            == Score::of_hundredths(55),
        mean.units < Score::of_ratio(7, 1).units && mean.units < Score::of_ratio(785, 100).units
            ==> profile_score(blocks, mean, variance) == Score::zero(),
        blocks < 8 && mean.units >= Score::of_ratio(7, 1).units && variance.units
            >= Score::of_hundredths(12).units ==> profile_score(blocks, mean, variance)
            == Score::of_hundredths(10),
{
}

/// An image that an old linker wrote within the last eight years weighs, and one that bears no
/// stamp or is older does not.
pub proof fn law_old_linkers_weigh_in_new_images(
    version: Seq<char>,
    path: Seq<char>,
    stamp: u32,
    now: u64,
)
    requires
        8 * 365 * 24 * 3600 <= now < 0x1_0000_0000,
        !contains_text(lowered(path), "\\desktop\\"@),
        !contains_text(lowered(path), "\\downloads\\"@),
        !contains_text(lowered(path), "\\temp\\"@),
        !contains_text(lowered(path), "\\hacker\\"@),
    ensures
        1 <= major_version(version) <= 6 && stamp != 0 && stamp + 8 * 365 * 24 * 3600 >= now
            ==> anomaly_terms(version, path, stamp, now) == seq![Score::of_hundredths(25)],
        major_version(version) == 0 || major_version(version) > 6 || stamp == 0 || stamp + 8 * 365
            * 24 * 3600 < now ==> anomaly_terms(version, path, stamp, now).len() == 0,
{
    assert(now % 0x1_0000_0000 == now);
}

proof fn lemma_path_start(data: Seq<u8>, from: int, at: int)
    requires
        0 <= from <= at <= data.len(),
        from == 0 || !(0x20 <= data[from - 1] <= 0x7e),
        forall|i: int| from <= i < at ==> 0x20 <= #[trigger] data[i] <= 0x7e,
    ensures
        printable_start(data, at) == from,
    decreases at - from,
{
    if at > from {
        assert(0x20 <= data[at - 1] <= 0x7e);
        lemma_path_start(data, from, at - 1);
    }
}

proof fn lemma_first_path(data: Seq<u8>, from: int, end: int, limit: int)
    requires
        from <= end <= limit,
        pdb_path_ends(data, end),
        forall|k: int| 4 <= k < end ==> !pdb_path_ends(data, k),
        4 <= from,
    ensures
        first_pdb_path(data, from, limit) == ascii_text(
            data.subrange(printable_start(data, end - 1), end),
        ),
    decreases end - from,
{
    if from < end {
        assert(!pdb_path_ends(data, from));
        lemma_first_path(data, from + 1, end, limit);
    }
}

/// The first debug path of an image is found, letter for letter: printable bytes with a
/// separator among them that end in `.pdb`, behind a byte that is not printable.
pub proof fn law_debug_path_is_found(head: Seq<u8>, path: Seq<u8>, tail: Seq<u8>)
    requires
        head.len() == 0 || !(0x20 <= head.last() <= 0x7e),
        4 < path.len() <= MAX_PDB_PATH_BYTES,
        forall|i: int| 0 <= i < path.len() ==> 0x20 <= #[trigger] path[i] <= 0x7e,
        exists|i: int| 0 <= i < path.len() && (#[trigger] path[i] == 0x5c || path[i] == 0x2f),
        path[path.len() - 4] == 0x2e,
        path[path.len() - 3] == 0x70,
        path[path.len() - 2] == 0x64,
        path[path.len() - 1] == 0x62,
        head.len() + path.len() <= MAX_PDB_SCAN_BYTES,
        forall|k: int|
            4 <= k < head.len() + path.len() ==> !pdb_path_ends(head + path + tail, k),
    ensures
        pdb_path_of(head + path + tail) == ascii_text(path),
{
    let data = head + path + tail;
    let start = head.len() as int;
    let end = start + path.len();
    assert forall|i: int| start <= i < end - 1 implies 0x20 <= #[trigger] data[i] <= 0x7e by {
        assert(data[i] == path[i - start]);
    }
    if start > 0 {
        assert(data[start - 1] == head.last());
    }
    lemma_path_start(data, start, end - 1);
    assert(data.subrange(start, end) =~= path);
    assert(data[end - 4] == path[path.len() - 4]);
    assert(data[end - 3] == path[path.len() - 3]);
    assert(data[end - 2] == path[path.len() - 2]);
    assert(data[end - 1] == path[path.len() - 1]);
    assert(pdb_path_ends(data, end));
    let limit = if data.len() < MAX_PDB_SCAN_BYTES {
        data.len() as int
    } else {
        MAX_PDB_SCAN_BYTES as int
    };
    lemma_first_path(data, 4, end, limit);
}

} // verus!
