//! What a manifest must say of rule files.

use crate::text::{
    begins_with, behind_first, first_of, lemma_first_of, lowered, trimmed, unicode_lower,
};
use crate::yara::{
    differs, entry_hash, entry_name, expected_hash, first_mismatch, is_entry, is_rule_extension,
    SourceView,
};
use vstd::prelude::*;

verus! {

/// A line of a manifest gives the digest behind its first equals sign to the file named
/// before it.
pub proof fn law_manifest_lines_are_read(name: Seq<char>, hash: Seq<char>)
    requires
        !name.contains('='),
    ensures
        entry_name(name + seq!['='] + hash) == trimmed(name),
        entry_hash(name + seq!['='] + hash) == trimmed(hash),
{
    let line = name + seq!['='] + hash;
    lemma_first_of(line, '=');
    assert(line[name.len() as int] == '=');
    assert(line.contains('='));
    let at = first_of(line, '=');
    if at < name.len() {
        assert(name[at] == line[at]);
        assert(name.contains('='));
    }
    assert(at == name.len());
    assert(line.take(at) =~= name);
    assert(behind_first(line, '=') =~= hash);
}

/// The last line of a manifest that names a file counts; comments and lines on other files do
/// not.
pub proof fn law_last_manifest_line_counts(
    manifest: Seq<Seq<char>>,
    line: Seq<char>,
    name: Seq<char>,
)
    ensures
        is_entry(line) && entry_name(line) == name ==> expected_hash(manifest.push(line), name)
            == Some(entry_hash(line)),
        !is_entry(line) || entry_name(line) != name ==> expected_hash(manifest.push(line), name)
            == expected_hash(manifest, name),
        begins_with(trimmed(line), "#"@) || trimmed(line).len() == 0 || !line.contains('=')
            ==> !is_entry(line),
        expected_hash(Seq::empty(), name) is None,
{
    assert(manifest.push(line).last() == line);
    assert(manifest.push(line).drop_last() =~= manifest);
}

/// Rule files pass exactly where each that the manifest names has the digest that it gives,
/// whatever the case of its letters.
pub proof fn law_files_pass_by_their_digests(manifest: Seq<Seq<char>>, files: Seq<SourceView>)
    ensures
        first_mismatch(manifest, files) is None <==> forall|i: int|
            0 <= i < files.len() ==> (expected_hash(manifest, (#[trigger] files[i]).name) is Some
                ==> unicode_lower(files[i].hash) == unicode_lower(
                expected_hash(manifest, files[i].name)->0,
            )),
    decreases files.len(),
{
    if files.len() > 0 {
        let rest = files.skip(1);
        law_files_pass_by_their_digests(manifest, rest);
        if first_mismatch(manifest, files) is None {
            assert forall|i: int|
                0 <= i < files.len() && expected_hash(manifest, (#[trigger] files[i]).name)
                    is Some implies unicode_lower(files[i].hash) == unicode_lower(
                expected_hash(manifest, files[i].name)->0,
            ) by {
                if i > 0 {
                    assert(rest[i - 1] == files[i]);
                } else {
                    assert(!differs(manifest, files[0]));
                }
            }
        } else if differs(manifest, files[0]) {
            assert(expected_hash(manifest, files[0].name) is Some);
        } else {
            let i = choose|i: int|
                0 <= i < rest.len() && !(expected_hash(manifest, (#[trigger] rest[i]).name) is Some
                    ==> unicode_lower(rest[i].hash) == unicode_lower(
                    expected_hash(manifest, rest[i].name)->0,
                ));
            assert(files[i + 1] == rest[i]);
        }
    }
}

/// Rule files end in `.yar` or `.yara`, in whatever case; other files and files without an
/// extension are none.
pub proof fn law_rule_files_are_told_by_their_extension(extension: String)
    ensures
        is_rule_extension(Some(extension)) <==> lowered(extension@) == "yar"@ || lowered(
            extension@,
        ) == "yara"@,
        !is_rule_extension(None),
{
}

} // verus!
