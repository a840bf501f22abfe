//! Where samples must not be written, and how images are laid out.

use crate::digest::{hex_char, hex_text};
use crate::synthetic::corpus::{is_drive_root, is_protected, output_root, without_verbatim};
use crate::synthetic::template::{aligned, raw_at, raw_size, rva_at, SectionPlan};
use crate::text::{begins_with, lowered, without_trailing};
use vstd::arithmetic::div_mod::lemma_fundamental_div_mod;
use vstd::prelude::*;

verus! {

proof fn lemma_begins_low(a: Seq<char>, rest: Seq<char>)
    ensures
        begins_with(lowered(a + rest), lowered(a)),
{
    assert(lowered(a + rest).subrange(0, a.len() as int) =~= lowered(a));
}

/// Nothing is written below the directories of the system and of programs, in whatever case
/// they are written.
pub proof fn law_protected_places_are_refused(place: Seq<char>, rest: Seq<char>)
    requires
        lowered(place) == "c:\\windows"@ || lowered(place) == "c:\\program files"@ || lowered(place)
            == "c:\\programdata"@ || lowered(place) == "c:\\users\\default"@,
    ensures
        is_protected(place + rest),
        output_root(place + rest) is Err,
{
    lemma_begins_low(place, rest);
    let path = place + rest;
    reveal_strlit("\\\\?\\");
    reveal_strlit("c:\\windows");
    reveal_strlit("c:\\program files");
    reveal_strlit("c:\\programdata");
    reveal_strlit("c:\\users\\default");
    assert(lowered(place)[0] == 'c');
    assert(path[0] == place[0]);
    if begins_with(path, "\\\\?\\"@) {
        assert(path.subrange(0, 4)[0] == '\\');
        assert(lowered(place)[0] == '\\');
    }
    assert(without_verbatim(path) == path);
}

/// A verbatim prefix changes nothing.
pub proof fn law_verbatim_prefix_changes_nothing(path: Seq<char>)
    ensures
        output_root("\\\\?\\"@ + path) == output_root(path),
{
    reveal_strlit("\\\\?\\");
    let long = "\\\\?\\"@ + path;
    assert(long.subrange(0, 4) =~= "\\\\?\\"@);
    assert(long.skip(4) =~= path);
    assert(without_verbatim(long) == without_verbatim(path));
}

/// What is accepted is neither protected nor the root of a drive, and bears no verbatim prefix.
pub proof fn law_accepted_places_are_safe(resolved: Seq<char>)
    requires
        output_root(resolved) is Ok,
    ensures
        !is_protected(output_root(resolved)->Ok_0),
        !is_drive_root(output_root(resolved)->Ok_0),
        !begins_with(output_root(resolved)->Ok_0, "\\\\?\\"@),
        output_root(output_root(resolved)->Ok_0) == output_root(resolved),
{
    lemma_bare(resolved);
}

proof fn lemma_bare(path: Seq<char>)
    ensures
        !begins_with(without_verbatim(path), "\\\\?\\"@),
        without_verbatim(without_verbatim(path)) == without_verbatim(path),
    decreases path.len(),
{
    reveal_strlit("\\\\?\\");
    if begins_with(path, "\\\\?\\"@) && path.len() >= 4 {
        lemma_bare(path.skip(4));
    }
}

/// A letter and a colon are the root of a drive, with or without a backslash behind them.
pub proof fn law_drive_roots_are_refused(letter: char)
    requires
        letter < '\u{80}',
    ensures
        is_drive_root(seq![letter, ':']),
        is_drive_root(seq![letter, ':', '\\']),
{
    let drop = |c: char| c == '\\';
    let root = seq![letter, ':'];
    assert(root.last() == ':');
    assert(!drop(root.last()));
    assert(without_trailing(root, drop) == root);
    let slashed = seq![letter, ':', '\\'];
    assert(slashed.last() == '\\');
    assert(drop(slashed.last()));
    assert(slashed.drop_last() =~= root);
    assert(without_trailing(slashed, drop) == without_trailing(slashed.drop_last(), drop));
}

/// A size is rounded up to the next multiple of the step, and nothing to one step.
pub proof fn law_sizes_are_rounded_up(n: nat, step: nat)
    requires
        step > 0,
    ensures
        aligned(n, step) >= n,
        aligned(n, step) >= step,
        n > 0 ==> aligned(n, step) < n + step,
        aligned(n, step) % step == 0,
{
    if n > 0 {
        let m = (n + step - 1) as nat;
        lemma_fundamental_div_mod(m as int, step as int);
        let q = m / step;
        assert(q * step == step as int * (m as int / step as int)) by (nonlinear_arith)
            requires
                q == m as int / step as int,
        ;
        vstd::arithmetic::div_mod::lemma_mod_multiples_basic(q as int, step as int);
        assert(q >= 1) by (nonlinear_arith)
            requires
                m == step as int * (m as int / step as int) + m as int % step as int,
                (m as int % step as int) < step,
                q == m as int / step as int,
                m >= step,
                step > 0,
        ;
        assert(q * step >= step) by (nonlinear_arith)
            requires
                q >= 1,
        ;
    } else {
        vstd::arithmetic::div_mod::lemma_mod_self_0(step as int);
    }
}

/// The sections of an image follow each other in the file without overlap.
pub proof fn law_sections_follow_each_other(sections: Seq<SectionPlan>, i: int)
    requires
        0 <= i < sections.len(),
    ensures
        raw_at(sections, i + 1) == raw_at(sections, i) + raw_size(sections[i]),
        raw_size(sections[i]) >= sections[i].virtual_size,
        rva_at(sections, i + 1) >= rva_at(sections, i) + sections[i].virtual_size,
{
    let front = sections.take(i + 1);
    assert(front.drop_last() =~= sections.take(i));
    assert(front.last() == sections[i]);
    law_sizes_are_rounded_up(
        sections[i].virtual_size,
        crate::synthetic::template::FILE_ALIGNMENT as nat,
    );
    law_sizes_are_rounded_up(
        sections[i].virtual_size,
        crate::synthetic::template::SECTION_ALIGNMENT as nat,
    );
}

proof fn lemma_hex_char(a: nat, b: nat)
    requires
        a < 16,
        b < 16,
    ensures
        hex_char(a) == hex_char(b) ==> a == b,
        '0' <= hex_char(a) <= '9' || 'a' <= hex_char(a) <= 'f',
{
}

/// Digests are written in small hexadecimal digits, two to a byte, and two digests that are
/// written alike are alike.
pub proof fn law_digests_are_written_in_full(a: Seq<u8>, b: Seq<u8>)
    ensures
        hex_text(a).len() == 2 * a.len(),
        forall|i: int|
            0 <= i < hex_text(a).len() ==> '0' <= #[trigger] hex_text(a)[i] <= '9' || 'a'
                <= hex_text(a)[i] <= 'f',
        hex_text(a) == hex_text(b) ==> a == b,
{
    assert forall|i: int| 0 <= i < hex_text(a).len() implies '0' <= #[trigger] hex_text(a)[i]
        <= '9' || 'a' <= hex_text(a)[i] <= 'f' by {
        lemma_hex_char((a[i / 2] / 16) as nat, 0);
        lemma_hex_char((a[i / 2] % 16) as nat, 0);
    }
    if hex_text(a) == hex_text(b) {
        assert(hex_text(b).len() == 2 * b.len());
        assert forall|k: int| 0 <= k < a.len() implies a[k] == b[k] by {
            assert(hex_text(a)[2 * k] == hex_text(b)[2 * k]);
            assert(hex_text(a)[2 * k + 1] == hex_text(b)[2 * k + 1]);
            assert((2 * k) / 2 == k && (2 * k) % 2 == 0);
            assert((2 * k + 1) / 2 == k && (2 * k + 1) % 2 == 1);
            lemma_hex_char((a[k] / 16) as nat, (b[k] / 16) as nat);
            lemma_hex_char((a[k] % 16) as nat, (b[k] % 16) as nat);
        }
        assert(a =~= b);
    }
}

} // verus!
