//! What signatures are compared for, and what a database of hashes is good for.

use crate::digest::{hex_text, md5_of, sha1_of, sha256_of, sha512_of};
use crate::hash::columns::{names_fuzzy, normalized_hash, DbEntryView};
use crate::hash::distance::{
    common_subsequence, edit_distance, lemma_common_bound, lemma_distance_bound, seven_at,
    share_seven, short_runs,
};
use crate::hash::fuzzy::{fuzzy_signature, is_doubled_three, is_letter};
use crate::hash::matcher::{
    best_match, content_hashes, content_match, content_verdict, first_malicious, fuzzy_position,
    is_listed, lists_malicious, BatchVerdict, FuzzyEntryView, MatcherView,
};
use crate::hash::similarity::{
    normalized_fuzzy, parsed_fuzzy, part_score, similarity, subsequence_score,
};
use vstd::arithmetic::div_mod::{lemma_div_is_ordered, lemma_fundamental_div_mod};
use vstd::prelude::*;
use vstd::utf8::encode_utf8;

verus! {

/// What is compared of a part: its bytes with every run cut to three.
pub open spec fn compared(part: Seq<char>) -> Seq<u8> {
    short_runs(encode_utf8(part))
}

/// Two unequal parts that share seven letters in a row, at a block size of 45 or more, score
/// what their edit distance leaves of a hundred, in proportion to both lengths: a hundredth
/// less for every hundredth of the lengths that the distance reaches.
pub proof fn law_distance_tells_the_score(left: Seq<char>, right: Seq<char>, block_size: nat)
    requires
        block_size >= 45,
        left != right,
        share_seven(compared(left), compared(right)),
    ensures
        ({
            let total = compared(left).len() + compared(right).len();
            let d = edit_distance(compared(left), compared(right));
            let score = part_score(left, right, block_size);
            &&& total > 0
            &&& score <= 100
            &&& (100 - score) * total <= 100 * d < (101 - score) * total
            &&& score >= 100 - 100 * d / total
        }),
{
    let a = compared(left);
    let b = compared(right);
    let (i, j) = choose|i: int, j: int| #[trigger] seven_at(a, b, i, j);
    let total = a.len() + b.len();
    let d = edit_distance(a, b);
    lemma_distance_bound(a, b);
    let lost = d * 100 / total;
    lemma_fundamental_div_mod((d * 100) as int, total as int);
    assert(lost <= 100) by (nonlinear_arith)
        requires
            lost == d * 100 / total,
            d <= total,
            total > 0,
    ;
    let score = part_score(left, right, block_size);
    assert(score == 100 - lost);
    let rest = (d * 100) % total;
    assert((100 - score) * total <= 100 * d && 100 * d < (101 - score) * total) by (nonlinear_arith)
        requires
            score == 100 - lost,
            d * 100 == total * lost + rest,
            rest < total,
    ;
}

/// Similarity falls as signatures drift apart: between parts of the same lengths that share
/// seven letters in a row, at one block size of 45 or more, a smaller edit distance never gives
/// a smaller score.
pub proof fn law_closer_parts_score_no_less(
    left: Seq<char>,
    right: Seq<char>,
    far_left: Seq<char>,
    far_right: Seq<char>,
    block_size: nat,
)
    requires
        block_size >= 45,
        share_seven(compared(left), compared(right)),
        share_seven(compared(far_left), compared(far_right)),
        compared(left).len() == compared(far_left).len(),
        compared(right).len() == compared(far_right).len(),
        edit_distance(compared(left), compared(right)) <= edit_distance(
            compared(far_left),
            compared(far_right),
        ),
    ensures
        part_score(left, right, block_size) >= part_score(far_left, far_right, block_size),
{
    let a = compared(left);
    let b = compared(right);
    let (i, j) = choose|i: int, j: int| #[trigger] seven_at(a, b, i, j);
    let total = a.len() + b.len();
    let near = edit_distance(a, b);
    let far = edit_distance(compared(far_left), compared(far_right));
    assert(near * 100 <= far * 100);
    lemma_div_is_ordered((near * 100) as int, (far * 100) as int, total as int);
    let (k, l) = choose|k: int, l: int| #[trigger]
        seven_at(compared(far_left), compared(far_right), k, l);
    if far_left == far_right {
        crate::hash::distance::law_distance_zero_means_equal(
            compared(far_left),
            compared(far_right),
        );
    }
}

/// Equal parts are entirely alike; unequal ones that share no seven letters in a row are not
/// alike at all.
pub proof fn law_parts_need_seven_letters(left: Seq<char>, right: Seq<char>, block_size: nat)
    ensures
        part_score(left, left, block_size) == 100,
        left != right && !share_seven(compared(left), compared(right)) ==> part_score(
            left,
            right,
            block_size,
        ) == 0,
{
}

/// At a smaller block size the score is capped at a third of the block size for every letter
/// of the shorter part, and is otherwise what it is at a larger one.
pub proof fn law_small_blocks_cap_the_score(
    left: Seq<char>,
    right: Seq<char>,
    block_size: nat,
    large: nat,
)
    requires
        block_size < 45,
        large >= 45,
        left != right,
        share_seven(compared(left), compared(right)),
    ensures
        ({
            let shorter = if compared(left).len() <= compared(right).len() {
                compared(left).len()
            } else {
                compared(right).len()
            };
            let cap = block_size / 3 * shorter;
            let free = part_score(left, right, large);
            part_score(left, right, block_size) == if free <= cap {
                free
            } else {
                cap
            }
        }),
{
    let (i, j) = choose|i: int, j: int| #[trigger]
        seven_at(compared(left), compared(right), i, j);
}

/// Two signatures in the standard form are as alike as the better of their parts where the
/// block sizes are equal; where one block size is twice the other, the parts of that one block
/// size are compared; otherwise they are not alike.
pub proof fn law_signatures_compare_parts_of_one_block_size(left: Seq<char>, right: Seq<char>)
    requires
        parsed_fuzzy(left) is Some,
        parsed_fuzzy(right) is Some,
        !parsed_fuzzy(left)->0.legacy,
        !parsed_fuzzy(right)->0.legacy,
    ensures
        ({
            let a = parsed_fuzzy(left)->0;
            let b = parsed_fuzzy(right)->0;
            let score = similarity(left, right);
            let first = part_score(a.primary, b.primary, a.block_size);
            let second = part_score(a.secondary, b.secondary, 2 * a.block_size);
            &&& a.block_size == b.block_size ==> score >= first && score >= second && (score
                == first || score == second)
            &&& a.block_size == 2 * b.block_size ==> score == part_score(
                a.primary,
                b.secondary,
                a.block_size,
            )
            &&& b.block_size == 2 * a.block_size ==> score == part_score(
                b.primary,
                a.secondary,
                b.block_size,
            )
            &&& a.block_size != b.block_size && a.block_size != 2 * b.block_size && b.block_size
                != 2 * a.block_size ==> score == 0
        }),
{
    let a = parsed_fuzzy(left)->0;
    assert(a.block_size > 0) by {
        reveal_with_fuel(is_doubled_three, 2);
    }
}

/// A signature that was changed by a few letters is still found: where the parts of two
/// signatures of one block size of 45 or more share seven letters in a row, and the edit
/// distance is at most fifteen hundredths of both lengths, the signatures are at least 85
/// hundredths alike.
pub proof fn law_close_signatures_are_alike(left: Seq<char>, right: Seq<char>)
    requires
        parsed_fuzzy(left) is Some,
        parsed_fuzzy(right) is Some,
        !parsed_fuzzy(left)->0.legacy,
        !parsed_fuzzy(right)->0.legacy,
        parsed_fuzzy(left)->0.block_size == parsed_fuzzy(right)->0.block_size,
        parsed_fuzzy(left)->0.block_size >= 45,
        share_seven(
            compared(parsed_fuzzy(left)->0.primary),
            compared(parsed_fuzzy(right)->0.primary),
        ),
        100 * edit_distance(
            compared(parsed_fuzzy(left)->0.primary),
            compared(parsed_fuzzy(right)->0.primary),
        ) <= 15 * (compared(parsed_fuzzy(left)->0.primary).len() + compared(
            parsed_fuzzy(right)->0.primary,
        ).len()),
    ensures
        similarity(left, right) >= 85,
{
    let a = parsed_fuzzy(left)->0;
    let b = parsed_fuzzy(right)->0;
    law_signatures_compare_parts_of_one_block_size(left, right);
    if a.primary == b.primary {
        law_parts_need_seven_letters(a.primary, a.primary, a.block_size);
    } else {
        law_distance_tells_the_score(a.primary, b.primary, a.block_size);
        let score = part_score(a.primary, b.primary, a.block_size);
        let total = compared(a.primary).len() + compared(b.primary).len();
        let d = edit_distance(compared(a.primary), compared(b.primary));
        assert(score >= 85) by (nonlinear_arith)
            requires
                (100 - score) * total <= 100 * d,
                100 * d <= 15 * total,
                total > 0,
        ;
    }
}

/// Two legacy parts score twice their longest common subsequence, in hundredths of both
/// lengths.
pub proof fn law_common_letters_tell_the_legacy_score(left: Seq<char>, right: Seq<char>)
    requires
        encode_utf8(left).len() + encode_utf8(right).len() > 0,
    ensures
        ({
            let total = encode_utf8(left).len() + encode_utf8(right).len();
            let common = common_subsequence(encode_utf8(left), encode_utf8(right));
            let score = subsequence_score(left, right);
            score <= 100 && score * total <= 200 * common < (score + 1) * total
        }),
{
    let a = encode_utf8(left);
    let b = encode_utf8(right);
    let total = a.len() + b.len();
    let common = common_subsequence(a, b);
    lemma_common_bound(a, b);
    let raw = common * 200 / total;
    lemma_fundamental_div_mod((common * 200) as int, total as int);
    assert(raw <= 100) by (nonlinear_arith)
        requires
            raw == common * 200 / total,
            2 * common <= total,
            total > 0,
    ;
    let rest = (common * 200) % total;
    assert(raw * total <= 200 * common && 200 * common < (raw + 1) * total) by (nonlinear_arith)
        requires
            common * 200 == total * raw + rest,
            rest < total,
    ;
}

/// A legacy signature is compared by both parts, seven tenths by the first and three tenths by
/// the second; where one block size is twice the other the parts may also stand crossed; other
/// block sizes are not alike.
pub proof fn law_legacy_signatures_weigh_both_parts(left: Seq<char>, right: Seq<char>)
    requires
        parsed_fuzzy(left) is Some,
        parsed_fuzzy(right) is Some,
        parsed_fuzzy(left)->0.legacy || parsed_fuzzy(right)->0.legacy,
    ensures
        ({
            let a = parsed_fuzzy(left)->0;
            let b = parsed_fuzzy(right)->0;
            let score = similarity(left, right);
            let direct = 70 * subsequence_score(a.primary, b.primary) + 30 * subsequence_score(
                a.secondary,
                b.secondary,
            );
            let crossed = 70 * subsequence_score(a.secondary, b.primary) + 30 * subsequence_score(
                a.primary,
                b.secondary,
            );
            let doubled = a.block_size == 2 * b.block_size || b.block_size == 2 * a.block_size;
            &&& a.block_size == b.block_size ==> 100 * score <= direct < 100 * (score + 1)
            &&& doubled ==> direct < 100 * (score + 1) && crossed < 100 * (score + 1) && (100
                * score <= direct || 100 * score <= crossed)
            &&& a.block_size != b.block_size && !doubled ==> score == 0
        }),
{
    reveal_with_fuel(is_doubled_three, 2);
}

/// What reads as a signature has a block size within the limit, which in the standard form is
/// three times a power of two, and two parts of letters of the alphabet, neither empty nor too
/// long.
pub proof fn law_signatures_are_well_formed(value: Seq<char>)
    requires
        parsed_fuzzy(value) is Some,
    ensures
        ({
            let p = parsed_fuzzy(value)->0;
            &&& 3 <= p.block_size <= 0x10_0000
            &&& !p.legacy ==> exists|k: nat| p.block_size == 3 * #[trigger] vstd::arithmetic::power2::pow2(k)
            &&& 1 <= p.primary.len() <= 64 && 1 <= p.secondary.len() <= 64
            &&& forall|i: int| 0 <= i < p.primary.len() ==> is_letter(#[trigger] p.primary[i])
            &&& forall|i: int| 0 <= i < p.secondary.len() ==> is_letter(#[trigger] p.secondary[i])
        }),
{
    let p = parsed_fuzzy(value)->0;
    reveal_with_fuel(is_doubled_three, 2);
    if !p.legacy {
        lemma_doubled_power(p.block_size);
    }
}

proof fn lemma_doubled_power(n: nat) -> (k: nat)
    requires
        is_doubled_three(n),
    ensures
        n == 3 * vstd::arithmetic::power2::pow2(k),
    decreases n,
{
    if n == 3 {
        vstd::arithmetic::power2::lemma2_to64();
        0
    } else {
        let k = lemma_doubled_power(n / 2);
        vstd::arithmetic::power2::lemma_pow2_unfold(k + 1);
        k + 1
    }
}

/// Some entry lists the signature as malicious.
pub open spec fn lists_signature(entries: Seq<FuzzyEntryView>, signature: Seq<char>) -> bool {
    exists|k: int|
        0 <= k < entries.len() && (#[trigger] entries[k]).is_malicious && entries[k].signature
            == signature
}

proof fn lemma_position(entries: Seq<FuzzyEntryView>, algorithm: Seq<char>, signature: Seq<char>)
    ensures
        0 <= fuzzy_position(entries, algorithm, signature) <= entries.len(),
        fuzzy_position(entries, algorithm, signature) < entries.len() ==> entries[fuzzy_position(
            entries,
            algorithm,
            signature,
        )].signature == signature,
    decreases entries.len(),
{
    if entries.len() > 0 && !(entries[0].algorithm == algorithm && entries[0].signature
        == signature) {
        lemma_position(entries.skip(1), algorithm, signature);
    }
}

/// A signature that is added as malicious is listed so, and what was listed stays.
proof fn lemma_signature_listed(
    matcher: MatcherView,
    added: Seq<char>,
    is_malicious: bool,
    source: Seq<char>,
    signature: Seq<char>,
)
    ensures
        lists_signature(matcher.add_fuzzy(added, is_malicious, source).fuzzy, signature) == (
        lists_signature(matcher.fuzzy, signature) || (is_malicious && added == signature)),
{
    let before = matcher.fuzzy;
    let name = crate::hash::similarity::fuzzy_name(added);
    let at = fuzzy_position(before, name, added);
    let after = matcher.add_fuzzy(added, is_malicious, source).fuzzy;
    lemma_position(before, name, added);
    if lists_signature(before, signature) {
        let k = choose|k: int|
            0 <= k < before.len() && (#[trigger] before[k]).is_malicious && before[k].signature
                == signature;
        assert(after[k].is_malicious && after[k].signature == signature);
    }
    if is_malicious && added == signature {
        assert(after[at].is_malicious && after[at].signature == signature);
    }
    if lists_signature(after, signature) {
        let k = choose|k: int|
            0 <= k < after.len() && (#[trigger] after[k]).is_malicious && after[k].signature
                == signature;
        if k < before.len() && k != at {
            assert(before[k] == after[k]);
        } else if k < before.len() {
            assert(before[k].signature == signature);
        }
    }
}

/// The row lists an exact hash as malicious.
pub open spec fn row_condemns(row: DbEntryView, hash: Seq<char>) -> bool {
    row.is_malicious && !names_fuzzy(row.algorithm) && normalized_hash(row.hash) == Some(hash)
}

/// The row lists a signature as malicious.
pub open spec fn row_condemns_like(row: DbEntryView, signature: Seq<char>) -> bool {
    row.is_malicious && names_fuzzy(row.algorithm) && normalized_fuzzy(row.hash) == Some(signature)
}

proof fn lemma_rows_listed(matcher: MatcherView, rows: Seq<DbEntryView>, text: Seq<char>)
    ensures
        lists_malicious(matcher.add_records(rows).exact, text) == (lists_malicious(
            matcher.exact,
            text,
        ) || exists|i: int| 0 <= i < rows.len() && row_condemns(#[trigger] rows[i], text)),
        lists_signature(matcher.add_records(rows).fuzzy, text) == (lists_signature(
            matcher.fuzzy,
            text,
        ) || exists|i: int| 0 <= i < rows.len() && row_condemns_like(#[trigger] rows[i], text)),
        matcher.add_records(rows).exact.contains_key(text) == (matcher.exact.contains_key(text)
            || exists|i: int|
            0 <= i < rows.len() && !names_fuzzy((#[trigger] rows[i]).algorithm) && normalized_hash(
                rows[i].hash,
            ) == Some(text)),
    decreases rows.len(),
{
    if rows.len() > 0 {
        let front = rows.drop_last();
        let row = rows.last();
        let before = matcher.add_records(front);
        lemma_rows_listed(matcher, front, text);
        assert(rows[rows.len() - 1] == row);
        assert(forall|i: int| 0 <= i < front.len() ==> front[i] == rows[i]);
        if names_fuzzy(row.algorithm) {
            if let Some(signature) = normalized_fuzzy(row.hash) {
                lemma_signature_listed(before, signature, row.is_malicious, row.source, text);
            }
        }
        if exists|i: int| 0 <= i < front.len() && row_condemns(#[trigger] front[i], text) {
            let i = choose|i: int| 0 <= i < front.len() && row_condemns(#[trigger] front[i], text);
            assert(row_condemns(rows[i], text));
        }
        if exists|i: int| 0 <= i < front.len() && row_condemns_like(#[trigger] front[i], text) {
            let i = choose|i: int|
                0 <= i < front.len() && row_condemns_like(#[trigger] front[i], text);
            assert(row_condemns_like(rows[i], text));
        }
        if exists|i: int|
            0 <= i < front.len() && !names_fuzzy((#[trigger] front[i]).algorithm)
                && normalized_hash(front[i].hash) == Some(text) {
            let i = choose|i: int|
                0 <= i < front.len() && !names_fuzzy((#[trigger] front[i]).algorithm)
                    && normalized_hash(front[i].hash) == Some(text);
            assert(!names_fuzzy(rows[i].algorithm) && normalized_hash(rows[i].hash) == Some(text));
        }
        if exists|i: int| 0 <= i < rows.len() && row_condemns(#[trigger] rows[i], text) {
            let i = choose|i: int| 0 <= i < rows.len() && row_condemns(#[trigger] rows[i], text);
            if i < front.len() {
                assert(row_condemns(front[i], text));
            }
        }
        if exists|i: int| 0 <= i < rows.len() && row_condemns_like(#[trigger] rows[i], text) {
            let i = choose|i: int|
                0 <= i < rows.len() && row_condemns_like(#[trigger] rows[i], text);
            if i < front.len() {
                assert(row_condemns_like(front[i], text));
            }
        }
        if exists|i: int|
            0 <= i < rows.len() && !names_fuzzy((#[trigger] rows[i]).algorithm) && normalized_hash(
                rows[i].hash,
            ) == Some(text) {
            let i = choose|i: int|
                0 <= i < rows.len() && !names_fuzzy((#[trigger] rows[i]).algorithm)
                    && normalized_hash(rows[i].hash) == Some(text);
            if i < front.len() {
                assert(!names_fuzzy(front[i].algorithm) && normalized_hash(front[i].hash) == Some(
                    text,
                ));
            }
        }
    }
}

/// The hash is one of the four that content has.
pub open spec fn is_hash_of(hash: Seq<char>, content: Seq<u8>) -> bool {
    hash == hex_text(md5_of(content)) || hash == hex_text(sha1_of(content)) || hash == hex_text(
        sha256_of(content),
    ) || hash == hex_text(sha512_of(content))
}

proof fn lemma_hash_of(hash: Seq<char>, content: Seq<u8>)
    ensures
        is_hash_of(hash, content) == content_hashes(content).contains(hash),
{
    let all = content_hashes(content);
    assert(all[0] == hex_text(sha512_of(content)));
    assert(all[1] == hex_text(sha256_of(content)));
    assert(all[2] == hex_text(sha1_of(content)));
    assert(all[3] == hex_text(md5_of(content)));
}

proof fn lemma_first(exact: Map<Seq<char>, (bool, Seq<Seq<char>>)>, hashes: Seq<Seq<char>>)
    ensures
        0 <= first_malicious(exact, hashes) <= hashes.len(),
        first_malicious(exact, hashes) < hashes.len() <==> exists|i: int|
            0 <= i < hashes.len() && lists_malicious(exact, #[trigger] hashes[i]),
        first_malicious(exact, hashes) < hashes.len() ==> lists_malicious(
            exact,
            hashes[first_malicious(exact, hashes)],
        ),
    decreases hashes.len(),
{
    if hashes.len() > 0 && !lists_malicious(exact, hashes[0]) {
        let rest = hashes.skip(1);
        lemma_first(exact, rest);
        if exists|i: int| 0 <= i < hashes.len() && lists_malicious(exact, #[trigger] hashes[i]) {
            let i = choose|i: int|
                0 <= i < hashes.len() && lists_malicious(exact, #[trigger] hashes[i]);
            assert(rest[i - 1] == hashes[i]);
        }
        if exists|i: int| 0 <= i < rest.len() && lists_malicious(exact, #[trigger] rest[i]) {
            let i = choose|i: int| 0 <= i < rest.len() && lists_malicious(exact, #[trigger] rest[i]);
            assert(hashes[i + 1] == rest[i]);
        }
    }
}

proof fn lemma_best(entries: Seq<FuzzyEntryView>, signature: Seq<char>)
    ensures
        match best_match(entries, signature) {
            Some((i, score)) => 0 <= i < entries.len() && entries[i].is_malicious && score
                == similarity(signature, entries[i].signature) && score >= 85,
            None => forall|k: int|
                0 <= k < entries.len() && (#[trigger] entries[k]).is_malicious ==> similarity(
                    signature,
                    entries[k].signature,
                ) < 85,
        },
    decreases entries.len(),
{
    if entries.len() > 0 {
        let front = entries.drop_last();
        lemma_best(front, signature);
        assert(forall|k: int| 0 <= k < front.len() ==> front[k] == entries[k]);
    }
}

/// Content is malicious by a database exactly where a row lists one of its four hashes as
/// malicious, or lists as malicious a signature that is at least 85 hundredths alike to that
/// of the content.
pub proof fn law_database_condemns(label: Seq<char>, rows: Seq<DbEntryView>, content: Seq<u8>)
    ensures
        (content_verdict(MatcherView::empty(label).add_records(rows), content)
            == BatchVerdict::Malicious) <==> {
            ||| exists|i: int, hash: Seq<char>|
                0 <= i < rows.len() && #[trigger] row_condemns(rows[i], hash) && is_hash_of(
                    hash,
                    content,
                )
            ||| exists|i: int, signature: Seq<char>|
                0 <= i < rows.len() && #[trigger] row_condemns_like(rows[i], signature)
                    && similarity(fuzzy_signature(content), signature) >= 85
        },
{
    let empty = MatcherView::empty(label);
    let filled = empty.add_records(rows);
    let hashes = content_hashes(content);
    let own = fuzzy_signature(content);
    lemma_first(filled.exact, hashes);
    lemma_best(filled.fuzzy, own);
    let by_hash = exists|i: int, hash: Seq<char>|
        0 <= i < rows.len() && #[trigger] row_condemns(rows[i], hash) && is_hash_of(hash, content);
    let by_likeness = exists|i: int, signature: Seq<char>|
        0 <= i < rows.len() && #[trigger] row_condemns_like(rows[i], signature) && similarity(
            own,
            signature,
        ) >= 85;
    if by_hash {
        let (i, hash) = choose|i: int, hash: Seq<char>|
            0 <= i < rows.len() && #[trigger] row_condemns(rows[i], hash) && is_hash_of(
                hash,
                content,
            );
        lemma_rows_listed(empty, rows, hash);
        lemma_hash_of(hash, content);
        let k = hashes.index_of(hash);
        assert(lists_malicious(filled.exact, hashes[k]));
    }
    if by_likeness {
        let (i, signature) = choose|i: int, signature: Seq<char>|
            0 <= i < rows.len() && #[trigger] row_condemns_like(rows[i], signature) && similarity(
                own,
                signature,
            ) >= 85;
        lemma_rows_listed(empty, rows, signature);
        let k = choose|k: int|
            0 <= k < filled.fuzzy.len() && (#[trigger] filled.fuzzy[k]).is_malicious
                && filled.fuzzy[k].signature == signature;
        assert(similarity(own, filled.fuzzy[k].signature) >= 85);
    }
    let at = first_malicious(filled.exact, hashes);
    if at < hashes.len() {
        let hash = hashes[at];
        lemma_rows_listed(empty, rows, hash);
        assert(hashes.contains(hash));
        lemma_hash_of(hash, content);
        let i = choose|i: int| 0 <= i < rows.len() && row_condemns(#[trigger] rows[i], hash);
        assert(row_condemns(rows[i], hash));
    } else if let Some((k, score)) = best_match(filled.fuzzy, own) {
        let signature = filled.fuzzy[k].signature;
        lemma_rows_listed(empty, rows, signature);
        assert(lists_signature(filled.fuzzy, signature));
        let i = choose|i: int|
            0 <= i < rows.len() && row_condemns_like(#[trigger] rows[i], signature);
        assert(row_condemns_like(rows[i], signature));
    }
}

/// Content that a database does not condemn is clean exactly where a row lists one of its four
/// hashes; a signature alone clears nothing.
pub proof fn law_database_clears(label: Seq<char>, rows: Seq<DbEntryView>, content: Seq<u8>)
    requires
        content_verdict(MatcherView::empty(label).add_records(rows), content)
            != BatchVerdict::Malicious,
    ensures
        (content_verdict(MatcherView::empty(label).add_records(rows), content)
            == BatchVerdict::Clean) <==> exists|i: int|
            0 <= i < rows.len() && !names_fuzzy((#[trigger] rows[i]).algorithm) && normalized_hash(
                rows[i].hash,
            ) is Some && is_hash_of(normalized_hash(rows[i].hash)->0, content),
{
    let empty = MatcherView::empty(label);
    let filled = empty.add_records(rows);
    let hashes = content_hashes(content);
    if is_listed(filled.exact, hashes) {
        let k = choose|k: int| 0 <= k < hashes.len() && filled.exact.contains_key(#[trigger] hashes[k]);
        lemma_rows_listed(empty, rows, hashes[k]);
        assert(hashes.contains(hashes[k]));
        lemma_hash_of(hashes[k], content);
        let i = choose|i: int|
            0 <= i < rows.len() && !names_fuzzy((#[trigger] rows[i]).algorithm) && normalized_hash(
                rows[i].hash,
            ) == Some(hashes[k]);
        assert(!names_fuzzy(rows[i].algorithm));
    }
    if exists|i: int|
        0 <= i < rows.len() && !names_fuzzy((#[trigger] rows[i]).algorithm) && normalized_hash(
            rows[i].hash,
        ) is Some && is_hash_of(normalized_hash(rows[i].hash)->0, content) {
        let i = choose|i: int|
            0 <= i < rows.len() && !names_fuzzy((#[trigger] rows[i]).algorithm) && normalized_hash(
                rows[i].hash,
            ) is Some && is_hash_of(normalized_hash(rows[i].hash)->0, content);
        let hash = normalized_hash(rows[i].hash)->0;
        lemma_rows_listed(empty, rows, hash);
        lemma_hash_of(hash, content);
        let k = hashes.index_of(hash);
        assert(filled.exact.contains_key(hashes[k]));
    }
}

/// A match by an exact hash is one of the content's own hashes and is entire; a match by a
/// signature tells how alike it is, 85 hundredths at least.
pub proof fn law_match_tells_what_matched(matcher: MatcherView, content: Seq<u8>)
    requires
        content_match(matcher, content) is Some,
    ensures
        ({
            let found = content_match(matcher, content)->0;
            ||| found.algorithm == "exact"@ && found.similarity == 100 && is_hash_of(
                found.hash,
                content,
            ) && lists_malicious(matcher.exact, found.hash) && found.label == matcher.label
                && found.sources == matcher.exact[found.hash].1
            ||| found.hash == fuzzy_signature(content) && exists|i: int|
                0 <= i < matcher.fuzzy.len() && (#[trigger] matcher.fuzzy[i]).is_malicious
                    && found.similarity as nat == similarity(found.hash, matcher.fuzzy[i].signature)
                    && found.similarity >= 85 && found.label == matcher.fuzzy[i].label
                    && found.algorithm == matcher.fuzzy[i].algorithm && found.sources
                    == matcher.fuzzy[i].sources
        }),
{
    let hashes = content_hashes(content);
    let found = content_match(matcher, content)->0;
    lemma_first(matcher.exact, hashes);
    lemma_best(matcher.fuzzy, fuzzy_signature(content));
    let at = first_malicious(matcher.exact, hashes);
    if at < hashes.len() {
        assert(hashes.contains(hashes[at]));
        lemma_hash_of(hashes[at], content);
    } else {
        let (i, score) = best_match(matcher.fuzzy, fuzzy_signature(content))->0;
        lemma_similarity_bound(fuzzy_signature(content), matcher.fuzzy[i].signature);
        assert(matcher.fuzzy[i].is_malicious);
    }
}

proof fn lemma_part_bound(left: Seq<char>, right: Seq<char>, block_size: nat)
    ensures
        part_score(left, right, block_size) <= 100,
{
}

proof fn lemma_similarity_bound(left: Seq<char>, right: Seq<char>)
    ensures
        similarity(left, right) <= 100,
{
    if parsed_fuzzy(left) is Some && parsed_fuzzy(right) is Some {
        let a = parsed_fuzzy(left)->0;
        let b = parsed_fuzzy(right)->0;
        lemma_part_bound(a.primary, b.primary, a.block_size);
        lemma_part_bound(a.secondary, b.secondary, 2 * a.block_size);
        lemma_part_bound(a.primary, b.secondary, a.block_size);
        lemma_part_bound(b.primary, a.secondary, b.block_size);
    }
}

} // verus!
