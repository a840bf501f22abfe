//! Reading fuzzy signatures and telling how alike two of them are.

use crate::hash::distance::{common_subsequence, edit_distance, least, short_runs, share_seven};
use crate::hash::distance::{has_common_substring_7, levenshtein, longest_common, trim_repeated};
use crate::hash::distance::{law_common_with_itself, lemma_common_bound, lemma_distance_bound};
use crate::hash::error::HashError;
use crate::hash::fuzzy::{first_block_size, fuzzy_signature, is_doubled_three, is_letter, is_part};
use crate::hash::fuzzy::{law_parts_are_bounded, lemma_doubled_threes, modulus_of, primary_part};
use crate::hash::fuzzy::{secondary_part, signature_from, signature_text};
use crate::text::{begins_with, chars_of, parse_unsigned, parsed_unsigned, same_text, split_by};
use crate::text::{is_white, split, stands_at, texts, trim, trim_start_chars, trimmed};
use crate::text::{decimal, is_digit, lemma_decimal, lemma_split_piece, lemma_trimmed};
use crate::text::{unsigned_body, without_leading};
use vstd::prelude::*;
use vstd::utf8::{encode_utf8, is_ascii_chars, is_ascii_chars_encode_utf8};

verus! {

/// Signatures at least this alike match.
pub const FUZZY_MATCH_THRESHOLD: u8 = 85;

/// The largest block size that a signature may have.
pub const FUZZY_MAX_BLOCK_SIZE: u64 = 0x10_0000;

/// A signature in parts.
#[derive(Debug)]
pub struct ParsedFuzzy {
    pub block_size: usize,
    pub primary: String,
    pub secondary: String,
    pub legacy: bool,
}

pub struct FuzzyView {
    pub block_size: nat,
    pub primary: Seq<char>,
    pub secondary: Seq<char>,
    pub legacy: bool,
}

impl View for ParsedFuzzy {
    type V = FuzzyView;

    open spec fn view(&self) -> FuzzyView {
        FuzzyView {
            block_size: self.block_size as nat,
            primary: self.primary@,
            secondary: self.secondary@,
            legacy: self.legacy,
        }
    }
}

/// Between one and `limit` letters of the signature alphabet.
pub open spec fn is_signature(part: Seq<char>, limit: nat) -> bool {
    1 <= part.len() <= limit && forall|i: int|
        0 <= i < part.len() ==> is_letter(#[trigger] part[i])
}

/// Three times a power of two, up to the largest block size.
pub open spec fn is_standard_block(n: nat) -> bool {
    n <= FUZZY_MAX_BLOCK_SIZE && is_doubled_three(n)
}

/// The signature that the fields write, if they write one.
pub open spec fn signature_of(
    block: Seq<char>,
    primary: Seq<char>,
    secondary: Seq<char>,
    legacy: bool,
) -> Option<FuzzyView> {
    let limit: nat = if legacy {
        64
    } else {
        63
    };
    match parsed_unsigned(block, FUZZY_MAX_BLOCK_SIZE as nat) {
        Some(n) => {
            if (if legacy {
                n >= 3
            } else {
                is_standard_block(n)
            }) && is_signature(primary, limit) && is_signature(secondary, limit) {
                Some(FuzzyView { block_size: n, primary, secondary, legacy })
            } else {
                None
            }
        },
        None => None,
    }
}

/// The signature that a text writes: `block:primary:secondary`, or the same after
/// `ssdeep-lite:` in the legacy form.
pub open spec fn parsed_fuzzy(value: Seq<char>) -> Option<FuzzyView> {
    let parts = split_by(trimmed(value), ':');
    if parts.len() == 4 && parts[0] == "ssdeep-lite"@ {
        signature_of(parts[1], parts[2], parts[3], true)
    } else if parts.len() == 3 {
        signature_of(parts[0], parts[1], parts[2], false)
    } else {
        None
    }
}

fn letter_like(c: char) -> (b: bool)
    ensures
        b == is_letter(c),
{
    ('A' <= c && c <= 'Z') || ('a' <= c && c <= 'z') || ('0' <= c && c <= '9') || c == '+' || c
        == '/'
}

fn valid_signature(part: &str, limit: usize) -> (b: bool)
    ensures
        b == is_signature(part@, limit as nat),
{
    let chars = chars_of(part);
    if chars.len() == 0 || chars.len() > limit {
        return false;
    }
    let mut i: usize = 0;
    while i < chars.len()
        invariant
            i <= chars@.len(),
            chars@ == part@,
            forall|k: int| 0 <= k < i ==> is_letter(#[trigger] part@[k]),
        decreases chars@.len() - i,
    {
        if !letter_like(chars[i]) {
            assert(!is_letter(part@[i as int]));
            return false;
        }
        i = i + 1;
    }
    true
}

pub fn is_standard_ssdeep_block_size(block_size: usize) -> (b: bool)
    ensures
        b == is_standard_block(block_size as nat),
{
    if block_size > FUZZY_MAX_BLOCK_SIZE as usize {
        return false;
    }
    let mut n: usize = block_size;
    while n > 3 && n % 2 == 0
        invariant
            n <= block_size,
            is_doubled_three(n as nat) == is_doubled_three(block_size as nat),
        decreases n,
    {
        n = n / 2;
    }
    n == 3
}

/// The signature that the fields write, if they write one.
fn read_signature(block: &str, primary: &str, secondary: &str, legacy: bool) -> (parsed: Option<
    ParsedFuzzy,
>)
    ensures
        match parsed {
            Some(p) => signature_of(block@, primary@, secondary@, legacy) == Some(p@),
            None => signature_of(block@, primary@, secondary@, legacy) is None,
        },
{
    let digits = chars_of(block);
    match parse_unsigned(&digits, FUZZY_MAX_BLOCK_SIZE) {
        Some(n) => {
            assert(n <= 0x10_0000);
            let block_size: usize = n as usize;
            let valid_block = if legacy {
                block_size >= 3
            } else {
                is_standard_ssdeep_block_size(block_size)
            };
            let limit: usize = if legacy {
                64
            } else {
                63
            };
            if valid_block && valid_signature(primary, limit) && valid_signature(secondary, limit) {
                Some(
                    ParsedFuzzy {
                        block_size,
                        primary: primary.to_owned(),
                        secondary: secondary.to_owned(),
                        legacy,
                    },
                )
            } else {
                None
            }
        },
        None => None,
    }
}

/// The signature that a text writes.
pub fn parse_fuzzy_signature(value: &str) -> (parsed: Result<ParsedFuzzy, HashError>)
    ensures
        match parsed {
            Ok(p) => parsed_fuzzy(value@) == Some(p@),
            Err(HashError::InvalidFuzzyHash { value: shown }) => parsed_fuzzy(value@) is None
                && shown@ == value@,
            Err(_) => false,
        },
{
    let body = trim(value);
    let parts = split(body.as_str(), ':');
    let ghost views = texts(parts@);
    assert(forall|i: int| 0 <= i < parts@.len() ==> views[i] == (#[trigger] parts@[i])@);
    let parsed = if parts.len() == 4 && same_text(parts[0].as_str(), "ssdeep-lite") {
        read_signature(parts[1].as_str(), parts[2].as_str(), parts[3].as_str(), true)
    } else if parts.len() == 3 {
        read_signature(parts[0].as_str(), parts[1].as_str(), parts[2].as_str(), false)
    } else {
        None
    };
    match parsed {
        Some(p) => Ok(p),
        None => Err(HashError::InvalidFuzzyHash { value: value.to_owned() }),
    }
}

/// The signature text without the white space around it.
pub open spec fn normalized_fuzzy(value: Seq<char>) -> Option<Seq<char>> {
    if parsed_fuzzy(value) is Some {
        Some(trimmed(value))
    } else {
        None
    }
}

pub fn normalize_fuzzy_hash(value: &str) -> (r: Result<String, HashError>)
    ensures
        match r {
            Ok(text) => normalized_fuzzy(value@) == Some(text@),
            Err(HashError::InvalidFuzzyHash { value: shown }) => normalized_fuzzy(value@) is None
                && shown@ == value@,
            Err(_) => false,
        },
{
    match parse_fuzzy_signature(value) {
        Ok(_) => Ok(trim(value)),
        Err(error) => Err(error),
    }
}

/// The name of the form that a signature is written in.
pub open spec fn fuzzy_name(signature: Seq<char>) -> Seq<char> {
    if begins_with(
        without_leading(signature, |c: char| is_white(c)),
        "ssdeep-lite:"@,
    ) {
        "ssdeep-lite"@
    } else {
        "ssdeep"@
    }
}

pub fn fuzzy_algorithm_name(signature: &str) -> (name: String)
    ensures
        name@ == fuzzy_name(signature@),
{
    let chars = chars_of(signature);
    let body = trim_start_chars(&chars);
    let prefix = chars_of("ssdeep-lite:");
    if stands_at(&body, &prefix, 0) {
        "ssdeep-lite".to_owned()
    } else {
        "ssdeep".to_owned()
    }
}

/// How alike two parts are, in hundredths: none where they share no seven letters in a
/// row; else what the edit distance leaves, bounded for small blocks.
pub open spec fn part_score(left: Seq<char>, right: Seq<char>, block_size: nat) -> nat {
    let a = short_runs(encode_utf8(left));
    let b = short_runs(encode_utf8(right));
    if left == right {
        100
    } else if a.len() < 7 || b.len() < 7 || !share_seven(a, b) {
        0
    } else {
        let lost = edit_distance(a, b) * 100 / (a.len() + b.len());
        let kept = if lost <= 100 {
            (100 - lost) as nat
        } else {
            0
        };
        if block_size < 45 {
            least(kept, block_size / 3 * least(a.len(), b.len()))
        } else {
            kept
        }
    }
}

/// How alike two legacy parts are: twice the common subsequence in hundredths of both
/// lengths.
pub open spec fn subsequence_score(left: Seq<char>, right: Seq<char>) -> nat {
    let a = encode_utf8(left);
    let b = encode_utf8(right);
    if a.len() == 0 && b.len() == 0 {
        100
    } else {
        least(100, common_subsequence(a, b) * 200 / (a.len() + b.len()))
    }
}

pub open spec fn weighted_score(
    left_primary: Seq<char>,
    left_secondary: Seq<char>,
    right_primary: Seq<char>,
    right_secondary: Seq<char>,
) -> nat {
    (subsequence_score(left_primary, right_primary) * 70 + subsequence_score(
        left_secondary,
        right_secondary,
    ) * 30) / 100
}

pub open spec fn larger(a: nat, b: nat) -> nat {
    if a >= b {
        a
    } else {
        b
    }
}

/// Signatures of the same block size, or of one twice the other, can be compared.
pub open spec fn standard_score(left: FuzzyView, right: FuzzyView) -> nat {
    if left.block_size == right.block_size {
        larger(
            part_score(left.primary, right.primary, left.block_size),
            part_score(left.secondary, right.secondary, 2 * left.block_size),
        )
    } else if left.block_size == 2 * right.block_size {
        part_score(left.primary, right.secondary, left.block_size)
    } else if right.block_size == 2 * left.block_size {
        part_score(right.primary, left.secondary, right.block_size)
    } else {
        0
    }
}

pub open spec fn legacy_score(left: FuzzyView, right: FuzzyView) -> nat {
    let direct = weighted_score(left.primary, left.secondary, right.primary, right.secondary);
    let crossed = weighted_score(left.secondary, left.primary, right.primary, right.secondary);
    if left.block_size == right.block_size {
        direct
    } else if left.block_size == 2 * right.block_size || right.block_size == 2 * left.block_size {
        larger(direct, crossed)
    } else {
        0
    }
}

/// How alike two signatures are, from 0 to 100; nothing that is no signature is alike to
/// anything.
pub open spec fn similarity(left: Seq<char>, right: Seq<char>) -> nat {
    match (parsed_fuzzy(left), parsed_fuzzy(right)) {
        (Some(a), Some(b)) => {
            if a.legacy || b.legacy {
                legacy_score(a, b)
            } else {
                standard_score(a, b)
            }
        },
        _ => 0,
    }
}

pub proof fn lemma_signature_bytes(part: Seq<char>, limit: nat)
    requires
        is_signature(part, limit),
    ensures
        encode_utf8(part).len() == part.len(),
{
    assert(is_ascii_chars(part)) by {
        assert forall|i: int| 0 <= i < part.len() implies (0 <= #[trigger] part[i] < 128) by {
            assert(is_letter(part[i]));
        }
    }
    is_ascii_chars_encode_utf8(part);
}

fn score_strings(left: &str, right: &str, block_size: usize) -> (score: u8)
    requires
        encode_utf8(left@).len() <= 64,
        encode_utf8(right@).len() <= 64,
        block_size <= 0x20_0000,
    ensures
        score == part_score(left@, right@, block_size as nat),
        score <= 100,
{
    if same_text(left, right) {
        return 100;
    }
    let a = trim_repeated(left.as_bytes());
    let b = trim_repeated(right.as_bytes());
    if a.len() < 7 || b.len() < 7 || !has_common_substring_7(&a, &b) {
        return 0;
    }
    proof {
        lemma_distance_bound(a@, b@);
    }
    let distance: u32 = levenshtein(&a, &b);
    let total: u32 = (a.len() + b.len()) as u32;
    let lost: u32 = distance * 100 / total;
    let mut score: u32 = if lost <= 100 {
        100 - lost
    } else {
        0
    };
    if block_size < 45 {
        let shorter: usize = if a.len() <= b.len() {
            a.len()
        } else {
            b.len()
        };
        let blocks: u32 = block_size as u32 / 3;
        assert(blocks * shorter <= 14 * 64) by (nonlinear_arith)
            requires
                blocks <= 14,
                shorter <= 64,
        ;
        let cap: u32 = blocks * shorter as u32;
        if cap < score {
            score = cap;
        }
    }
    score as u8
}

fn lcs_similarity(left: &str, right: &str) -> (score: u8)
    requires
        encode_utf8(left@).len() <= 64,
        encode_utf8(right@).len() <= 64,
    ensures
        score == subsequence_score(left@, right@),
        score <= 100,
{
    let a = left.as_bytes();
    let b = right.as_bytes();
    if a.len() == 0 && b.len() == 0 {
        return 100;
    }
    proof {
        lemma_common_bound(a@, b@);
    }
    let common: u16 = longest_common(a, b);
    let total: u16 = (a.len() + b.len()) as u16;
    let score: u16 = common * 200 / total;
    if score >= 100 {
        100
    } else {
        score as u8
    }
}

fn weighted_signature_similarity(
    left_primary: &str,
    left_secondary: &str,
    right_primary: &str,
    right_secondary: &str,
) -> (score: u8)
    requires
        encode_utf8(left_primary@).len() <= 64,
        encode_utf8(left_secondary@).len() <= 64,
        encode_utf8(right_primary@).len() <= 64,
        encode_utf8(right_secondary@).len() <= 64,
    ensures
        score == weighted_score(
            left_primary@,
            left_secondary@,
            right_primary@,
            right_secondary@,
        ),
        score <= 100,
{
    let primary: u16 = lcs_similarity(left_primary, right_primary) as u16;
    let secondary: u16 = lcs_similarity(left_secondary, right_secondary) as u16;
    ((primary * 70 + secondary * 30) / 100) as u8
}

/// What parsing leaves of the parts.
spec fn is_bounded(p: FuzzyView) -> bool {
    p.block_size <= 0x10_0000 && encode_utf8(p.primary).len() <= 64 && encode_utf8(
        p.secondary,
    ).len() <= 64
}

proof fn lemma_parsed_bounded(value: Seq<char>)
    ensures
        parsed_fuzzy(value) matches Some(p) ==> is_bounded(p),
{
    if let Some(p) = parsed_fuzzy(value) {
        let limit: nat = if p.legacy {
            64
        } else {
            63
        };
        lemma_signature_bytes(p.primary, limit);
        lemma_signature_bytes(p.secondary, limit);
    }
}

fn standard_similarity(left: &ParsedFuzzy, right: &ParsedFuzzy) -> (score: u8)
    requires
        is_bounded(left@),
        is_bounded(right@),
    ensures
        score == standard_score(left@, right@),
        score <= 100,
{
    if left.block_size == right.block_size {
        let primary: u8 = score_strings(
            left.primary.as_str(),
            right.primary.as_str(),
            left.block_size,
        );
        let secondary: u8 = score_strings(
            left.secondary.as_str(),
            right.secondary.as_str(),
            left.block_size * 2,
        );
        if primary >= secondary {
            primary
        } else {
            secondary
        }
    } else if left.block_size == right.block_size * 2 {
        score_strings(left.primary.as_str(), right.secondary.as_str(), left.block_size)
    } else if right.block_size == left.block_size * 2 {
        score_strings(right.primary.as_str(), left.secondary.as_str(), right.block_size)
    } else {
        0
    }
}

fn legacy_similarity(left: &ParsedFuzzy, right: &ParsedFuzzy) -> (score: u8)
    requires
        is_bounded(left@),
        is_bounded(right@),
    ensures
        score == legacy_score(left@, right@),
        score <= 100,
{
    let doubled = left.block_size == right.block_size * 2 || right.block_size == left.block_size
        * 2;
    if left.block_size != right.block_size && !doubled {
        return 0;
    }
    let direct: u8 = weighted_signature_similarity(
        left.primary.as_str(),
        left.secondary.as_str(),
        right.primary.as_str(),
        right.secondary.as_str(),
    );
    if left.block_size == right.block_size {
        return direct;
    }
    let crossed: u8 = weighted_signature_similarity(
        left.secondary.as_str(),
        left.primary.as_str(),
        right.primary.as_str(),
        right.secondary.as_str(),
    );
    if direct >= crossed {
        direct
    } else {
        crossed
    }
}

/// How alike two signatures are, from 0 to 100.
pub fn fuzzy_similarity(left: &str, right: &str) -> (score: u8)
    ensures
        score == similarity(left@, right@),
        score <= 100,
{
    proof {
        lemma_parsed_bounded(left@);
        lemma_parsed_bounded(right@);
    }
    let a = match parse_fuzzy_signature(left) {
        Ok(p) => p,
        Err(_) => {
            return 0;
        },
    };
    let b = match parse_fuzzy_signature(right) {
        Ok(p) => p,
        Err(_) => {
            return 0;
        },
    };
    if a.legacy || b.legacy {
        legacy_similarity(&a, &b)
    } else {
        standard_similarity(&a, &b)
    }
}

/// A signature is entirely alike to itself, in either form.
pub proof fn law_signature_is_alike_to_itself(value: Seq<char>)
    requires
        parsed_fuzzy(value) is Some,
    ensures
        similarity(value, value) == 100,
{
    let p = parsed_fuzzy(value)->0;
    let limit: nat = if p.legacy {
        64
    } else {
        63
    };
    lemma_signature_bytes(p.primary, limit);
    lemma_signature_bytes(p.secondary, limit);
    lemma_self_score(p.primary);
    lemma_self_score(p.secondary);
    assert(part_score(p.primary, p.primary, p.block_size) == 100);
    assert(part_score(p.secondary, p.secondary, 2 * p.block_size) == 100);
}

proof fn lemma_self_score(part: Seq<char>)
    requires
        encode_utf8(part).len() > 0,
    ensures
        subsequence_score(part, part) == 100,
{
    let n = encode_utf8(part).len();
    law_common_with_itself(encode_utf8(part));
    assert(n * 200 / (n + n) == 100) by (nonlinear_arith)
        requires
            n > 0,
    ;
}

/// The block sizes that a signature of the content can have are standard ones.
proof fn lemma_block_sizes(s: Seq<u8>, block_size: nat)
    requires
        is_doubled_three(block_size),
    ensures
        is_doubled_three(signature_from(s, block_size).0),
        signature_from(s, block_size).0 <= block_size,
        signature_from(s, block_size).1 == primary_part(s, signature_from(s, block_size).0),
        signature_from(s, block_size).2 == secondary_part(s, signature_from(s, block_size).0),
    decreases block_size,
{
    if block_size > 3 && primary_part(s, block_size).len() < 32 {
        lemma_block_sizes(s, block_size / 2);
    }
}

proof fn lemma_first_block(size: nat, block_size: nat)
    requires
        is_doubled_three(block_size),
        block_size <= 786_432,
        size <= 64 * 786_432,
    ensures
        is_doubled_three(first_block_size(size, block_size)),
        first_block_size(size, block_size) <= 786_432,
    decreases size - block_size,
{
    if 64 * block_size < size {
        assert(is_doubled_three(786_432)) by {
            reveal_with_fuel(is_doubled_three, 20);
        }
        lemma_doubled_threes(block_size, 786_432);
        assert(is_doubled_three(2 * block_size));
        lemma_first_block(size, 2 * block_size);
    }
}

proof fn lemma_signature_reads_back(block_size: nat, primary: Seq<char>, secondary: Seq<char>)
    requires
        is_standard_block(block_size),
        is_part(primary),
        is_part(secondary),
    ensures
        parsed_fuzzy(signature_text(block_size, primary, secondary)) == Some(
            (FuzzyView { block_size, primary, secondary, legacy: false }),
        ),
{
    let digits = decimal(block_size);
    let text = signature_text(block_size, primary, secondary);
    reveal_strlit(":");
    lemma_decimal(block_size);
    assert(text.last() == secondary.last());
    assert(is_letter(secondary[secondary.len() - 1]));
    assert(is_digit(digits[0]));
    assert(text[0] == digits[0]);
    lemma_trimmed(text);
    assert(!digits.contains(':')) by {
        if digits.contains(':') {
            let i = choose|i: int| 0 <= i < digits.len() && digits[i] == ':';
            assert(is_digit(digits[i]));
        }
    }
    lemma_no_colon(primary);
    lemma_no_colon(secondary);
    let front = digits.push(':') + primary;
    assert(text =~= front.push(':') + secondary);
    lemma_split_piece(front, ':', secondary);
    lemma_split_piece(digits, ':', primary);
    lemma_split_piece(Seq::empty(), ':', digits);
    assert(split_by(text, ':') =~= seq![digits, primary, secondary]);
    assert(digits[0] != '+');
    assert(unsigned_body(digits) == digits);
}

proof fn lemma_no_colon(part: Seq<char>)
    requires
        is_part(part),
    ensures
        !part.contains(':'),
{
    if part.contains(':') {
        let i = choose|i: int| 0 <= i < part.len() && part[i] == ':';
        assert(is_letter(part[i]));
    }
}

/// The signature of some content reads back as the standard signature that it was written
/// from, up to the content size from which block sizes leave the standard range.
pub proof fn law_generated_signature_reads_back(s: Seq<u8>)
    requires
        s.len() <= 64 * 786_432,
    ensures
        ({
            let (block_size, primary, secondary) = signature_from(s, first_block_size(s.len(), 3));
            parsed_fuzzy(fuzzy_signature(s)) == Some(
                FuzzyView { block_size, primary, secondary, legacy: false },
            )
        }),
{
    let first = first_block_size(s.len(), 3);
    lemma_first_block(s.len(), 3);
    lemma_block_sizes(s, first);
    let (block_size, primary, secondary) = signature_from(s, first);
    law_parts_are_bounded(s, modulus_of(block_size));
    law_parts_are_bounded(s, modulus_of(2 * block_size));
    lemma_signature_reads_back(block_size, primary, secondary);
}

/// Equal contents have entirely alike signatures.
pub proof fn law_equal_contents_match(s: Seq<u8>)
    requires
        s.len() <= 64 * 786_432,
    ensures
        similarity(fuzzy_signature(s), fuzzy_signature(s)) == 100,
{
    law_generated_signature_reads_back(s);
    law_signature_is_alike_to_itself(fuzzy_signature(s));
}

} // verus!
