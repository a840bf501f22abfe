//! Bounded, non-executing unpacking and de-obfuscation assessment.
//!
//! Nothing here runs a sample, loads a decoded image or keeps a decoded payload. The
//! module recognises common packer markers and decodes small candidates in memory, so
//! that the heuristic layer can correlate them with other evidence.

use crate::bytes::{copy_range, has_narrow, holds_narrow, read_u32, u32_at};
use crate::score::{add_up, sum_terms, Score, ONE_UNITS};
use crate::text::{concat2, decimal, decimal_text, push_text, texts};
use vstd::prelude::*;

verus! {

#[derive(Debug, Clone, Copy, PartialEq, Eq, Structural)]
pub enum PackerFamily {
    Upx,
    Aspack,
    Themida,
    VmProtect,
    Generic,
}

#[derive(Debug, Clone)]
pub struct UnpackingAssessment {
    pub packer: Option<PackerFamily>,
    pub packer_confidence: u8,
    pub decoded_string_count: usize,
    pub decoded_payload_count: usize,
    pub indicators: Vec<String>,
}

pub const MAX_HEADER_SCAN_BYTES: usize = 0x80_0000;

pub const MAX_XOR_SCAN_BYTES: usize = 0x20_0000;

pub const MAX_BASE64_CANDIDATES: usize = 64;

pub const MIN_BASE64_TOKEN_BYTES: usize = 24;

pub const MAX_BASE64_TOKEN_BYTES: usize = 4096;

pub const MAX_DECODED_BYTES: usize = 0x10_0000;

pub const MAX_XOR_PAYLOADS: usize = 32;

pub const MAX_XOR_STRINGS: usize = 8;

pub const XOR_TEXT_BYTES: usize = 128;

pub open spec fn min_len(n: nat, limit: nat) -> int {
    if n < limit {
        n as int
    } else {
        limit as int
    }
}

/// The byte that stands for a six-bit value.
pub open spec fn base64_symbol(v: u8) -> u8 {
    if v < 26 {
        (65 + v) as u8
    } else if v < 52 {
        (97 + v - 26) as u8
    } else if v < 62 {
        (48 + v - 52) as u8
    } else if v == 62 {
        43
    } else {
        47
    }
}

/// The six-bit value of a base64 byte; padding counts as zero.
pub open spec fn base64_digit(b: u8) -> Option<u8> {
    if 65 <= b <= 90 {
        Some((b - 65) as u8)
    } else if 97 <= b <= 122 {
        Some((b - 97 + 26) as u8)
    } else if 48 <= b <= 57 {
        Some((b - 48 + 52) as u8)
    } else if b == 43 {
        Some(62)
    } else if b == 47 {
        Some(63)
    } else if b == 61 {
        Some(0)
    } else {
        None
    }
}

pub open spec fn is_base64(b: u8) -> bool {
    base64_digit(b) is Some
}

/// Four base64 bytes for one to three bytes.
pub open spec fn base64_group(chunk: Seq<u8>) -> Seq<u8> {
    let a = chunk[0];
    let b = if chunk.len() > 1 {
        chunk[1]
    } else {
        0
    };
    let c = if chunk.len() > 2 {
        chunk[2]
    } else {
        0
    };
    seq![
        base64_symbol(a / 4),
        base64_symbol(((a % 4) * 16 + b / 16) as u8),
        if chunk.len() > 1 {
            base64_symbol(((b % 16) * 4 + c / 64) as u8)
        } else {
            61
        },
        if chunk.len() > 2 {
            base64_symbol(c % 64)
        } else {
            61
        },
    ]
}

/// The base64 encoding with padding.
pub open spec fn base64_encoded(data: Seq<u8>) -> Seq<u8>
    decreases data.len(),
{
    if data.len() == 0 {
        Seq::empty()
    } else {
        let n = min_len(data.len(), 3);
        base64_group(data.take(n)) + base64_encoded(data.skip(n))
    }
}

/// The bytes of one group of four base64 bytes.
pub open spec fn base64_group_bytes(g: Seq<u8>) -> Option<Seq<u8>> {
    match (base64_digit(g[0]), base64_digit(g[1]), base64_digit(g[2]), base64_digit(g[3])) {
        (Some(v0), Some(v1), Some(v2), Some(v3)) => Some(
            seq![(v0 * 4 + v1 / 16) as u8] + (if g[2] != 61 {
                seq![((v1 % 16) * 16 + v2 / 4) as u8]
            } else {
                Seq::empty()
            }) + (if g[3] != 61 {
                seq![((v2 % 4) * 64 + v3) as u8]
            } else {
                Seq::empty()
            }),
        ),
        _ => None,
    }
}

/// The bytes of all the groups, if every byte is a base64 byte.
pub open spec fn base64_groups_bytes(input: Seq<u8>) -> Option<Seq<u8>>
    decreases input.len(),
{
    if input.len() < 4 {
        Some(Seq::empty())
    } else {
        match (base64_group_bytes(input.take(4)), base64_groups_bytes(input.skip(4))) {
            (Some(first), Some(rest)) => Some(first + rest),
            _ => None,
        }
    }
}

/// The decoding of a padded base64 token that is not too long.
pub open spec fn base64_decoded(input: Seq<u8>) -> Option<Seq<u8>> {
    if input.len() == 0 || input.len() % 4 != 0 || input.len() / 4 * 3 > MAX_DECODED_BYTES {
        None
    } else {
        base64_groups_bytes(input)
    }
}

/// The buffer starts with a DOS header that leads to a PE signature inside it.
pub open spec fn pe_shaped(data: Seq<u8>) -> bool {
    &&& data.len() >= 0x40
    &&& data[0] == 0x4D
    &&& data[1] == 0x5A
    &&& pe_signature_at(data, u32_at(data, 0x3c) as int)
}

/// The four signature bytes of a PE header stand at `at`.
pub open spec fn pe_signature_at(data: Seq<u8>, at: int) -> bool {
    &&& 0 <= at
    &&& at + 4 <= data.len()
    &&& data[at] == 0x50
    &&& data[at + 1] == 0x45
    &&& data[at + 2] == 0
    &&& data[at + 3] == 0
}

/// The bytes spell a command or network marker, in any ASCII case. Decoding them as
/// text neither merges nor alters an ASCII byte, so the bytes decide.
pub open spec fn interesting_text(data: Seq<u8>) -> bool {
    ||| holds_narrow(data, "http://"@)
    ||| holds_narrow(data, "https://"@)
    ||| holds_narrow(data, "powershell"@)
    ||| holds_narrow(data, "cmd.exe"@)
    ||| holds_narrow(data, "rundll32"@)
    ||| holds_narrow(data, "regsvr32"@)
    ||| holds_narrow(data, "appdata"@)
    ||| holds_narrow(data, "cookie"@)
}

/// The first position from `at` on that holds no base64 byte.
pub open spec fn run_end(data: Seq<u8>, at: int) -> int
    decreases data.len() - at,
{
    if 0 <= at < data.len() && is_base64(data[at]) {
        run_end(data, at + 1)
    } else {
        at
    }
}

/// A run of base64 bytes is long enough and short enough to be decoded.
pub open spec fn token_length(n: int) -> bool {
    MIN_BASE64_TOKEN_BYTES <= n <= MAX_BASE64_TOKEN_BYTES
}

/// How many tokens from `at` on decode to interesting text, and how many to a PE image.
/// Only the first tokens are looked at; `taken` of them were before `at`.
pub open spec fn token_tally(data: Seq<u8>, at: int, taken: nat) -> (nat, nat)
    decreases data.len() - at,
{
    if at < 0 || at >= data.len() {
        (0, 0)
    } else if !is_base64(data[at]) {
        token_tally(data, at + 1, taken)
    } else {
        let end = run_end(data, at);
        proof {
            lemma_run_end(data, at);
        }
        if token_length(end - at) && taken < MAX_BASE64_CANDIDATES {
            let (strings, payloads) = token_tally(data, end, taken + 1);
            match base64_decoded(data.subrange(at, end)) {
                Some(decoded) => if pe_shaped(decoded) {
                    (strings, payloads + 1)
                } else if interesting_text(decoded) {
                    (strings + 1, payloads)
                } else {
                    (strings, payloads)
                },
                None => (strings, payloads),
            }
        } else {
            token_tally(data, end, taken)
        }
    }
}

/// A PE image hidden under a one-byte XOR key starts at `at`.
pub open spec fn xor_image_at(scan: Seq<u8>, at: int) -> bool {
    let key = scan[at] ^ 0x4D;
    let offset = (scan[at + 0x3c] ^ key) + 0x100 * (scan[at + 0x3d] ^ key) + 0x10000 * (
    scan[at + 0x3e] ^ key) + 0x1000000 * (scan[at + 0x3f] ^ key);
    let sig = at + offset;
    &&& key != 0
    &&& scan[at + 1] ^ key == 0x5A
    &&& sig + 4 <= scan.len()
    &&& scan[sig] ^ key == 0x50
    &&& scan[sig + 1] ^ key == 0x45
    &&& scan[sig + 2] ^ key == 0
    &&& scan[sig + 3] ^ key == 0
}

/// How many hidden images start at `at` or later, up to the limit.
pub open spec fn xor_images(scan: Seq<u8>, at: int, found: nat) -> nat
    decreases scan.len() - at,
{
    if at < 0 || at >= scan.len() - 0x40 || found >= MAX_XOR_PAYLOADS {
        0
    } else if xor_image_at(scan, at) {
        1 + xor_images(scan, at + 1, found + 1)
    } else {
        xor_images(scan, at + 1, found)
    }
}

pub open spec fn xored(data: Seq<u8>, key: u8) -> Seq<u8> {
    Seq::new(data.len(), |i: int| data[i] ^ key)
}

/// How many keys from `key` on turn `head` into interesting text, up to the limit.
pub open spec fn xor_texts(head: Seq<u8>, key: nat, found: nat) -> nat
    decreases 256 - key,
{
    if key >= 256 || found >= MAX_XOR_STRINGS {
        0
    } else if interesting_text(xored(head, key as u8)) {
        1 + xor_texts(head, key + 1, found + 1)
    } else {
        xor_texts(head, key + 1, found)
    }
}

pub open spec fn copies(n: nat, text: Seq<char>) -> Seq<Seq<char>> {
    Seq::new(n, |i: int| text)
}

/// The packer whose marker the bytes hold, the first family that matches.
pub open spec fn packer_of(data: Seq<u8>) -> Option<PackerFamily> {
    if holds_narrow(data, "UPX0"@) || holds_narrow(data, "UPX1"@) || holds_narrow(data, "UPX!"@) {
        Some(PackerFamily::Upx)
    } else if holds_narrow(data, "ASPack"@) || holds_narrow(data, ".aspack"@) || holds_narrow(
        data,
        ".adata"@,
    ) {
        Some(PackerFamily::Aspack)
    } else if holds_narrow(data, "Themida"@) || holds_narrow(data, ".themida"@) {
        Some(PackerFamily::Themida)
    } else if holds_narrow(data, "VMProtect"@) || holds_narrow(data, ".vmp0"@) || holds_narrow(
        data,
        ".vmp1"@,
    ) {
        Some(PackerFamily::VmProtect)
    } else {
        None
    }
}

pub open spec fn packer_confidence_of(packer: Option<PackerFamily>) -> u8 {
    match packer {
        None => 0,
        Some(PackerFamily::Upx) => 95,
        Some(_) => 90,
    }
}

pub open spec fn packer_labels(packer: Option<PackerFamily>) -> Seq<Seq<char>> {
    match packer {
        Some(PackerFamily::Upx) => seq!["packer_detected:upx"@],
        Some(PackerFamily::Aspack) => seq!["packer_detected:aspack"@],
        Some(PackerFamily::Themida) => seq!["packer_detected:themida"@],
        Some(PackerFamily::VmProtect) => seq!["packer_detected:vmprotect"@],
        _ => Seq::empty(),
    }
}

/// The part of a buffer that is assessed.
pub open spec fn header_scan(data: Seq<u8>) -> Seq<u8> {
    data.take(min_len(data.len(), MAX_HEADER_SCAN_BYTES as nat))
}

pub open spec fn xor_scan(data: Seq<u8>) -> Seq<u8> {
    data.take(min_len(data.len(), MAX_XOR_SCAN_BYTES as nat))
}

pub open spec fn xor_head(data: Seq<u8>) -> Seq<u8> {
    xor_scan(data).take(min_len(xor_scan(data).len(), XOR_TEXT_BYTES as nat))
}

/// Decoded strings and payloads found in the assessed part.
pub open spec fn decoded_strings(scan: Seq<u8>) -> nat {
    token_tally(scan, 0, 0).0 + xor_texts(xor_head(scan), 1, 0)
}

pub open spec fn decoded_payloads(scan: Seq<u8>) -> nat {
    token_tally(scan, 0, 0).1 + xor_images(xor_scan(scan), 0, 0)
}

/// The indicators of an assessment, in order.
pub open spec fn unpacking_indicators(data: Seq<u8>) -> Seq<Seq<char>> {
    let scan = header_scan(data);
    let payloads = decoded_payloads(scan);
    packer_labels(packer_of(scan)) + copies(token_tally(scan, 0, 0).1, "base64_obfuscated_pe"@)
        + copies(xor_images(xor_scan(scan), 0, 0), "xor_obfuscated_pe"@) + copies(
        xor_texts(xor_head(scan), 1, 0),
        "xor_obfuscated_command_or_url"@,
    ) + (if payloads > 0 {
        seq!["unpacking_decoded_embedded_pe"@, "embedded_payload_decoded:"@ + decimal(payloads)]
    } else {
        Seq::empty()
    })
}

/// The weights that an assessment contributes, in the order in which they add up.
pub open spec fn assessment_terms(packed: bool, strings: nat, payloads: nat) -> Seq<Score> {
    seq![
        if packed {
            Score::of_hundredths(15)
        } else {
            Score::zero()
        },
    ] + (if strings > 0 {
        seq![Score::of_hundredths(15)]
    } else {
        Seq::empty()
    }) + (if payloads > 0 {
        seq![Score::of_hundredths(65)]
    } else {
        Seq::empty()
    })
}

impl UnpackingAssessment {
    /// The bounded score of the assessment.
    pub fn score(&self) -> (s: Score)
        ensures
            s == sum_terms(
                assessment_terms(
                    self.packer is Some,
                    self.decoded_string_count as nat,
                    self.decoded_payload_count as nat,
                ),
            ).lesser(Score::one()),
    {
        let mut terms: Vec<Score> = Vec::new();
        terms.push(
            if self.packer.is_some() {
                Score::hundredths(15)
            } else {
                Score { units: 0 }
            },
        );
        if self.decoded_string_count > 0 {
            terms.push(Score::hundredths(15));
        }
        if self.decoded_payload_count > 0 {
            terms.push(Score::hundredths(65));
        }
        assert(terms@ =~= assessment_terms(
            self.packer is Some,
            self.decoded_string_count as nat,
            self.decoded_payload_count as nat,
        ));
        add_up(&terms).min(Score { units: ONE_UNITS })
    }
}

/// The encoding of a buffer in base64 with padding.
pub fn encode_base64(data: &[u8]) -> (output: Vec<u8>)
    ensures
        output@ == base64_encoded(data@),
{
    let mut output: Vec<u8> = Vec::new();
    let mut i: usize = 0;
    assert(data@.skip(0) =~= data@);
    while i < data.len()
        invariant
            i <= data@.len(),
            output@ + base64_encoded(data@.skip(i as int)) == base64_encoded(data@),
        decreases data@.len() - i,
    {
        let left: usize = data.len() - i;
        let n: usize = if left < 3 {
            left
        } else {
            3
        };
        let a: u8 = data[i];
        let b: u8 = if n > 1 {
            data[i + 1]
        } else {
            0
        };
        let c: u8 = if n > 2 {
            data[i + 2]
        } else {
            0
        };
        let ghost rest = data@.skip(i as int);
        let ghost before = output@;
        output.push(symbol_of(a / 4));
        output.push(symbol_of((a % 4) * 16 + b / 16));
        output.push(
            if n > 1 {
                symbol_of((b % 16) * 4 + c / 64)
            } else {
                61
            },
        );
        output.push(
            if n > 2 {
                symbol_of(c % 64)
            } else {
                61
            },
        );
        proof {
            let chunk = rest.take(n as int);
            assert(output@ =~= before + base64_group(chunk));
            assert(rest.skip(n as int) =~= data@.skip(i + n));
            assert(before + (base64_group(chunk) + base64_encoded(data@.skip(i + n))) =~= output@
                + base64_encoded(data@.skip(i + n)));
        }
        i = i + n;
    }
    assert(data@.skip(i as int) =~= Seq::<u8>::empty());
    assert(output@ + Seq::<u8>::empty() =~= output@);
    output
}

fn symbol_of(v: u8) -> (b: u8)
    requires
        v < 64,
    ensures
        b == base64_symbol(v),
{
    if v < 26 {
        65 + v
    } else if v < 52 {
        97 + (v - 26)
    } else if v < 62 {
        48 + (v - 52)
    } else if v == 62 {
        43
    } else {
        47
    }
}

fn digit_of(b: u8) -> (v: Option<u8>)
    ensures
        v == base64_digit(b),
        v matches Some(d) ==> d < 64,
{
    if 65 <= b && b <= 90 {
        Some(b - 65)
    } else if 97 <= b && b <= 122 {
        Some(b - 97 + 26)
    } else if 48 <= b && b <= 57 {
        Some(b - 48 + 52)
    } else if b == 43 {
        Some(62)
    } else if b == 47 {
        Some(63)
    } else if b == 61 {
        Some(0)
    } else {
        None
    }
}

/// The decoding of a padded base64 token that is not too long.
pub fn decode_base64(input: &[u8]) -> (output: Option<Vec<u8>>)
    ensures
        match output {
            Some(o) => base64_decoded(input@) == Some(o@),
            None => base64_decoded(input@) is None,
        },
{
    if input.len() == 0 || input.len() % 4 != 0 {
        return None;
    }
    if input.len() / 4 > MAX_DECODED_BYTES || input.len() / 4 * 3 > MAX_DECODED_BYTES {
        return None;
    }
    let mut output: Vec<u8> = Vec::new();
    let mut i: usize = 0;
    assert(input@.skip(0) =~= input@);
    assert(base64_groups_bytes(input@) matches Some(r) ==> output@ + r =~= r);
    while i < input.len()
        invariant
            i <= input@.len(),
            i % 4 == 0,
            input@.len() % 4 == 0,
            match base64_groups_bytes(input@.skip(i as int)) {
                Some(r) => base64_groups_bytes(input@) == Some(output@ + r),
                None => base64_groups_bytes(input@) is None,
            },
        decreases input@.len() - i,
    {
        let ghost rest = input@.skip(i as int);
        let ghost group = rest.take(4);
        let ghost before = output@;
        assert(group[0] == input@[i as int] && group[1] == input@[i + 1] && group[2] == input@[i
            + 2] && group[3] == input@[i + 3]);
        assert(rest.skip(4) =~= input@.skip(i + 4));
        let v0: u8 = match digit_of(input[i]) {
            Some(v) => v,
            None => {
                return None;
            },
        };
        let v1: u8 = match digit_of(input[i + 1]) {
            Some(v) => v,
            None => {
                return None;
            },
        };
        let v2: u8 = match digit_of(input[i + 2]) {
            Some(v) => v,
            None => {
                return None;
            },
        };
        let v3: u8 = match digit_of(input[i + 3]) {
            Some(v) => v,
            None => {
                return None;
            },
        };
        output.push(v0 * 4 + v1 / 16);
        if input[i + 2] != 61 {
            output.push((v1 % 16) * 16 + v2 / 4);
        }
        if input[i + 3] != 61 {
            output.push((v2 % 4) * 64 + v3);
        }
        proof {
            let first = base64_group_bytes(group).unwrap();
            assert(output@ =~= before + first);
            match base64_groups_bytes(input@.skip(i + 4)) {
                Some(r) => {
                    assert(before + (first + r) =~= output@ + r);
                },
                None => {},
            }
        }
        i = i + 4;
    }
    assert(input@.skip(i as int) =~= Seq::<u8>::empty());
    assert(output@ + Seq::<u8>::empty() =~= output@);
    Some(output)
}

/// The group written for a chunk reads back as the chunk.
proof fn lemma_group_round_trip(chunk: Seq<u8>)
    requires
        1 <= chunk.len() <= 3,
    ensures
        base64_group(chunk).len() == 4,
        base64_group_bytes(base64_group(chunk)) == Some(chunk),
{
    let g = base64_group(chunk);
    lemma_symbol_digit((chunk[0] / 4) as u8);
    let b = if chunk.len() > 1 {
        chunk[1]
    } else {
        0
    };
    let c = if chunk.len() > 2 {
        chunk[2]
    } else {
        0
    };
    lemma_symbol_digit(((chunk[0] % 4) * 16 + b / 16) as u8);
    lemma_symbol_digit(((b % 16) * 4 + c / 64) as u8);
    lemma_symbol_digit((c % 64) as u8);
    assert(base64_group_bytes(g).unwrap() =~= chunk);
}

proof fn lemma_symbol_digit(v: u8)
    requires
        v < 64,
    ensures
        base64_digit(base64_symbol(v)) == Some(v),
        base64_symbol(v) != 61,
{
}

/// A group in front of other groups decodes to its bytes in front of theirs.
proof fn lemma_groups_prepend(group: Seq<u8>, first: Seq<u8>, groups: Seq<u8>, rest: Seq<u8>)
    requires
        group.len() == 4,
        base64_group_bytes(group) == Some(first),
        base64_groups_bytes(groups) == Some(rest),
    ensures
        base64_groups_bytes(group + groups) == Some(first + rest),
{
    assert((group + groups).take(4) =~= group);
    assert((group + groups).skip(4) =~= groups);
}

proof fn lemma_groups_round_trip(data: Seq<u8>)
    ensures
        base64_groups_bytes(base64_encoded(data)) == Some(data),
        base64_encoded(data).len() == (data.len() + 2) / 3 * 4,
    decreases data.len(),
{
    if data.len() == 0 {
        assert(data =~= Seq::<u8>::empty());
        assert(base64_groups_bytes(Seq::<u8>::empty()) == Some(Seq::<u8>::empty()));
    } else {
        let n = min_len(data.len(), 3);
        let chunk = data.take(n);
        let rest = data.skip(n);
        lemma_group_round_trip(chunk);
        lemma_groups_round_trip(rest);
        lemma_groups_prepend(base64_group(chunk), chunk, base64_encoded(rest), rest);
        assert(chunk + rest =~= data);
        if data.len() >= 3 {
            assert((data.len() + 2) / 3 == (rest.len() + 2) / 3 + 1);
        } else {
            assert(rest.len() == 0);
        }
    }
}

/// Decoding gives back what was encoded: every non-empty buffer whose padded length is
/// within the decoding limit.
pub proof fn law_base64_round_trip(data: Seq<u8>)
    requires
        0 < data.len(),
        (data.len() + 2) / 3 * 3 <= MAX_DECODED_BYTES,
    ensures
        base64_decoded(base64_encoded(data)) == Some(data),
{
    lemma_groups_round_trip(data);
}

/// The buffer starts with a DOS header that leads to a PE signature inside it.
pub fn looks_like_pe(data: &[u8]) -> (b: bool)
    ensures
        b == pe_shaped(data@),
{
    if data.len() < 0x40 || data[0] != 0x4D || data[1] != 0x5A {
        return false;
    }
    let at: u32 = read_u32(data, 0x3c);
    has_pe_signature(data, at as u64)
}

/// The four signature bytes of a PE header stand at `at`.
pub fn has_pe_signature(data: &[u8], at: u64) -> (b: bool)
    ensures
        b == pe_signature_at(data@, at as int),
{
    let size: usize = data.len();
    if at >= size as u64 || (size as u64) - at < 4 {
        return false;
    }
    let i: usize = at as usize;
    data[i] == 0x50 && data[i + 1] == 0x45 && data[i + 2] == 0 && data[i + 3] == 0
}

/// The bytes spell a command or network marker.
pub fn looks_like_interesting_text(data: &[u8]) -> (b: bool)
    ensures
        b == interesting_text(data@),
{
    has_narrow(data, "http://") || has_narrow(data, "https://") || has_narrow(data, "powershell")
        || has_narrow(data, "cmd.exe") || has_narrow(data, "rundll32") || has_narrow(
        data,
        "regsvr32",
    ) || has_narrow(data, "appdata") || has_narrow(data, "cookie")
}

/// The packer whose marker the bytes hold, how certain that is, and its indicator.
pub fn detect_packer(data: &[u8]) -> (r: (Option<PackerFamily>, u8, Vec<String>))
    ensures
        r.0 == packer_of(data@),
        r.1 == packer_confidence_of(packer_of(data@)),
        texts(r.2@) == packer_labels(packer_of(data@)),
{
    let mut indicators: Vec<String> = Vec::new();
    assert(texts(indicators@) =~= Seq::empty());
    if has_narrow(data, "UPX0") || has_narrow(data, "UPX1") || has_narrow(data, "UPX!") {
        push_text(&mut indicators, "packer_detected:upx".to_owned());
        return (Some(PackerFamily::Upx), 95, indicators);
    }
    if has_narrow(data, "ASPack") || has_narrow(data, ".aspack") || has_narrow(data, ".adata") {
        push_text(&mut indicators, "packer_detected:aspack".to_owned());
        return (Some(PackerFamily::Aspack), 90, indicators);
    }
    if has_narrow(data, "Themida") || has_narrow(data, ".themida") {
        push_text(&mut indicators, "packer_detected:themida".to_owned());
        return (Some(PackerFamily::Themida), 90, indicators);
    }
    if has_narrow(data, "VMProtect") || has_narrow(data, ".vmp0") || has_narrow(data, ".vmp1") {
        push_text(&mut indicators, "packer_detected:vmprotect".to_owned());
        return (Some(PackerFamily::VmProtect), 90, indicators);
    }
    (None, 0, indicators)
}

/// Appends `n` copies of a label.
fn push_copies(items: &mut Vec<String>, n: usize, label: &str)
    ensures
        texts(final(items)@) == texts(old(items)@) + copies(n as nat, label@),
{
    let mut i: usize = 0;
    assert(texts(items@) + copies(0, label@) =~= texts(items@));
    while i < n
        invariant
            i <= n,
            texts(items@) == texts(old(items)@) + copies(i as nat, label@),
        decreases n - i,
    {
        push_text(items, label.to_owned());
        assert(texts(items@) =~= texts(old(items)@) + copies((i + 1) as nat, label@));
        i = i + 1;
    }
}

pub proof fn lemma_run_end(data: Seq<u8>, at: int)
    requires
        0 <= at <= data.len(),
    ensures
        at <= run_end(data, at) <= data.len(),
        at < data.len() && is_base64(data[at]) ==> at < run_end(data, at),
    decreases data.len() - at,
{
    if at < data.len() && is_base64(data[at]) {
        lemma_run_end(data, at + 1);
    }
}

/// A tally counts at most one hit per position that is left.
proof fn lemma_tally_bound(data: Seq<u8>, at: int, taken: nat)
    requires
        0 <= at <= data.len(),
    ensures
        token_tally(data, at, taken).0 + token_tally(data, at, taken).1 <= data.len() - at,
    decreases data.len() - at,
{
    if at < data.len() {
        if !is_base64(data[at]) {
            lemma_tally_bound(data, at + 1, taken);
        } else {
            lemma_run_end(data, at);
            let end = run_end(data, at);
            lemma_tally_bound(data, end, taken + 1);
            lemma_tally_bound(data, end, taken);
        }
    }
}

/// Counts the base64 tokens that decode to interesting text and to a PE image.
pub fn inspect_tokens(data: &[u8]) -> (r: (usize, usize))
    ensures
        r.0 == token_tally(data@, 0, 0).0,
        r.1 == token_tally(data@, 0, 0).1,
        r.0 + r.1 <= data@.len(),
{
    let mut strings: usize = 0;
    let mut payloads: usize = 0;
    let mut taken: usize = 0;
    let mut at: usize = 0;
    let size: usize = data.len();
    while at < size
        invariant
            at <= size == data@.len(),
            taken <= MAX_BASE64_CANDIDATES,
            strings + payloads <= at,
            strings + token_tally(data@, at as int, taken as nat).0 == token_tally(data@, 0, 0).0,
            payloads + token_tally(data@, at as int, taken as nat).1 == token_tally(data@, 0, 0).1,
        decreases size - at,
    {
        if digit_of(data[at]).is_none() {
            at = at + 1;
            continue;
        }
        let mut end: usize = at;
        while end < size && digit_of(data[end]).is_some()
            invariant
                at <= end <= size == data@.len(),
                run_end(data@, end as int) == run_end(data@, at as int),
            decreases size - end,
        {
            end = end + 1;
        }
        proof {
            lemma_run_end(data@, at as int);
        }
        assert(end == run_end(data@, at as int));
        let length: usize = end - at;
        if MIN_BASE64_TOKEN_BYTES <= length && length <= MAX_BASE64_TOKEN_BYTES && taken
            < MAX_BASE64_CANDIDATES {
            taken = taken + 1;
            let token = copy_range(data, at, end);
            if let Some(decoded) = decode_base64(&token) {
                if looks_like_pe(&decoded) {
                    payloads = payloads + 1;
                } else if looks_like_interesting_text(&decoded) {
                    strings = strings + 1;
                }
            }
        }
        at = end;
    }
    (strings, payloads)
}

/// A PE image hidden under a one-byte XOR key starts at `at`.
fn is_xor_image(scan: &[u8], at: usize) -> (b: bool)
    requires
        at + 0x40 < scan@.len(),
    ensures
        b == xor_image_at(scan@, at as int),
{
    let size: usize = scan.len();
    let key: u8 = scan[at] ^ 0x4D;
    if key == 0 || (scan[at + 1] ^ key) != 0x5A {
        return false;
    }
    let offset: u64 = (scan[at + 0x3c] ^ key) as u64 + 0x100 * ((scan[at + 0x3d] ^ key) as u64)
        + 0x10000 * ((scan[at + 0x3e] ^ key) as u64) + 0x1000000 * ((scan[at + 0x3f] ^ key) as u64);
    let left: u64 = (size - at) as u64;
    if left < 4 || offset > left - 4 {
        return false;
    }
    let sig: usize = at + offset as usize;
    (scan[sig] ^ key) == 0x50 && (scan[sig + 1] ^ key) == 0x45 && (scan[sig + 2] ^ key) == 0 && (
    scan[sig + 3] ^ key) == 0
}

/// Counts the PE images and the texts that a one-byte XOR key hides.
pub fn inspect_single_byte_xor(data: &[u8]) -> (r: (usize, usize))
    ensures
        r.0 == xor_images(xor_scan(data@), 0, 0),
        r.1 == xor_texts(xor_head(data@), 1, 0),
        r.0 <= MAX_XOR_PAYLOADS,
        r.1 <= MAX_XOR_STRINGS,
{
    let size: usize = if data.len() < MAX_XOR_SCAN_BYTES {
        data.len()
    } else {
        MAX_XOR_SCAN_BYTES
    };
    let scan = copy_range(data, 0, size);
    assert(scan@ =~= xor_scan(data@));
    let mut payloads: usize = 0;
    let mut at: usize = 0;
    while at + 0x40 < size && payloads < MAX_XOR_PAYLOADS
        invariant
            size == scan@.len() <= MAX_XOR_SCAN_BYTES,
            at <= size,
            payloads <= MAX_XOR_PAYLOADS,
            payloads + xor_images(scan@, at as int, payloads as nat) == xor_images(scan@, 0, 0),
        decreases size - at,
    {
        if is_xor_image(&scan, at) {
            payloads = payloads + 1;
        }
        at = at + 1;
    }
    let head_size: usize = if size < XOR_TEXT_BYTES {
        size
    } else {
        XOR_TEXT_BYTES
    };
    let ghost head = xor_head(data@);
    let mut strings: usize = 0;
    let mut key: u16 = 1;
    while key < 256 && strings < MAX_XOR_STRINGS
        invariant
            size == scan@.len(),
            head_size <= size,
            head == scan@.take(head_size as int),
            1 <= key <= 256,
            strings <= MAX_XOR_STRINGS,
            strings + xor_texts(head, key as nat, strings as nat) == xor_texts(head, 1, 0),
        decreases 256 - key,
    {
        let k: u8 = key as u8;
        let mut decoded: Vec<u8> = Vec::new();
        let mut i: usize = 0;
        while i < head_size
            invariant
                i <= head_size <= scan@.len(),
                decoded@ == xored(scan@.take(i as int), k),
            decreases head_size - i,
        {
            decoded.push(scan[i] ^ k);
            assert(decoded@ =~= xored(scan@.take(i + 1), k));
            i = i + 1;
        }
        if looks_like_interesting_text(&decoded) {
            strings = strings + 1;
        }
        key = key + 1;
    }
    (payloads, strings)
}

/// Assesses the packing and obfuscation of a buffer without running or keeping anything.
pub fn assess_unpacking(data: &[u8]) -> (assessment: UnpackingAssessment)
    ensures
        assessment.packer == packer_of(header_scan(data@)),
        assessment.packer_confidence == packer_confidence_of(packer_of(header_scan(data@))),
        assessment.decoded_string_count == decoded_strings(header_scan(data@)),
        assessment.decoded_payload_count == decoded_payloads(header_scan(data@)),
        texts(assessment.indicators@) == unpacking_indicators(data@),
{
    let size: usize = if data.len() < MAX_HEADER_SCAN_BYTES {
        data.len()
    } else {
        MAX_HEADER_SCAN_BYTES
    };
    let scan = copy_range(data, 0, size);
    assert(scan@ =~= header_scan(data@));
    let (packer, packer_confidence, packer_indicators) = detect_packer(&scan);
    let mut indicators = packer_indicators;
    let (strings, payloads) = inspect_tokens(&scan);
    push_copies(&mut indicators, payloads, "base64_obfuscated_pe");
    let (xor_payloads, xor_strings) = inspect_single_byte_xor(&scan);
    push_copies(&mut indicators, xor_payloads, "xor_obfuscated_pe");
    push_copies(&mut indicators, xor_strings, "xor_obfuscated_command_or_url");
    let decoded_string_count: usize = strings + xor_strings;
    let decoded_payload_count: usize = payloads + xor_payloads;
    let ghost before = texts(indicators@);
    if decoded_payload_count > 0 {
        push_text(&mut indicators, "unpacking_decoded_embedded_pe".to_owned());
        let count = decimal_text(decoded_payload_count as u64);
        push_text(&mut indicators, concat2("embedded_payload_decoded:", count.as_str()));
        assert(texts(indicators@) =~= before + seq![
            "unpacking_decoded_embedded_pe"@,
            "embedded_payload_decoded:"@ + decimal(decoded_payload_count as nat),
        ]);
    } else {
        assert(before + Seq::<Seq<char>>::empty() =~= before);
    }
    UnpackingAssessment {
        packer,
        packer_confidence,
        decoded_string_count,
        decoded_payload_count,
        indicators,
    }
}

} // verus!
