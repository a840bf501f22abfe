//! Fuzzy signatures in the `blocksize:hash1:hash2` form of ssdeep.

use crate::text::{decimal, decimal_text};
use vstd::prelude::*;

verus! {

pub const FUZZY_MIN_BLOCK_SIZE: usize = 3;

/// A signature part holds fewer letters than this.
pub const FUZZY_PRIMARY_LIMIT: usize = 64;

pub const FUZZY_HASH_INIT: u32 = 0x2802_1967;

pub const FUZZY_HASH_PRIME: u32 = 0x0100_0193;

/// The longest content whose block sizes can be told apart in 32 bits.
pub const FUZZY_CONTENT_LIMIT: u64 = 206_158_430_208;

/// The byte `k` places before the end, zero before the start.
pub open spec fn recent(s: Seq<u8>, k: int) -> nat {
    if k < s.len() {
        s[s.len() - 1 - k] as nat
    } else {
        0
    }
}

/// The sum of the last seven bytes.
pub open spec fn window_sum(s: Seq<u8>) -> nat {
    recent(s, 0) + recent(s, 1) + recent(s, 2) + recent(s, 3) + recent(s, 4) + recent(s, 5)
        + recent(s, 6)
}

/// The sum of the last seven bytes, the newest seven times, the oldest once.
pub open spec fn weighted_sum(s: Seq<u8>) -> nat {
    7 * recent(s, 0) + 6 * recent(s, 1) + 5 * recent(s, 2) + 4 * recent(s, 3) + 3 * recent(s, 4)
        + 2 * recent(s, 5) + recent(s, 6)
}

/// The bytes shifted over each other, five bits apart.
pub open spec fn shifted(s: Seq<u8>) -> u32
    decreases s.len(),
{
    if s.len() == 0 {
        0
    } else {
        (shifted(s.drop_last()) << 5) ^ (s.last() as u32)
    }
}

/// The rolling hash of the bytes read so far.
pub open spec fn rolling(s: Seq<u8>) -> nat {
    (window_sum(s) + weighted_sum(s) + shifted(s) as nat) % 0x1_0000_0000
}

/// How the sums change with one more byte.
proof fn lemma_sums(s: Seq<u8>, byte: u8)
    ensures
        window_sum(s.push(byte)) == window_sum(s) + byte - recent(s, 6),
        weighted_sum(s.push(byte)) == weighted_sum(s) - window_sum(s) + 7 * byte,
        shifted(s.push(byte)) == (shifted(s) << 5) ^ (byte as u32),
        recent(s, 6) <= window_sum(s) <= 7 * 255,
        window_sum(s) <= weighted_sum(s) <= 28 * 255,
{
    let next = s.push(byte);
    assert(next.drop_last() =~= s);
    assert(recent(next, 0) == byte);
    assert(recent(next, 1) == recent(s, 0));
    assert(recent(next, 2) == recent(s, 1));
    assert(recent(next, 3) == recent(s, 2));
    assert(recent(next, 4) == recent(s, 3));
    assert(recent(next, 5) == recent(s, 4));
    assert(recent(next, 6) == recent(s, 5));
}

/// The ring holds the last seven bytes, each at its position modulo seven.
#[verifier::opaque]
pub open spec fn ring_holds(window: Seq<u8>, s: Seq<u8>) -> bool {
    &&& window.len() == 7
    &&& forall|p: int|
        0 <= p < s.len() && s.len() - 7 <= p ==> window[p % 7] == #[trigger] s[p]
    &&& forall|j: int| s.len() <= j < 7 ==> #[trigger] window[j] == 0
}

/// How the ring changes with one more byte.
proof fn lemma_window(window: Seq<u8>, s: Seq<u8>, byte: u8)
    requires
        ring_holds(window, s),
    ensures
        window[(s.len() % 7) as int] == recent(s, 6),
        ring_holds(window.update((s.len() % 7) as int, byte), s.push(byte)),
{
    reveal(ring_holds);
    let n = s.len() as int;
    let next = s.push(byte);
    let after = window.update(n % 7, byte);
    if n >= 7 {
        assert((n - 7) % 7 == n % 7);
        assert(window[(n - 7) % 7] == s[n - 7]);
    } else {
        assert(n % 7 == n);
    }
    assert forall|p: int| 0 <= p < next.len() && next.len() - 7 <= p implies after[p % 7]
        == #[trigger] next[p] by {
        if p < n {
            assert(window[p % 7] == s[p]);
            assert(p % 7 != n % 7);
        }
    }
    assert forall|j: int| next.len() <= j < 7 implies #[trigger] after[j] == 0 by {
        assert(window[j] == 0);
    }
}

/// The rolling hash of the bytes read so far, in parts.
#[derive(Clone, Copy)]
pub struct RollingHash {
    pub window: [u8; 7],
    pub h1: u32,
    pub h2: u32,
    pub h3: u32,
    pub index: usize,
}

impl RollingHash {
    /// The parts are those of `s`.
    pub open spec fn follows(self, s: Seq<u8>) -> bool {
        &&& self.h1 == window_sum(s)
        &&& self.h2 == weighted_sum(s)
        &&& self.h3 == shifted(s)
        &&& self.index == s.len() % 7
        &&& ring_holds(self.window@, s)
    }

    fn new() -> (rolling: RollingHash)
        ensures
            rolling.follows(Seq::empty()),
    {
        proof {
            reveal(ring_holds);
        }
        RollingHash { window: [0; 7], h1: 0, h2: 0, h3: 0, index: 0 }
    }

    /// Reads one more byte after those of `s`.
    fn update(&mut self, byte: u8, Ghost(s): Ghost<Seq<u8>>)
        requires
            old(self).follows(s),
        ensures
            final(self).follows(s.push(byte)),
    {
        proof {
            lemma_sums(s, byte);
            lemma_window(self.window@, s, byte);
        }
        let gone: u8 = self.window[self.index];
        self.h2 = self.h2 - self.h1 + 7 * (byte as u32);
        self.h1 = self.h1 + byte as u32 - gone as u32;
        self.window[self.index] = byte;
        assert(self.window@ =~= old(self).window@.update((s.len() % 7) as int, byte));
        self.index = (self.index + 1) % 7;
        self.h3 = (self.h3 << 5) ^ byte as u32;
    }

    /// The rolling hash of the bytes of `s`.
    fn sum(&self, Ghost(s): Ghost<Seq<u8>>) -> (sum: u32)
        requires
            self.follows(s),
        ensures
            sum == rolling(s),
    {
        self.h1.wrapping_add(self.h2).wrapping_add(self.h3)
    }
}

/// The letter of a six-bit number.
pub open spec fn letter(n: nat) -> char {
    if n < 26 {
        ((65 + n) as u32) as char
    } else if n < 52 {
        ((71 + n) as u32) as char
    } else if n < 62 {
        ((n - 4) as u32) as char
    } else if n == 62 {
        '+'
    } else {
        '/'
    }
}

/// A letter of the signature alphabet.
pub open spec fn is_letter(c: char) -> bool {
    'A' <= c <= 'Z' || 'a' <= c <= 'z' || '0' <= c <= '9' || c == '+' || c == '/'
}

/// The hash of a piece with one more byte.
pub open spec fn piece_step(hash: u32, byte: u8) -> u32 {
    hash.wrapping_mul(FUZZY_HASH_PRIME) ^ (byte as u32)
}

/// A piece ends with the last byte of `s`.
pub open spec fn ends_piece(s: Seq<u8>, modulus: nat) -> bool {
    rolling(s) % modulus == modulus - 1
}

/// The letters of the pieces that have ended, and the hash of the piece begun. The last
/// letter is kept for the rest of the content.
pub open spec fn pieces(s: Seq<u8>, modulus: nat) -> (Seq<char>, u32)
    decreases s.len(),
{
    if s.len() == 0 {
        (Seq::empty(), FUZZY_HASH_INIT)
    } else {
        let (letters, hash) = pieces(s.drop_last(), modulus);
        let next = piece_step(hash, s.last());
        if letters.len() < 63 && ends_piece(s, modulus) {
            (letters.push(letter((next % 64) as nat)), FUZZY_HASH_INIT)
        } else {
            (letters, next)
        }
    }
}

/// One part of a signature: a letter for each piece of the content.
pub open spec fn signature_part(s: Seq<u8>, modulus: nat) -> Seq<char> {
    let (letters, hash) = pieces(s, modulus);
    if letters.len() < 63 {
        letters.push(letter((hash % 64) as nat))
    } else {
        letters
    }
}

/// The modulus of a block size, in 32 bits.
pub open spec fn modulus_of(block_size: nat) -> nat {
    block_size % 0x1_0000_0000
}

pub open spec fn primary_part(s: Seq<u8>, block_size: nat) -> Seq<char> {
    signature_part(s, modulus_of(block_size))
}

pub open spec fn secondary_part(s: Seq<u8>, block_size: nat) -> Seq<char> {
    signature_part(s, modulus_of(2 * block_size))
}

/// The least doubling of `block_size` of which sixty-four blocks hold the content.
pub open spec fn first_block_size(size: nat, block_size: nat) -> nat
    decreases size - block_size,
{
    if block_size == 0 || 64 * block_size >= size {
        block_size
    } else {
        first_block_size(size, 2 * block_size)
    }
}

/// The signature with the first block size, halved from `block_size` on, that gives at
/// least thirty-two letters, or with the smallest one.
pub open spec fn signature_from(s: Seq<u8>, block_size: nat) -> (nat, Seq<char>, Seq<char>)
    decreases block_size,
{
    if block_size <= 3 || primary_part(s, block_size).len() >= 32 {
        (block_size, primary_part(s, block_size), secondary_part(s, block_size))
    } else {
        signature_from(s, block_size / 2)
    }
}

pub open spec fn signature_text(block_size: nat, primary: Seq<char>, secondary: Seq<char>) -> Seq<
    char,
> {
    decimal(block_size) + ":"@ + primary + ":"@ + secondary
}

/// The fuzzy signature of some content.
pub open spec fn fuzzy_signature(s: Seq<u8>) -> Seq<char> {
    let (block_size, primary, secondary) = signature_from(s, first_block_size(s.len(), 3));
    signature_text(block_size, primary, secondary)
}

/// Three times a power of two.
pub open spec fn is_doubled_three(n: nat) -> bool
    decreases n,
{
    n == 3 || (n > 3 && n % 2 == 0 && is_doubled_three(n / 2))
}

fn letter_of(n: u32) -> (c: char)
    requires
        n < 64,
    ensures
        c == letter(n as nat),
{
    if n < 26 {
        (65 + n as u8) as char
    } else if n < 52 {
        (71 + n as u8) as char
    } else if n < 62 {
        (n as u8 - 4) as char
    } else if n == 62 {
        '+'
    } else {
        '/'
    }
}

/// One part of the signature of some content.
fn piecewise_part(data: &[u8], modulus: u32) -> (part: String)
    requires
        modulus > 0,
    ensures
        part@ == signature_part(data@, modulus as nat),
{
    let mut letters = String::new();
    let mut count: usize = 0;
    let mut hash: u32 = FUZZY_HASH_INIT;
    let mut rolling_hash = RollingHash::new();
    let mut i: usize = 0;
    assert(data@.take(0) =~= Seq::empty());
    while i < data.len()
        invariant
            i <= data@.len(),
            modulus > 0,
            rolling_hash.follows(data@.take(i as int)),
            letters@.len() == count,
            (letters@, hash) == pieces(data@.take(i as int), modulus as nat),
        decreases data@.len() - i,
    {
        let byte: u8 = data[i];
        let ghost before = data@.take(i as int);
        let ghost after = data@.take(i + 1);
        assert(after.drop_last() =~= before);
        assert(after =~= before.push(byte));
        hash = hash.wrapping_mul(FUZZY_HASH_PRIME) ^ byte as u32;
        rolling_hash.update(byte, Ghost(before));
        let sum: u32 = rolling_hash.sum(Ghost(after));
        if count < 63 && sum % modulus == modulus - 1 {
            letters.push(letter_of(hash % 64));
            count = count + 1;
            hash = FUZZY_HASH_INIT;
        }
        i = i + 1;
    }
    assert(data@.take(i as int) =~= data@);
    if count < 63 {
        letters.push(letter_of(hash % 64));
    }
    letters
}

/// A smaller number of the kind is at most half of a larger one.
pub proof fn lemma_doubled_threes(small: nat, large: nat)
    requires
        is_doubled_three(small),
        is_doubled_three(large),
        small < large,
    ensures
        2 * small <= large,
    decreases small,
{
    if small > 3 {
        lemma_doubled_threes(small / 2, large / 2);
    } else {
        assert(large / 2 >= 3) by {
            assert(is_doubled_three(large / 2));
        }
    }
}

proof fn lemma_largest_block()
    ensures
        is_doubled_three(0xC000_0000),
{
    reveal_with_fuel(is_doubled_three, 32);
}

/// The least block size of which sixty-four blocks hold the content.
pub fn ssdeep_block_size(size: usize) -> (block_size: usize)
    requires
        size <= FUZZY_CONTENT_LIMIT,
    ensures
        block_size == first_block_size(size as nat, 3),
        is_doubled_three(block_size as nat),
        block_size <= 0xC000_0000,
{
    let mut block_size: usize = FUZZY_MIN_BLOCK_SIZE;
    let blocks: usize = size / 64 + if size % 64 == 0 {
        0
    } else {
        1
    };
    while block_size < blocks
        invariant
            size <= FUZZY_CONTENT_LIMIT,
            64 * blocks >= size,
            64 * (blocks - 1) < size,
            3 <= block_size <= 0xC000_0000,
            is_doubled_three(block_size as nat),
            first_block_size(size as nat, block_size as nat) == first_block_size(size as nat, 3),
        decreases 0xC000_0000 - block_size,
    {
        proof {
            lemma_largest_block();
            lemma_doubled_threes(block_size as nat, 0xC000_0000);
        }
        block_size = block_size * 2;
    }
    block_size
}

/// The modulus of the secondary part is never zero.
proof fn lemma_modulus(block_size: nat)
    requires
        is_doubled_three(block_size),
        block_size <= 0xC000_0000,
    ensures
        modulus_of(block_size) > 0,
        modulus_of(2 * block_size) > 0,
        block_size >= 3,
{
    if block_size < 0xC000_0000 {
        lemma_largest_block();
        lemma_doubled_threes(block_size, 0xC000_0000);
    }
}

/// The fuzzy signature of some content.
pub fn ssdeep_hash_bytes(data: &[u8]) -> (signature: String)
    requires
        data@.len() <= FUZZY_CONTENT_LIMIT,
    ensures
        signature@ == fuzzy_signature(data@),
{
    let mut block_size: usize = ssdeep_block_size(data.len());
    let ghost wanted = signature_from(data@, block_size as nat);
    loop
        invariant
            is_doubled_three(block_size as nat),
            block_size <= 0xC000_0000,
            signature_from(data@, block_size as nat) == wanted,
            fuzzy_signature(data@) == signature_text(wanted.0, wanted.1, wanted.2),
        decreases block_size,
    {
        proof {
            lemma_modulus(block_size as nat);
        }
        let modulus: u32 = block_size as u32;
        let double: u32 = (block_size as u64 * 2 % 0x1_0000_0000) as u32;
        let primary = piecewise_part(data, modulus);
        let secondary = piecewise_part(data, double);
        let letters: usize = primary.as_str().unicode_len();
        if block_size == FUZZY_MIN_BLOCK_SIZE || letters >= 32 {
            let mut signature = decimal_text(block_size as u64);
            signature.append(":");
            signature.append(primary.as_str());
            signature.append(":");
            signature.append(secondary.as_str());
            return signature;
        }
        block_size = block_size / 2;
    }
}

pub proof fn lemma_letter(n: nat)
    requires
        n < 64,
    ensures
        is_letter(letter(n)),
{
}

/// What every signature part is: between one and sixty-three letters.
pub open spec fn is_part(part: Seq<char>) -> bool {
    1 <= part.len() <= 63 && forall|i: int| 0 <= i < part.len() ==> is_letter(#[trigger] part[i])
}

pub proof fn lemma_pieces(s: Seq<u8>, modulus: nat)
    ensures
        pieces(s, modulus).0.len() <= 63,
        forall|i: int|
            0 <= i < pieces(s, modulus).0.len() ==> is_letter(#[trigger] pieces(s, modulus).0[i]),
    decreases s.len(),
{
    if s.len() > 0 {
        lemma_pieces(s.drop_last(), modulus);
        let hash = pieces(s.drop_last(), modulus).1;
        lemma_letter((piece_step(hash, s.last()) % 64) as nat);
    }
}

/// Signature parts are never empty and hold at most sixty-three letters.
pub proof fn law_parts_are_bounded(s: Seq<u8>, modulus: nat)
    ensures
        is_part(signature_part(s, modulus)),
{
    lemma_pieces(s, modulus);
    lemma_letter((pieces(s, modulus).1 % 64) as nat);
}

} // verus!
