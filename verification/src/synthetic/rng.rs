//! The deterministic generator (SplitMix64) behind every synthetic byte.

use crate::bytes::{bytes_of_u64, u64_bytes};
use vstd::prelude::*;

verus! {

/// The generator state of a seed.
pub open spec fn seeded(seed: u64) -> u64 {
    seed ^ 0x2545_F491_4F6C_DD1D
}

/// The state after one draw.
pub open spec fn advanced(state: u64) -> u64 {
    state.wrapping_add(0x9E37_79B9_7F4A_7C15)
}

/// The state after `n` draws.
pub open spec fn state_after(state: u64, n: nat) -> u64
    decreases n,
{
    if n == 0 {
        state
    } else {
        advanced(state_after(state, (n - 1) as nat))
    }
}

/// The output function of the generator.
pub open spec fn scrambled(z: u64) -> u64 {
    let first = (z ^ (z >> 30)).wrapping_mul(0xBF58_476D_1CE4_E5B9);
    let second = (first ^ (first >> 27)).wrapping_mul(0x94D0_49BB_1331_11EB);
    second ^ (second >> 31)
}

/// The number that the next draw gives.
pub open spec fn drawn(state: u64) -> u64 {
    scrambled(advanced(state))
}

/// The draws that fill `size` bytes, eight bytes to a draw.
pub open spec fn noise_draws(size: nat) -> nat {
    (size + 7) / 8
}

/// `size` bytes of noise: the draws one after another in little-endian order.
pub open spec fn noise(state: u64, size: nat) -> Seq<u8> {
    Seq::new(
        size,
        |i: int| u64_bytes(drawn(state_after(state, (i / 8) as nat)) as nat)[i % 8],
    )
}

/// One byte that is random with a probability of `hundredths` in a hundred and zero
/// otherwise.
pub open spec fn mixed_draw(state: u64, hundredths: u32) -> u8 {
    if drawn(state) % 10_000 < hundredths * 100 {
        (drawn(advanced(state)) & 0xFF) as u8
    } else {
        0
    }
}

/// The state after such a byte: the second draw is made only for a random one.
pub open spec fn mixed_next(state: u64, hundredths: u32) -> u64 {
    if drawn(state) % 10_000 < hundredths * 100 {
        advanced(advanced(state))
    } else {
        advanced(state)
    }
}

/// The state after `n` bytes of the mixed kind.
pub open spec fn mixed_after(state: u64, hundredths: u32, n: nat) -> u64
    decreases n,
{
    if n == 0 {
        state
    } else {
        mixed_next(mixed_after(state, hundredths, (n - 1) as nat), hundredths)
    }
}

/// `size` bytes of the mixed kind.
pub open spec fn mixed_noise(state: u64, hundredths: u32, size: nat) -> Seq<u8> {
    Seq::new(size, |i: int| mixed_draw(mixed_after(state, hundredths, i as nat), hundredths))
}

#[derive(Clone)]
pub struct Rng {
    pub state: u64,
}

impl Rng {
    pub fn new(seed: u64) -> (rng: Rng)
        ensures
            rng.state == seeded(seed),
    {
        Rng { state: seed ^ 0x2545_F491_4F6C_DD1D }
    }

    pub fn next_u64(&mut self) -> (value: u64)
        ensures
            value == drawn(old(self).state),
            final(self).state == advanced(old(self).state),
    {
        self.state = self.state.wrapping_add(0x9E37_79B9_7F4A_7C15);
        let z: u64 = self.state;
        let first: u64 = (z ^ (z >> 30)).wrapping_mul(0xBF58_476D_1CE4_E5B9);
        let second: u64 = (first ^ (first >> 27)).wrapping_mul(0x94D0_49BB_1331_11EB);
        second ^ (second >> 31)
    }

    /// `size` bytes of noise.
    pub fn fill_bytes(&mut self, size: usize) -> (bytes: Vec<u8>)
        ensures
            bytes@ == noise(old(self).state, size as nat),
            final(self).state == state_after(old(self).state, noise_draws(size as nat)),
    {
        let mut bytes: Vec<u8> = Vec::new();
        let ghost start = self.state;
        while bytes.len() < size
            invariant
                start == old(self).state,
                bytes@.len() <= size,
                bytes@.len() < size ==> bytes@.len() % 8 == 0,
                bytes@ == noise(start, bytes@.len()),
                self.state == state_after(start, noise_draws(bytes@.len())),
            decreases size - bytes@.len(),
        {
            let ghost done = bytes@.len();
            let ghost index = done / 8;
            assert(noise_draws(done) == index);
            let value: u64 = self.next_u64();
            let chunk = bytes_of_u64(value);
            let room: usize = size - bytes.len();
            let take: usize = if room < 8 {
                room
            } else {
                8
            };
            let mut j: usize = 0;
            while j < take
                invariant
                    j <= take <= 8,
                    done % 8 == 0,
                    index == done / 8,
                    chunk@ == u64_bytes(drawn(state_after(start, index)) as nat),
                    chunk@.len() == 8,
                    bytes@.len() == done + j,
                    bytes@ == noise(start, bytes@.len()),
                decreases take - j,
            {
                let ghost before = bytes@;
                bytes.push(chunk[j]);
                assert((done + j) / 8 == index && (done + j) % 8 == j);
                assert(bytes@ =~= noise(start, bytes@.len()));
                j = j + 1;
            }
            assert(noise_draws(bytes@.len()) == index + 1);
        }
        bytes
    }

    /// One byte of the mixed kind.
    pub fn mixed_byte(&mut self, hundredths: u32) -> (b: u8)
        ensures
            b == mixed_draw(old(self).state, hundredths),
            final(self).state == mixed_next(old(self).state, hundredths),
    {
        let draw: u64 = self.next_u64() % 10_000;
        if draw < hundredths as u64 * 100 {
            (self.next_u64() & 0xFF) as u8
        } else {
            0
        }
    }

    /// `size` bytes of the mixed kind.
    pub fn mixed_bytes(&mut self, hundredths: u32, size: usize) -> (bytes: Vec<u8>)
        ensures
            bytes@ == mixed_noise(old(self).state, hundredths, size as nat),
            final(self).state == mixed_after(old(self).state, hundredths, size as nat),
    {
        let mut bytes: Vec<u8> = Vec::new();
        let ghost start = self.state;
        while bytes.len() < size
            invariant
                start == old(self).state,
                bytes@.len() <= size,
                bytes@ == mixed_noise(start, hundredths, bytes@.len()),
                self.state == mixed_after(start, hundredths, bytes@.len()),
            decreases size - bytes@.len(),
        {
            let b: u8 = self.mixed_byte(hundredths);
            bytes.push(b);
            assert(bytes@ =~= mixed_noise(start, hundredths, bytes@.len()));
        }
        bytes
    }
}

} // verus!
