//! Bitmaps of keys, lights, switches and capabilities.

use vstd::prelude::*;
use crate::evdev::hex::{hex, push_hex};

verus! {

/// Keys that an event can name.
pub const KEY_CNT: usize = 768;

/// Lights that an event can name.
pub const LED_CNT: usize = 16;

/// Switches that an event can name.
pub const SWITCH_CNT: usize = 18;

/// One bit for every key.
#[verifier::external_body]
pub struct KeyBitmap {
    inner: bitmaps::Bitmap<768>,
}

/// The keys whose bit is set.
pub uninterp spec fn key_bits(map: KeyBitmap) -> Set<usize>;

impl KeyBitmap {
    /// `bitmaps::Bitmap::new`: no bit is set.
    #[verifier::external_body]
    pub(crate) fn new() -> (map: KeyBitmap)
        ensures
            key_bits(map) == Set::<usize>::empty(),
    {
        KeyBitmap { inner: bitmaps::Bitmap::new() }
    }

    /// `bitmaps::Bitmap::get`: whether a bit is set.
    #[verifier::external_body]
    pub(crate) fn get(&self, index: usize) -> (bit: bool)
        requires
            index < 768,
        ensures
            bit == key_bits(*self).contains(index),
    {
        self.inner.get(index)
    }

    /// `bitmaps::Bitmap::set`: sets or clears a bit, and leaves every other.
    #[verifier::external_body]
    pub(crate) fn set(&mut self, index: usize, value: bool)
        requires
            index < 768,
        ensures
            key_bits(*final(self)) == (if value {
                key_bits(*old(self)).insert(index)
            } else {
                key_bits(*old(self)).remove(index)
            }),
    {
        self.inner.set(index, value);
    }
}

/// One bit for every light.
#[verifier::external_body]
pub struct LedBitmap {
    inner: bitmaps::Bitmap<16>,
}

/// The lights whose bit is set.
pub uninterp spec fn led_bits(map: LedBitmap) -> Set<usize>;

impl LedBitmap {
    /// `bitmaps::Bitmap::new`: no bit is set.
    #[verifier::external_body]
    pub(crate) fn new() -> (map: LedBitmap)
        ensures
            led_bits(map) == Set::<usize>::empty(),
    {
        LedBitmap { inner: bitmaps::Bitmap::new() }
    }

    /// `bitmaps::Bitmap::get`: whether a bit is set.
    #[verifier::external_body]
    pub(crate) fn get(&self, index: usize) -> (bit: bool)
        requires
            index < 16,
        ensures
            bit == led_bits(*self).contains(index),
    {
        self.inner.get(index)
    }

    /// `bitmaps::Bitmap::set`: sets or clears a bit, and leaves every other.
    #[verifier::external_body]
    pub(crate) fn set(&mut self, index: usize, value: bool)
        requires
            index < 16,
        ensures
            led_bits(*final(self)) == (if value {
                led_bits(*old(self)).insert(index)
            } else {
                led_bits(*old(self)).remove(index)
            }),
    {
        self.inner.set(index, value);
    }
}

/// One bit for every switch.
#[verifier::external_body]
pub struct SwitchBitmap {
    inner: bitmaps::Bitmap<18>,
}

/// The switches whose bit is set.
pub uninterp spec fn switch_bits(map: SwitchBitmap) -> Set<usize>;

impl SwitchBitmap {
    /// `bitmaps::Bitmap::new`: no bit is set.
    #[verifier::external_body]
    pub(crate) fn new() -> (map: SwitchBitmap)
        ensures
            switch_bits(map) == Set::<usize>::empty(),
    {
        SwitchBitmap { inner: bitmaps::Bitmap::new() }
    }

    /// `bitmaps::Bitmap::get`: whether a bit is set.
    #[verifier::external_body]
    pub(crate) fn get(&self, index: usize) -> (bit: bool)
        requires
            index < 18,
        ensures
            bit == switch_bits(*self).contains(index),
    {
        self.inner.get(index)
    }

    /// `bitmaps::Bitmap::set`: sets or clears a bit, and leaves every other.
    #[verifier::external_body]
    pub(crate) fn set(&mut self, index: usize, value: bool)
        requires
            index < 18,
        ensures
            switch_bits(*final(self)) == (if value {
                switch_bits(*old(self)).insert(index)
            } else {
                switch_bits(*old(self)).remove(index)
            }),
    {
        self.inner.set(index, value);
    }
}

/// The weight of a bit of a byte.
pub open spec fn weight(set: bool, value: int) -> int {
    if set {
        value
    } else {
        0
    }
}

/// The byte of eight bits, the first of them the lowest.
pub open spec fn byte_at(bits: Set<usize>, base: int) -> u8 {
    (weight(bits.contains(base as usize), 1) + weight(bits.contains((base + 1) as usize), 2)
        + weight(bits.contains((base + 2) as usize), 4) + weight(
        bits.contains((base + 3) as usize),
        8,
    ) + weight(bits.contains((base + 4) as usize), 16) + weight(
        bits.contains((base + 5) as usize),
        32,
    ) + weight(bits.contains((base + 6) as usize), 64) + weight(
        bits.contains((base + 7) as usize),
        128,
    )) as u8
}

/// The bytes of the first `limit` bits, in a buffer of `size` bytes: what does not
/// fit is cut off, and what is left over is zero.
pub open spec fn bitmap_bytes(bits: Set<usize>, limit: nat, size: nat) -> Seq<u8> {
    Seq::new(
        size,
        |i: int|
            if 8 * i < limit {
                byte_at(
                    Set::new(|bit: usize| bit < limit && bits.contains(bit)),
                    8 * i,
                )
            } else {
                0
            },
    )
}

fn bit_weight(set: bool, value: u8) -> (w: u8)
    ensures
        w == weight(set, value as int),
{
    if set {
        value
    } else {
        0
    }
}

/// The byte of eight flags, the first of them the lowest.
pub(crate) fn packed(b: [bool; 8]) -> (byte: u8)
    ensures
        byte == weight(b@[0], 1) + weight(b@[1], 2) + weight(b@[2], 4) + weight(b@[3], 8) + weight(
            b@[4],
            16,
        ) + weight(b@[5], 32) + weight(b@[6], 64) + weight(b@[7], 128),
{
    bit_weight(b[0], 1) + bit_weight(b[1], 2) + bit_weight(b[2], 4) + bit_weight(b[3], 8)
        + bit_weight(b[4], 16) + bit_weight(b[5], 32) + bit_weight(b[6], 64) + bit_weight(b[7], 128)
}

/// The bytes that `bits` bits take, of at most `size`.
pub fn zero_bits_len(size: usize, bits: usize) -> (len: usize)
    ensures
        len == (if (bits as int + 7) / 8 <= size {
            (bits as int + 7) / 8
        } else {
            size as int
        }),
{
    let bytes: usize = bits / 8 + if bits % 8 == 0 {
        0
    } else {
        1
    };
    if bytes <= size {
        bytes
    } else {
        size
    }
}

/// The bytes of the machine words that `max_bit` bits take.
pub open spec fn word_bytes(max_bit: nat) -> nat {
    (max_bit + 63) / 64 * 8
}

/// The length of a bitmap answer: whole words, of at most `size` bytes.
pub fn linux_bitmap_len(size: usize, max_bit: usize) -> (len: usize)
    ensures
        len == (if word_bytes(max_bit as nat) <= size {
            word_bytes(max_bit as nat) as int
        } else {
            size as int
        }),
{
    let words: usize = max_bit / 64 + if max_bit % 64 == 0 {
        0
    } else {
        1
    };
    let bytes: usize = words * 8;
    if bytes <= size {
        bytes
    } else {
        size
    }
}

/// A bitmap with one more bit set, where the bit fits.
pub open spec fn with_bit(bits: Seq<u8>, bit: int) -> Seq<u8> {
    if bit / 8 < bits.len() {
        bits.update(bit / 8, bits[bit / 8] | (1u8 << ((bit % 8) as u8)))
    } else {
        bits
    }
}

pub fn set_bit_if_fits(bits: &mut [u8], bit: usize)
    ensures
        final(bits)@ == with_bit(old(bits)@, bit as int),
{
    let index: usize = bit / 8;
    if index < bits.len() {
        let byte: u8 = bits[index] | (1u8 << ((bit % 8) as u8));
        bits[index] = byte;
    }
}

/// Whether a bitmap has a bit.
pub open spec fn has_bit(bits: Seq<u8>, bit: int) -> bool {
    bit / 8 < bits.len() && bits[bit / 8] & (1u8 << ((bit % 8) as u8)) != 0
}

pub fn bit_is_set(bits: &[u8], bit: usize) -> (set: bool)
    ensures
        set == has_bit(bits@, bit as int),
{
    let index: usize = bit / 8;
    index < bits.len() && bits[index] & (1u8 << ((bit % 8) as u8)) != 0
}

/// The number that the bytes from `at` on write, of at most `n`, the first of them
/// the lowest.
pub open spec fn word_value(bytes: Seq<u8>, at: int, n: nat) -> nat
    decreases n,
{
    if n == 0 || at >= bytes.len() {
        0
    } else {
        bytes[at] as nat + 256 * word_value(bytes, at + 1, (n - 1) as nat)
    }
}

/// The number of machine words up to the last byte that is not zero.
pub open spec fn word_count(bytes: Seq<u8>, n: nat) -> nat
    decreases n,
{
    if n == 0 {
        1
    } else if bytes[n - 1] != 0 {
        ((n - 1) / 8 + 1) as nat
    } else {
        word_count(bytes, (n - 1) as nat)
    }
}

/// The first `n` machine words, the last of them first, with spaces between them.
pub open spec fn words_down(bytes: Seq<u8>, n: nat) -> Seq<u8>
    decreases n,
{
    if n == 0 {
        Seq::empty()
    } else if n == 1 {
        hex(word_value(bytes, 0, 8), false)
    } else {
        hex(word_value(bytes, 8 * (n - 1), 8), false).push(32u8) + words_down(
            bytes,
            (n - 1) as nat,
        )
    }
}

/// A bitmap as the input subsystem prints it: machine words in hexadecimal, the
/// highest first.
pub open spec fn bitmap_text(bytes: Seq<u8>) -> Seq<u8> {
    words_down(bytes, word_count(bytes, bytes.len())).push(10u8)
}

fn word_at(bytes: &[u8], at: usize) -> (value: u64)
    requires
        at <= usize::MAX - 8,
    ensures
        value == word_value(bytes@, at as int, 8),
{
    let mut value: u64 = 0;
    assert(pow256(7) == 0x100_0000_0000_0000) by {
        reveal_with_fuel(pow256, 8);
    }
    let mut k: usize = 0;
    while k < 8 && at + k < bytes.len()
        invariant
            k <= 8,
            at <= usize::MAX - 8,
            k > 0 ==> at + k <= bytes@.len(),
        decreases 8 - k,
    {
        k = k + 1;
    }
    assert(word_value(bytes@, at + k, (8 - k) as nat) == 0) by {
        if k < 8 {
            assert(at + k >= bytes@.len());
        }
    }
    while k > 0
        invariant
            k <= 8,
            at <= usize::MAX - 8,
            k > 0 ==> at + k <= bytes@.len(),
            pow256(7) == 0x100_0000_0000_0000,
            value == word_value(bytes@, at + k, (8 - k) as nat),
        decreases k,
    {
        proof {
            word_fits(bytes@, at + k, (8 - k) as nat);
            pow256_grows((8 - k) as nat, 7);
        }
        k = k - 1;
        value = value * 256 + bytes[at + k] as u64;
    }
    value
}

/// A power of 256.
pub open spec fn pow256(n: nat) -> nat
    decreases n,
{
    if n == 0 {
        1
    } else {
        256 * pow256((n - 1) as nat)
    }
}

proof fn pow256_grows(n: nat, m: nat)
    requires
        n <= m,
    ensures
        pow256(n) <= pow256(m),
    decreases m,
{
    if n < m {
        pow256_grows(n, (m - 1) as nat);
    }
}

proof fn word_fits(bytes: Seq<u8>, at: int, n: nat)
    ensures
        word_value(bytes, at, n) < pow256(n),
    decreases n,
{
    if n > 0 {
        word_fits(bytes, at + 1, (n - 1) as nat);
    }
}

/// Print a bitmap.
pub fn bitmap_hex(bytes: &[u8]) -> (text: Vec<u8>)
    requires
        bytes@.len() <= usize::MAX - 16,
    ensures
        text@ == bitmap_text(bytes@),
{
    let mut n: usize = bytes.len();
    while n > 0 && bytes[n - 1] == 0
        invariant
            n <= bytes@.len(),
            word_count(bytes@, bytes@.len()) == word_count(bytes@, n as nat),
        decreases n,
    {
        n = n - 1;
    }
    let count: usize = if n == 0 {
        1
    } else {
        (n - 1) / 8 + 1
    };
    assert(count == word_count(bytes@, bytes@.len()));
    let mut text: Vec<u8> = Vec::new();
    let mut left: usize = count;
    assert(text@ + words_down(bytes@, count as nat) =~= words_down(bytes@, count as nat));
    while left > 0
        invariant
            left <= count,
            count <= bytes@.len() / 8 + 1,
            bytes@.len() <= usize::MAX - 16,
            text@ + words_down(bytes@, left as nat) == words_down(bytes@, count as nat),
        decreases left,
    {
        let ghost before = text@;
        let word: u64 = word_at(bytes, 8 * (left - 1));
        push_hex(&mut text, word, false);
        if left > 1 {
            text.push(32);
        }
        assert(text@ + words_down(bytes@, (left - 1) as nat) =~= before + words_down(
            bytes@,
            left as nat,
        ));
        left = left - 1;
    }
    assert(text@ =~= words_down(bytes@, count as nat));
    text.push(10);
    text
}

} // verus!
