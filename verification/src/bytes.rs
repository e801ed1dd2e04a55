//! Integers in the byte images that user space and daemons exchange with the
//! kernel: the little-endian order of the supported machine.

use vstd::prelude::*;
use crate::bootfb::{copy_into, splice};

verus! {

/// The byte image of a 16-bit value.
pub open spec fn le16(x: u16) -> Seq<u8> {
    seq![x as u8, (x >> 8) as u8]
}

/// The byte image of a 32-bit value.
pub open spec fn le32(x: u32) -> Seq<u8> {
    seq![x as u8, (x >> 8) as u8, (x >> 16) as u8, (x >> 24) as u8]
}

/// The byte image of a 64-bit value.
pub open spec fn le64(x: u64) -> Seq<u8> {
    seq![
        x as u8,
        (x >> 8) as u8,
        (x >> 16) as u8,
        (x >> 24) as u8,
        (x >> 32) as u8,
        (x >> 40) as u8,
        (x >> 48) as u8,
        (x >> 56) as u8,
    ]
}

/// The 16-bit value whose image starts at `at`.
pub open spec fn u16_at(s: Seq<u8>, at: int) -> u16 {
    (s[at] as u16) | ((s[at + 1] as u16) << 8)
}

/// The 32-bit value whose image starts at `at`.
pub open spec fn u32_at(s: Seq<u8>, at: int) -> u32 {
    (s[at] as u32) | ((s[at + 1] as u32) << 8) | ((s[at + 2] as u32) << 16) | ((s[at + 3] as u32)
        << 24)
}

/// The 64-bit value whose image starts at `at`.
pub open spec fn u64_at(s: Seq<u8>, at: int) -> u64 {
    (s[at] as u64) | ((s[at + 1] as u64) << 8) | ((s[at + 2] as u64) << 16) | ((s[at + 3] as u64)
        << 24) | ((s[at + 4] as u64) << 32) | ((s[at + 5] as u64) << 40) | ((s[at + 6] as u64) << 48)
        | ((s[at + 7] as u64) << 56)
}

/// A 16-bit value is read back from where its image stands.
pub proof fn law_u16_round_trip(s: Seq<u8>, at: int, x: u16)
    requires
        0 <= at,
        at + 2 <= s.len(),
        s.subrange(at, at + 2) == le16(x),
    ensures
        u16_at(s, at) == x,
{
    let image = s.subrange(at, at + 2);
    assert(image[0] == s[at] && image[1] == s[at + 1]);
    assert(((x as u8) as u16) | ((((x >> 8) as u8) as u16) << 8) == x) by (bit_vector);
}

/// A 32-bit value is read back from where its image stands.
pub proof fn law_u32_round_trip(s: Seq<u8>, at: int, x: u32)
    requires
        0 <= at,
        at + 4 <= s.len(),
        s.subrange(at, at + 4) == le32(x),
    ensures
        u32_at(s, at) == x,
{
    let image = s.subrange(at, at + 4);
    assert(image[0] == s[at] && image[1] == s[at + 1] && image[2] == s[at + 2] && image[3] == s[at
        + 3]);
    assert(((x as u8) as u32) | ((((x >> 8) as u8) as u32) << 8) | ((((x >> 16) as u8) as u32) << 16)
        | ((((x >> 24) as u8) as u32) << 24) == x) by (bit_vector);
}

/// A 64-bit value is read back from where its image stands.
pub proof fn law_u64_round_trip(s: Seq<u8>, at: int, x: u64)
    requires
        0 <= at,
        at + 8 <= s.len(),
        s.subrange(at, at + 8) == le64(x),
    ensures
        u64_at(s, at) == x,
{
    let image = s.subrange(at, at + 8);
    assert(image[0] == s[at] && image[1] == s[at + 1] && image[2] == s[at + 2] && image[3] == s[at
        + 3] && image[4] == s[at + 4] && image[5] == s[at + 5] && image[6] == s[at + 6] && image[7]
        == s[at + 7]);
    assert(((x as u8) as u64) | ((((x >> 8) as u8) as u64) << 8) | ((((x >> 16) as u8) as u64) << 16)
        | ((((x >> 24) as u8) as u64) << 24) | ((((x >> 32) as u8) as u64) << 32) | ((((x
        >> 40) as u8) as u64) << 40) | ((((x >> 48) as u8) as u64) << 48) | ((((x >> 56) as u8) as u64)
        << 56) == x) by (bit_vector);
}

/// A 16-bit value is read where its two bytes stand.
pub(crate) proof fn word16(s: Seq<u8>, at: int, x: u16)
    requires
        0 <= at,
        at + 2 <= s.len(),
        s[at] == le16(x)[0],
        s[at + 1] == le16(x)[1],
    ensures
        u16_at(s, at) == x,
{
    assert(s.subrange(at, at + 2) =~= le16(x));
    law_u16_round_trip(s, at, x);
}

/// A 32-bit value is read where its four bytes stand.
pub(crate) proof fn word32(s: Seq<u8>, at: int, x: u32)
    requires
        0 <= at,
        at + 4 <= s.len(),
        s[at] == le32(x)[0],
        s[at + 1] == le32(x)[1],
        s[at + 2] == le32(x)[2],
        s[at + 3] == le32(x)[3],
    ensures
        u32_at(s, at) == x,
{
    assert(s.subrange(at, at + 4) =~= le32(x));
    law_u32_round_trip(s, at, x);
}

/// A 64-bit value is read where its eight bytes stand.
pub(crate) proof fn word64(s: Seq<u8>, at: int, x: u64)
    requires
        0 <= at,
        at + 8 <= s.len(),
        forall|i: int| 0 <= i < 8 ==> s[at + i] == #[trigger] le64(x)[i],
    ensures
        u64_at(s, at) == x,
{
    assert(s.subrange(at, at + 8) =~= le64(x));
    law_u64_round_trip(s, at, x);
}

/// A 32-bit value reads the same inside a longer sequence.
pub(crate) proof fn moved32(bytes: Seq<u8>, image: Seq<u8>, at: int, k: int)
    requires
        0 <= k,
        k + 4 <= image.len(),
        forall|i: int| 0 <= i < image.len() ==> #[trigger] bytes[at + i] == image[i],
    ensures
        u32_at(bytes, at + k) == u32_at(image, k),
{
    assert(bytes[at + k] == image[k]);
    assert(bytes[at + (k + 1)] == image[k + 1]);
    assert(bytes[at + (k + 2)] == image[k + 2]);
    assert(bytes[at + (k + 3)] == image[k + 3]);
}

/// A 64-bit value reads the same inside a longer sequence.
pub(crate) proof fn moved64(bytes: Seq<u8>, image: Seq<u8>, at: int, k: int)
    requires
        0 <= k,
        k + 8 <= image.len(),
        forall|i: int| 0 <= i < image.len() ==> #[trigger] bytes[at + i] == image[i],
    ensures
        u64_at(bytes, at + k) == u64_at(image, k),
{
    assert(bytes[at + k] == image[k]);
    assert(bytes[at + (k + 1)] == image[k + 1]);
    assert(bytes[at + (k + 2)] == image[k + 2]);
    assert(bytes[at + (k + 3)] == image[k + 3]);
    assert(bytes[at + (k + 4)] == image[k + 4]);
    assert(bytes[at + (k + 5)] == image[k + 5]);
    assert(bytes[at + (k + 6)] == image[k + 6]);
    assert(bytes[at + (k + 7)] == image[k + 7]);
}
/// The image of a value starts with its lowest byte: the value is the sum of its bytes, each
/// 256 times the one before it.
pub proof fn law_images_start_with_the_lowest_byte(s: Seq<u8>, at: int)
    ensures
        u16_at(s, at) as int == s[at] + 0x100 * s[at + 1],
        u32_at(s, at) as int == s[at] + 0x100 * s[at + 1] + 0x1_0000 * s[at + 2] + 0x100_0000 * s[at
            + 3],
        u64_at(s, at) as int == s[at] + 0x100 * s[at + 1] + 0x1_0000 * s[at + 2] + 0x100_0000 * s[at
            + 3] + 0x1_0000_0000 * s[at + 4] + 0x100_0000_0000 * s[at + 5] + 0x1_0000_0000_0000
            * s[at + 6] + 0x100_0000_0000_0000 * s[at + 7],
{
    let (a, b, c, d) = (s[at], s[at + 1], s[at + 2], s[at + 3]);
    let (e, f, g, h) = (s[at + 4], s[at + 5], s[at + 6], s[at + 7]);
    assert((a as u16) | ((b as u16) << 8) == a as u16 + 0x100 * b as u16) by (bit_vector);
    assert((a as u32) | ((b as u32) << 8) | ((c as u32) << 16) | ((d as u32) << 24) == a as u32
        + 0x100 * b as u32 + 0x1_0000 * c as u32 + 0x100_0000 * d as u32) by (bit_vector);
    assert((a as u64) | ((b as u64) << 8) | ((c as u64) << 16) | ((d as u64) << 24) | ((e as u64)
        << 32) | ((f as u64) << 40) | ((g as u64) << 48) | ((h as u64) << 56) == a as u64 + 0x100
        * b as u64 + 0x1_0000 * c as u64 + 0x100_0000 * d as u64 + 0x1_0000_0000 * e as u64
        + 0x100_0000_0000 * f as u64 + 0x1_0000_0000_0000 * g as u64 + 0x100_0000_0000_0000
        * h as u64) by (bit_vector);
}

fn image16(value: u16) -> (image: [u8; 2])
    ensures
        image@ == le16(value),
{
    let image = [
        #[verifier::truncate]
        (value as u8),
        #[verifier::truncate]
        ((value >> 8) as u8),
    ];
    assert(image@ =~= le16(value));
    image
}

fn image32(value: u32) -> (image: [u8; 4])
    ensures
        image@ == le32(value),
{
    let image = [
        #[verifier::truncate]
        (value as u8),
        #[verifier::truncate]
        ((value >> 8) as u8),
        #[verifier::truncate]
        ((value >> 16) as u8),
        #[verifier::truncate]
        ((value >> 24) as u8),
    ];
    assert(image@ =~= le32(value));
    image
}

fn image64(value: u64) -> (image: [u8; 8])
    ensures
        image@ == le64(value),
{
    let image = [
        #[verifier::truncate]
        (value as u8),
        #[verifier::truncate]
        ((value >> 8) as u8),
        #[verifier::truncate]
        ((value >> 16) as u8),
        #[verifier::truncate]
        ((value >> 24) as u8),
        #[verifier::truncate]
        ((value >> 32) as u8),
        #[verifier::truncate]
        ((value >> 40) as u8),
        #[verifier::truncate]
        ((value >> 48) as u8),
        #[verifier::truncate]
        ((value >> 56) as u8),
    ];
    assert(image@ =~= le64(value));
    image
}

/// Lay the image of a 16-bit value over `bytes` from `offset` on.
pub fn put_u16(bytes: &mut [u8], offset: usize, value: u16)
    requires
        offset + 2 <= old(bytes)@.len(),
    ensures
        final(bytes)@ == splice(old(bytes)@, offset as int, le16(value)),
{
    let image = image16(value);
    copy_into(bytes, offset, image.as_slice());
}

/// Lay the image of a 32-bit value over `bytes` from `offset` on.
pub fn put_u32(bytes: &mut [u8], offset: usize, value: u32)
    requires
        offset + 4 <= old(bytes)@.len(),
    ensures
        final(bytes)@ == splice(old(bytes)@, offset as int, le32(value)),
{
    let image = image32(value);
    copy_into(bytes, offset, image.as_slice());
}

/// Lay the image of a 64-bit value over `bytes` from `offset` on.
pub fn put_u64(bytes: &mut [u8], offset: usize, value: u64)
    requires
        offset + 8 <= old(bytes)@.len(),
    ensures
        final(bytes)@ == splice(old(bytes)@, offset as int, le64(value)),
{
    let image = image64(value);
    copy_into(bytes, offset, image.as_slice());
}

/// Append bytes.
pub fn push_bytes(bytes: &mut Vec<u8>, tail: &[u8])
    ensures
        final(bytes)@ == old(bytes)@ + tail@,
{
    bytes.extend_from_slice(tail);
    assert(bytes@ =~= old(bytes)@ + tail@);
}

/// Append the image of a 16-bit value.
pub fn push_u16(bytes: &mut Vec<u8>, value: u16)
    ensures
        final(bytes)@ == old(bytes)@ + le16(value),
{
    let image = image16(value);
    push_bytes(bytes, image.as_slice());
}

/// Append the image of a 32-bit value.
pub fn push_u32(bytes: &mut Vec<u8>, value: u32)
    ensures
        final(bytes)@ == old(bytes)@ + le32(value),
{
    let image = image32(value);
    push_bytes(bytes, image.as_slice());
}

/// Append the image of a 64-bit value.
pub fn push_u64(bytes: &mut Vec<u8>, value: u64)
    ensures
        final(bytes)@ == old(bytes)@ + le64(value),
{
    let image = image64(value);
    push_bytes(bytes, image.as_slice());
}

/// Append `count` zero bytes.
pub fn push_zeroes(bytes: &mut Vec<u8>, count: usize)
    ensures
        final(bytes)@ == old(bytes)@ + Seq::new(count as nat, |i: int| 0u8),
{
    let mut done: usize = 0;
    assert(bytes@ =~= old(bytes)@ + Seq::new(0, |i: int| 0u8));
    while done < count
        invariant
            done <= count,
            bytes@ == old(bytes)@ + Seq::new(done as nat, |i: int| 0u8),
        decreases count - done,
    {
        bytes.push(0);
        done = done + 1;
        assert(bytes@ =~= old(bytes)@ + Seq::new(done as nat, |i: int| 0u8));
    }
}

/// The 16-bit value at `offset`.
pub fn get_u16(bytes: &[u8], offset: usize) -> (value: u16)
    requires
        offset + 2 <= bytes@.len(),
    ensures
        value == u16_at(bytes@, offset as int),
{
    let _size: usize = bytes.len();
    (bytes[offset] as u16) | ((bytes[offset + 1] as u16) << 8)
}

/// The 32-bit value at `offset`.
pub fn get_u32(bytes: &[u8], offset: usize) -> (value: u32)
    requires
        offset + 4 <= bytes@.len(),
    ensures
        value == u32_at(bytes@, offset as int),
{
    let _size: usize = bytes.len();
    (bytes[offset] as u32) | ((bytes[offset + 1] as u32) << 8) | ((bytes[offset + 2] as u32) << 16) | ((
    bytes[offset + 3] as u32) << 24)
}

/// The 64-bit value at `offset`.
pub fn get_u64(bytes: &[u8], offset: usize) -> (value: u64)
    requires
        offset + 8 <= bytes@.len(),
    ensures
        value == u64_at(bytes@, offset as int),
{
    let _size: usize = bytes.len();
    (bytes[offset] as u64) | ((bytes[offset + 1] as u64) << 8) | ((bytes[offset + 2] as u64) << 16) | ((
    bytes[offset + 3] as u64) << 24) | ((bytes[offset + 4] as u64) << 32) | ((bytes[offset
        + 5] as u64) << 40) | ((bytes[offset + 6] as u64) << 48) | ((bytes[offset + 7] as u64) << 56)
}

/// A copy of a byte slice.
pub fn to_vec(bytes: &[u8]) -> (copy: Vec<u8>)
    ensures
        copy@ == bytes@,
{
    let mut copy: Vec<u8> = Vec::new();
    push_bytes(&mut copy, bytes);
    assert(copy@ =~= bytes@);
    copy
}

/// Whether two byte slices hold the same bytes.
pub fn same_bytes(a: &[u8], b: &[u8]) -> (same: bool)
    ensures
        same == (a@ == b@),
{
    if a.len() != b.len() {
        return false;
    }
    let mut index: usize = 0;
    while index < a.len()
        invariant
            index <= a@.len() == b@.len(),
            forall|i: int| 0 <= i < index ==> #[trigger] a@[i] == b@[i],
        decreases a@.len() - index,
    {
        if a[index] != b[index] {
            return false;
        }
        index = index + 1;
    }
    assert(a@ =~= b@);
    true
}

} // verus!
