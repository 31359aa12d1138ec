//! Little-endian integers and byte-sequence helpers used by the record layout.

use vstd::prelude::*;

verus! {

/// The four bytes of `value`, least significant first.
pub open spec fn le_bytes_u32(value: u32) -> Seq<u8> {
    seq![
        (value % 256) as u8,
        ((value / 0x100) % 256) as u8,
        ((value / 0x1_0000) % 256) as u8,
        ((value / 0x100_0000) % 256) as u8,
    ]
}

/// The number whose little-endian bytes are the first four of `bytes`.
pub open spec fn le_value_u32(bytes: Seq<u8>) -> int {
    bytes[0] + 0x100 * bytes[1] + 0x1_0000 * bytes[2] + 0x100_0000 * bytes[3]
}

/// The eight bytes of `value`, least significant first.
pub open spec fn le_bytes_u64(value: u64) -> Seq<u8> {
    le_bytes_u32((value % 0x1_0000_0000) as u32) + le_bytes_u32((value / 0x1_0000_0000) as u32)
}

/// The number whose little-endian bytes are the first eight of `bytes`.
pub open spec fn le_value_u64(bytes: Seq<u8>) -> int {
    le_value_u32(bytes.subrange(0, 4)) + 0x1_0000_0000 * le_value_u32(bytes.subrange(4, 8))
}

/// The unsigned 64-bit number with the same bit pattern as `value` in two's complement.
pub open spec fn to_unsigned(value: i64) -> u64 {
    if value >= 0 {
        value as u64
    } else {
        (value + 0x1_0000_0000_0000_0000) as u64
    }
}

/// The signed 64-bit number with the same bit pattern as `value` in two's complement.
pub open spec fn to_signed(value: u64) -> i64 {
    if value < 0x8000_0000_0000_0000 {
        value as i64
    } else {
        (value - 0x1_0000_0000_0000_0000) as i64
    }
}

/// Reading back the bytes of a 32-bit number gives the number.
pub proof fn lemma_le_u32_round_trip(value: u32)
    ensures
        le_bytes_u32(value).len() == 4,
        le_value_u32(le_bytes_u32(value)) == value,
{
    let v = value as int;
    assert(v == v % 256 + 0x100 * (v / 0x100));
    assert(v / 0x100 == (v / 0x100) % 256 + 0x100 * (v / 0x1_0000));
    assert(v / 0x1_0000 == (v / 0x1_0000) % 256 + 0x100 * (v / 0x100_0000));
    assert(v / 0x100_0000 < 256);
}

/// Four bytes are the little-endian form of the number they spell.
pub proof fn lemma_le_u32_bytes_of_value(bytes: Seq<u8>)
    requires
        bytes.len() == 4,
    ensures
        0 <= le_value_u32(bytes) <= u32::MAX,
        le_bytes_u32(le_value_u32(bytes) as u32) == bytes,
{
    let b0: int = bytes[0] as int;
    let b1: int = bytes[1] as int;
    let b2: int = bytes[2] as int;
    let b3: int = bytes[3] as int;
    let v = le_value_u32(bytes);
    assert(v == b0 + 0x100 * (b1 + 0x100 * (b2 + 0x100 * b3)));
    assert(v % 256 == b0 && v / 0x100 == b1 + 0x100 * (b2 + 0x100 * b3));
    assert((v / 0x100) % 256 == b1 && v / 0x1_0000 == b2 + 0x100 * b3);
    assert((v / 0x1_0000) % 256 == b2 && v / 0x100_0000 == b3);
    assert(le_bytes_u32(v as u32) =~= bytes);
}

/// Reading back the bytes of a 64-bit number gives the number.
pub proof fn lemma_le_u64_round_trip(value: u64)
    ensures
        le_bytes_u64(value).len() == 8,
        le_value_u64(le_bytes_u64(value)) == value,
{
    let low = (value % 0x1_0000_0000) as u32;
    let high = (value / 0x1_0000_0000) as u32;
    lemma_le_u32_round_trip(low);
    lemma_le_u32_round_trip(high);
    assert(le_bytes_u64(value).subrange(0, 4) =~= le_bytes_u32(low));
    assert(le_bytes_u64(value).subrange(4, 8) =~= le_bytes_u32(high));
}

/// Eight bytes are the little-endian form of the number they spell.
pub proof fn lemma_le_u64_bytes_of_value(bytes: Seq<u8>)
    requires
        bytes.len() == 8,
    ensures
        0 <= le_value_u64(bytes) <= u64::MAX,
        le_bytes_u64(le_value_u64(bytes) as u64) == bytes,
{
    let low = bytes.subrange(0, 4);
    let high = bytes.subrange(4, 8);
    lemma_le_u32_bytes_of_value(low);
    lemma_le_u32_bytes_of_value(high);
    let l = le_value_u32(low);
    let h = le_value_u32(high);
    let v = le_value_u64(bytes);
    assert(v == l + 0x1_0000_0000 * h);
    assert(0 <= l < 0x1_0000_0000 && 0 <= h < 0x1_0000_0000);
    assert(v % 0x1_0000_0000 == l && v / 0x1_0000_0000 == h);
    assert(le_bytes_u32(l as u32) == low && le_bytes_u32(h as u32) == high);
    assert(le_bytes_u64(v as u64) == low + high);
    assert(low + high =~= bytes);
}

/// Signed and unsigned readings of one bit pattern convert into each other without loss.
pub proof fn lemma_sign_round_trip(signed: i64, unsigned: u64)
    ensures
        to_signed(to_unsigned(signed)) == signed,
        to_unsigned(to_signed(unsigned)) == unsigned,
{
}

/// Appends the four little-endian bytes of `value` to `out`.
pub fn push_le_u32(out: &mut Vec<u8>, value: u32)
    ensures
        final(out)@ == old(out)@ + le_bytes_u32(value),
{
    out.push((value % 256) as u8);
    out.push(((value / 0x100) % 256) as u8);
    out.push(((value / 0x1_0000) % 256) as u8);
    out.push(((value / 0x100_0000) % 256) as u8);
    assert(out@ =~= old(out)@ + le_bytes_u32(value));
}

/// Appends the eight little-endian bytes of `value` to `out`.
pub fn push_le_u64(out: &mut Vec<u8>, value: u64)
    ensures
        final(out)@ == old(out)@ + le_bytes_u64(value),
{
    push_le_u32(out, (value % 0x1_0000_0000) as u32);
    push_le_u32(out, (value / 0x1_0000_0000) as u32);
    assert(out@ =~= old(out)@ + le_bytes_u64(value));
}

/// Reads the 32-bit little-endian number that starts at index `at`.
pub fn read_le_u32(bytes: &[u8], at: usize) -> (value: u32)
    requires
        at + 4 <= bytes.len(),
    ensures
        value == le_value_u32(bytes@.subrange(at as int, at + 4)),
{
    let b0: u32 = bytes[at] as u32;
    let b1: u32 = bytes[at + 1] as u32;
    let b2: u32 = bytes[at + 2] as u32;
    let b3: u32 = bytes[at + 3] as u32;
    b0 + 0x100 * b1 + 0x1_0000 * b2 + 0x100_0000 * b3
}

/// Reads the 64-bit little-endian number that starts at index `at`.
pub fn read_le_u64(bytes: &[u8], at: usize) -> (value: u64)
    requires
        at + 8 <= bytes.len(),
    ensures
        value == le_value_u64(bytes@.subrange(at as int, at + 8)),
{
    let low: u64 = read_le_u32(bytes, at) as u64;
    let high: u64 = read_le_u32(bytes, at + 4) as u64;
    proof {
        let window = bytes@.subrange(at as int, at + 8);
        assert(window.subrange(0, 4) =~= bytes@.subrange(at as int, at + 4));
        assert(window.subrange(4, 8) =~= bytes@.subrange(at + 4, at + 8));
    }
    low + 0x1_0000_0000 * high
}

/// The bit pattern of a signed number, read as unsigned.
pub fn unsigned_of(value: i64) -> (unsigned: u64)
    ensures
        unsigned == to_unsigned(value),
{
    if value >= 0 {
        value as u64
    } else {
        let above_min: u64 = (value - i64::MIN) as u64;
        above_min + 0x8000_0000_0000_0000
    }
}

/// The bit pattern of an unsigned number, read as signed.
pub fn signed_of(value: u64) -> (signed: i64)
    ensures
        signed == to_signed(value),
{
    if value < 0x8000_0000_0000_0000 {
        value as i64
    } else {
        let above_min: i64 = (value - 0x8000_0000_0000_0000) as i64;
        above_min + i64::MIN
    }
}

/// Appends `bytes` to `out`.
pub fn push_bytes(out: &mut Vec<u8>, bytes: &[u8])
    ensures
        final(out)@ == old(out)@ + bytes@,
{
    let mut i: usize = 0;
    while i < bytes.len()
        invariant
            i <= bytes.len(),
            out@ == old(out)@ + bytes@.subrange(0, i as int),
        decreases bytes.len() - i,
    {
        out.push(bytes[i]);
        i += 1;
        assert(out@ =~= old(out)@ + bytes@.subrange(0, i as int));
    }
    assert(bytes@.subrange(0, i as int) =~= bytes@);
}

/// Appends `count` zero bytes to `out`.
pub fn push_zeros(out: &mut Vec<u8>, count: usize)
    ensures
        final(out)@ == old(out)@ + Seq::new(count as nat, |i: int| 0u8),
{
    let mut i: usize = 0;
    while i < count
        invariant
            i <= count,
            out@ == old(out)@ + Seq::new(i as nat, |k: int| 0u8),
        decreases count - i,
    {
        out.push(0);
        i += 1;
        assert(out@ =~= old(out)@ + Seq::new(i as nat, |k: int| 0u8));
    }
}

/// Whether two byte strings hold the same bytes.
pub fn same_bytes(left: &[u8], right: &[u8]) -> (same: bool)
    ensures
        same == (left@ == right@),
{
    if left.len() != right.len() {
        return false;
    }
    let mut i: usize = 0;
    while i < left.len()
        invariant
            left@.len() == right@.len(),
            i <= left@.len(),
            forall|k: int| 0 <= k < i ==> left@[k] == right@[k],
        decreases left@.len() - i,
    {
        if left[i] != right[i] {
            return false;
        }
        i += 1;
    }
    assert(left@ =~= right@);
    true
}

} // verus!
