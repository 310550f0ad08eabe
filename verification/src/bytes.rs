//! Little-endian byte layouts of the fixed-width integers.
use vstd::prelude::*;

verus! {

/// The two bytes of `x`, least significant first.
pub open spec fn u16_le(x: u16) -> Seq<u8> {
    seq![(x % 256) as u8, (x / 256) as u8]
}

/// The four bytes of `x`, least significant first.
pub open spec fn u32_le(x: u32) -> Seq<u8> {
    seq![
        (x % 0x100) as u8,
        (x / 0x100 % 0x100) as u8,
        (x / 0x1_0000 % 0x100) as u8,
        (x / 0x100_0000) as u8,
    ]
}

/// The eight bytes of `x`, least significant first.
pub open spec fn u64_le(x: u64) -> Seq<u8> {
    u32_le((x % 0x1_0000_0000) as u32) + u32_le((x / 0x1_0000_0000) as u32)
}

/// The four bytes of the two's complement of `x`, least significant first.
pub open spec fn i32_le(x: i32) -> Seq<u8> {
    u32_le((x as int % 0x1_0000_0000) as u32)
}

/// The number whose little-endian bytes stand at `at` in `s`.
pub open spec fn u16_at(s: Seq<u8>, at: int) -> u16 {
    (s[at] + 0x100 * s[at + 1]) as u16
}

/// The number whose little-endian bytes stand at `at` in `s`.
pub open spec fn u32_at(s: Seq<u8>, at: int) -> u32 {
    (s[at] + 0x100 * s[at + 1] + 0x1_0000 * s[at + 2] + 0x100_0000 * s[at + 3]) as u32
}

/// The number whose little-endian bytes stand at `at` in `s`.
pub open spec fn u64_at(s: Seq<u8>, at: int) -> u64 {
    (u32_at(s, at) + 0x1_0000_0000 * u32_at(s, at + 4)) as u64
}

/// The signed number whose little-endian bytes stand at `at` in `s`.
pub open spec fn i32_at(s: Seq<u8>, at: int) -> int {
    if u32_at(s, at) < 0x8000_0000 {
        u32_at(s, at) as int
    } else {
        u32_at(s, at) - 0x1_0000_0000
    }
}

/// Reading two bytes gives back the number that was written.
pub proof fn u16_round_trip(x: u16)
    ensures
        u16_le(x).len() == 2,
        u16_at(u16_le(x), 0) == x,
{
}

/// Reading four bytes gives back the number that was written.
pub proof fn u32_round_trip(x: u32)
    ensures
        u32_le(x).len() == 4,
        u32_at(u32_le(x), 0) == x,
{
    let q1 = x / 0x100;
    let q2 = x / 0x1_0000;
    assert(x == x % 0x100 + 0x100 * q1);
    assert(q1 == q1 % 0x100 + 0x100 * (q1 / 0x100));
    assert(q1 / 0x100 == q2);
    assert(q2 == q2 % 0x100 + 0x100 * (q2 / 0x100));
    assert(q2 / 0x100 == x / 0x100_0000);
}

/// Reading eight bytes gives back the number that was written.
pub proof fn u64_round_trip(x: u64)
    ensures
        u64_le(x).len() == 8,
        u64_at(u64_le(x), 0) == x,
{
    let lo = (x % 0x1_0000_0000) as u32;
    let hi = (x / 0x1_0000_0000) as u32;
    u32_round_trip(lo);
    u32_round_trip(hi);
    let s = u64_le(x);
    assert(u32_at(s, 0) == u32_at(u32_le(lo), 0));
    assert(u32_at(s, 4) == u32_at(u32_le(hi), 0));
}

/// Reading four bytes gives back the signed number that was written.
pub proof fn i32_round_trip(x: i32)
    ensures
        i32_le(x).len() == 4,
        i32_at(i32_le(x), 0) == x,
{
    u32_round_trip((x as int % 0x1_0000_0000) as u32);
}

/// Appends the two little-endian bytes of `x`.
pub fn push_u16(v: &mut Vec<u8>, x: u16)
    ensures
        final(v)@ == old(v)@ + u16_le(x),
{
    v.push((x % 256) as u8);
    v.push((x / 256) as u8);
    assert(v@ =~= old(v)@ + u16_le(x));
}

/// Appends the four little-endian bytes of `x`.
pub fn push_u32(v: &mut Vec<u8>, x: u32)
    ensures
        final(v)@ == old(v)@ + u32_le(x),
{
    v.push((x % 0x100) as u8);
    v.push((x / 0x100 % 0x100) as u8);
    v.push((x / 0x1_0000 % 0x100) as u8);
    v.push((x / 0x100_0000) as u8);
    assert(v@ =~= old(v)@ + u32_le(x));
}

/// Appends the eight little-endian bytes of `x`.
pub fn push_u64(v: &mut Vec<u8>, x: u64)
    ensures
        final(v)@ == old(v)@ + u64_le(x),
{
    push_u32(v, (x % 0x1_0000_0000) as u32);
    push_u32(v, (x / 0x1_0000_0000) as u32);
    assert(v@ =~= old(v)@ + u64_le(x));
}

/// Appends the four little-endian bytes of the two's complement of `x`.
pub fn push_i32(v: &mut Vec<u8>, x: i32)
    ensures
        final(v)@ == old(v)@ + i32_le(x),
{
    let wide: u32 = if x >= 0 {
        x as u32
    } else {
        (x as i64 + 0x1_0000_0000) as u32
    };
    push_u32(v, wide);
}

/// Appends every byte of `data`.
pub fn push_bytes(v: &mut Vec<u8>, data: &[u8])
    ensures
        final(v)@ == old(v)@ + data@,
{
    v.extend_from_slice(data);
    assert(v@ =~= old(v)@ + data@);
}

/// A copy of `data[from..to]`.
pub fn copy_range(data: &[u8], from: usize, to: usize) -> (r: Vec<u8>)
    requires
        from <= to <= data@.len(),
    ensures
        r@ == data@.subrange(from as int, to as int),
{
    let mut r: Vec<u8> = Vec::new();
    push_bytes(&mut r, vstd::slice::slice_subrange(data, from, to));
    assert(r@ =~= data@.subrange(from as int, to as int));
    r
}

/// Whether two byte strings are equal.
pub fn same_bytes(a: &[u8], b: &[u8]) -> (r: bool)
    ensures
        r == (a@ == b@),
{
    if a.len() != b.len() {
        return false;
    }
    let mut i: usize = 0;
    while i < a.len()
        invariant
            i <= a@.len(),
            a@.len() == b@.len(),
            forall|k: int| 0 <= k < i ==> a@[k] == b@[k],
        decreases a@.len() - i,
    {
        if a[i] != b[i] {
            return false;
        }
        i = i + 1;
    }
    assert(a@ =~= b@);
    true
}

/// The length of a byte string and of `extra` bytes in front of it in a four-byte field, which
/// keeps the low 32 bits.
pub fn len_field(extra: u32, len: usize) -> (r: u32)
    ensures
        r == (extra + len) % 0x1_0000_0000,
{
    let low: u32 = (len as u64 % 0x1_0000_0000) as u32;
    low.wrapping_add(extra)
}

/// Numbers are laid out with the least significant byte first: each byte counts 256 times as much as
/// the one before it.
pub proof fn least_significant_byte_first(x: u16, y: u32, z: u64)
    ensures
        u16_le(x)[0] + 0x100 * u16_le(x)[1] == x,
        u32_le(y)[0] + 0x100 * u32_le(y)[1] + 0x1_0000 * u32_le(y)[2] + 0x100_0000 * u32_le(y)[3]
            == y,
        ({
            let b = u64_le(z);
            &&& b[0] + 0x100 * b[1] + 0x1_0000 * b[2] + 0x100_0000 * b[3] == z % 0x1_0000_0000
            &&& b[4] + 0x100 * b[5] + 0x1_0000 * b[6] + 0x100_0000 * b[7] == z / 0x1_0000_0000
        }),
{
    u32_round_trip(y);
    u64_round_trip(z);
    let lo = (z % 0x1_0000_0000) as u32;
    let hi = (z / 0x1_0000_0000) as u32;
    u32_round_trip(lo);
    u32_round_trip(hi);
    let b = u64_le(z);
    assert(b[0] == u32_le(lo)[0] && b[1] == u32_le(lo)[1] && b[2] == u32_le(lo)[2] && b[3]
        == u32_le(lo)[3]);
    assert(b[4] == u32_le(hi)[0] && b[5] == u32_le(hi)[1] && b[6] == u32_le(hi)[2] && b[7]
        == u32_le(hi)[3]);
}

/// What is read at a place is the number that the bytes there make up.
pub proof fn bytes_make_up_the_number(s: Seq<u8>, at: int)
    ensures
        u16_at(s, at) == s[at] + 0x100 * s[at + 1],
        u32_at(s, at) == s[at] + 0x100 * s[at + 1] + 0x1_0000 * s[at + 2] + 0x100_0000 * s[at + 3],
        u64_at(s, at) == u32_at(s, at) + 0x1_0000_0000 * u32_at(s, at + 4),
{
}

} // verus!
