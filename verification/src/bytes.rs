//! Little-endian integer fields and the pairing of bytes into UTF-16
//! code units, as mathematical functions on byte sequences, with the
//! executable readers and the round-trip lemmas the codec needs.
use vstd::prelude::*;

verus! {

/// The unsigned value of two little-endian bytes.
pub open spec fn le_u16_of(s: Seq<u8>) -> int
    recommends
        s.len() == 2,
{
    s[0] + 0x100 * s[1]
}

/// The unsigned value of four little-endian bytes.
pub open spec fn le_u32_of(s: Seq<u8>) -> int
    recommends
        s.len() == 4,
{
    s[0] + 0x100 * s[1] + 0x10000 * s[2] + 0x1000000 * s[3]
}

/// The two's-complement signed value of four little-endian bytes.
pub open spec fn le_i32_of(s: Seq<u8>) -> int
    recommends
        s.len() == 4,
{
    if le_u32_of(s) < 0x80000000 {
        le_u32_of(s)
    } else {
        le_u32_of(s) - 0x100000000
    }
}

/// The four little-endian bytes of a signed 32-bit value.
pub open spec fn le_bytes4_of(v: int) -> Seq<u8>
    recommends
        -0x80000000 <= v < 0x80000000,
{
    let u = if v < 0 {
        v + 0x100000000
    } else {
        v
    };
    seq![
        (u % 0x100) as u8,
        ((u / 0x100) % 0x100) as u8,
        ((u / 0x10000) % 0x100) as u8,
        ((u / 0x1000000) % 0x100) as u8,
    ]
}

/// Little-endian byte pairs read as a sequence of UTF-16 code units.
pub open spec fn units_of_bytes(s: Seq<u8>) -> Seq<u16> {
    Seq::new((s.len() / 2) as nat, |i: int| (s[2 * i] + 0x100 * s[2 * i + 1]) as u16)
}

/// A sequence of UTF-16 code units written as little-endian byte pairs.
pub open spec fn bytes_of_units(u: Seq<u16>) -> Seq<u8> {
    Seq::new(
        (u.len() * 2) as nat,
        |i: int|
            if i % 2 == 0 {
                (u[i / 2] as int % 0x100) as u8
            } else {
                (u[i / 2] as int / 0x100) as u8
            },
    )
}

/// Splitting `x + 0x100 * y` recovers `x` and `y` when `x` is a byte.
proof fn lemma_split_byte(x: int, y: int)
    requires
        0 <= x < 0x100,
        0 <= y,
    ensures
        (x + 0x100 * y) % 0x100 == x,
        (x + 0x100 * y) / 0x100 == y,
{
    assert((x + 0x100 * y) % 0x100 == x && (x + 0x100 * y) / 0x100 == y) by (nonlinear_arith)
        requires
            0 <= x < 0x100,
            0 <= y,
    ;
}

/// The two bytes of the unsigned value read from two bytes are those
/// bytes themselves.
pub proof fn lemma_le_u16_digits(s: Seq<u8>)
    requires
        s.len() == 2,
    ensures
        seq![(le_u16_of(s) % 0x100) as u8, (le_u16_of(s) / 0x100) as u8] =~= s,
{
    lemma_split_byte(s[0] as int, s[1] as int);
}

/// Re-encoding the unsigned value read from four bytes gives those
/// bytes back.
pub proof fn lemma_le_u32_roundtrip(s: Seq<u8>)
    requires
        s.len() == 4,
    ensures
        le_bytes4_of(le_u32_of(s)) =~= s,
{
    let u = le_u32_of(s);
    assert(0 <= u < 0x100000000);
    lemma_split_byte(s[0] as int, s[1] + 0x100 * s[2] + 0x10000 * s[3]);
    assert(u / 0x100 == s[1] + 0x100 * s[2] + 0x10000 * s[3]) by {
        assert(u == s[0] + 0x100 * (s[1] + 0x100 * s[2] + 0x10000 * s[3]));
    }
    lemma_split_byte(s[1] as int, s[2] + 0x100 * s[3]);
    assert(u / 0x100 / 0x100 == s[2] + 0x100 * s[3]);
    lemma_split_byte(s[2] as int, s[3] as int);
    assert(u / 0x10000 == u / 0x100 / 0x100) by (nonlinear_arith)
        requires
            0 <= u,
    ;
    assert(u / 0x1000000 == u / 0x10000 / 0x100) by (nonlinear_arith)
        requires
            0 <= u,
    ;
}

/// Re-encoding the signed value read from four bytes gives those bytes back.
pub proof fn lemma_le_i32_roundtrip(s: Seq<u8>)
    requires
        s.len() == 4,
    ensures
        le_bytes4_of(le_i32_of(s)) =~= s,
{
    let u = le_u32_of(s);
    let v = le_i32_of(s);
    let u2 = if v < 0 {
        v + 0x100000000
    } else {
        v
    };
    assert(u2 == u);
    lemma_le_u32_roundtrip(s);
}

/// Reading back the four bytes of a signed 32-bit value gives that
/// value.
pub proof fn lemma_le_bytes4_value(v: int)
    requires
        -0x80000000 <= v < 0x80000000,
    ensures
        le_i32_of(le_bytes4_of(v)) == v,
{
    let u = if v < 0 {
        v + 0x100000000
    } else {
        v
    };
    assert(0 <= u < 0x100000000);
    let q1 = u / 0x100;
    let q2 = u / 0x10000;
    let q3 = u / 0x1000000;
    vstd::arithmetic::div_mod::lemma_fundamental_div_mod(u, 0x100);
    vstd::arithmetic::div_mod::lemma_fundamental_div_mod(q1, 0x100);
    vstd::arithmetic::div_mod::lemma_fundamental_div_mod(q2, 0x100);
    assert(q1 / 0x100 == q2 && q2 / 0x100 == q3) by (nonlinear_arith)
        requires
            0 <= u,
            q1 == u / 0x100,
            q2 == u / 0x10000,
            q3 == u / 0x1000000,
    ;
    assert(0 <= q3 < 0x100) by (nonlinear_arith)
        requires
            0 <= u < 0x100000000,
            q3 == u / 0x1000000,
    ;
    let s = le_bytes4_of(v);
    assert(le_u32_of(s) == u % 0x100 + 0x100 * (q1 % 0x100) + 0x10000 * (q2 % 0x100) + 0x1000000
        * q3);
    assert(le_u32_of(s) == u);
}

/// Reading back the little-endian byte pairs written for a unit
/// sequence gives that sequence.
pub proof fn lemma_units_inverse(nu: Seq<u16>)
    ensures
        units_of_bytes(bytes_of_units(nu)) =~= nu,
{
    let b = bytes_of_units(nu);
    assert forall|k: int| 0 <= k < nu.len() implies units_of_bytes(b)[k] == nu[k] by {
        assert(2 * k % 2 == 0 && (2 * k) / 2 == k && (2 * k + 1) % 2 == 1 && (2 * k + 1) / 2 == k);
        assert(b[2 * k] == (nu[k] as int % 0x100) as u8);
        assert(b[2 * k + 1] == (nu[k] as int / 0x100) as u8);
        vstd::arithmetic::div_mod::lemma_fundamental_div_mod(nu[k] as int, 0x100);
    }
}

/// Writing the code units read from an even-length byte sequence gives
/// those bytes back.
pub proof fn lemma_units_roundtrip(s: Seq<u8>)
    requires
        s.len() % 2 == 0,
    ensures
        bytes_of_units(units_of_bytes(s)) =~= s,
{
    let u = units_of_bytes(s);
    assert forall|i: int| 0 <= i < s.len() implies bytes_of_units(u)[i] == s[i] by {
        lemma_split_byte(s[2 * (i / 2)] as int, s[2 * (i / 2) + 1] as int);
        if i % 2 == 0 {
            assert(2 * (i / 2) == i);
        } else {
            assert(2 * (i / 2) + 1 == i);
        }
    }
}

/// Reads the unsigned 16-bit little-endian field at `off`.
pub fn read_le_u16(b: &Vec<u8>, off: usize) -> (r: u16)
    requires
        off + 2 <= b@.len(),
    ensures
        r == le_u16_of(b@.subrange(off as int, off + 2)),
{
    let _n = b.len();
    let r = b[off] as u16 + 0x100 * b[off + 1] as u16;
    proof {
        let s = b@.subrange(off as int, off + 2);
        assert(s[0] == b@[off as int] && s[1] == b@[off + 1]);
    }
    r
}

/// Reads the unsigned 32-bit little-endian field at `off`.
pub fn read_le_u32(b: &Vec<u8>, off: usize) -> (r: u32)
    requires
        off + 4 <= b@.len(),
    ensures
        r == le_u32_of(b@.subrange(off as int, off + 4)),
{
    let _n = b.len();
    let r = b[off] as u32 + 0x100 * b[off + 1] as u32 + 0x10000 * b[off + 2] as u32 + 0x1000000
        * b[off + 3] as u32;
    proof {
        let s = b@.subrange(off as int, off + 4);
        assert(s[0] == b@[off as int] && s[1] == b@[off + 1]);
        assert(s[2] == b@[off + 2] && s[3] == b@[off + 3]);
    }
    r
}

/// Copies the bytes of `b` between `from` and `to` into a fresh vector.
pub fn copy_range(b: &Vec<u8>, from: usize, to: usize) -> (r: Vec<u8>)
    requires
        from <= to <= b@.len(),
    ensures
        r@ == b@.subrange(from as int, to as int),
{
    let mut r: Vec<u8> = Vec::new();
    let mut i: usize = from;
    while i < to
        invariant
            from <= i <= to <= b@.len(),
            r@ == b@.subrange(from as int, i as int),
        decreases to - i,
    {
        r.push(b[i]);
        i = i + 1;
        proof {
            assert(r@ =~= b@.subrange(from as int, i as int));
        }
    }
    r
}

} // verus!
