//! The compact binary codec.
//!
//! Unsigned integers are encoded in the fewest bytes sufficient for their
//! magnitude, choosing among four width classes told apart by the two low
//! bits of the first byte:
//!
//! - `0`: the value fits in 6 bits; one byte holds `value * 4`;
//! - `1`: the value fits in 14 bits; two little-endian bytes hold
//!   `value * 4 + 1`;
//! - `2`: the value fits in 30 bits; four little-endian bytes hold
//!   `value * 4 + 2`;
//! - `3`: a header byte holds `(n - 4) * 4 + 3`, where `n` is the least
//!   number of bytes that can represent the value, followed by the value's
//!   `n` little-endian bytes.
//!
//! The encoding is canonical (the same value always yields the same bytes)
//! and self-describing: decoding is its exact left inverse and needs no
//! out-of-band length. Byte strings are encoded as the compact encoding of
//! their length followed by the bytes themselves; structured values are the
//! concatenation of their fields' encodings in declared order, with no
//! padding.

use vstd::arithmetic::div_mod::{
    lemma_fundamental_div_mod,
    lemma_mod_mod,
    lemma_mod_multiples_vanish,
};
use vstd::prelude::*;

use crate::errors::ClientError;

verus! {

/// `256^n`: the number of values representable in `n` bytes.
pub open spec fn pow256(n: nat) -> nat
    decreases n,
{
    if n == 0 {
        1
    } else {
        256 * pow256((n - 1) as nat)
    }
}

/// The `n` little-endian bytes of `v`, least significant first.
pub open spec fn le_bytes_of(v: nat, n: nat) -> Seq<u8>
    decreases n,
{
    if n == 0 {
        Seq::empty()
    } else {
        seq![(v % 256) as u8] + le_bytes_of(v / 256, (n - 1) as nat)
    }
}

/// The value of a little-endian byte string, least significant byte first.
pub open spec fn le_value_of(s: Seq<u8>) -> nat
    decreases s.len(),
{
    if s.len() == 0 {
        0
    } else {
        (s[0] + 256 * le_value_of(s.subrange(1, s.len() as int))) as nat
    }
}

/// The least number of bytes sufficient to represent `v`; zero for zero.
pub open spec fn min_byte_len(v: nat) -> nat
    decreases v,
{
    if v == 0 {
        0
    } else {
        1 + min_byte_len(v / 256)
    }
}

/// The compact encoding of an unsigned integer.
pub open spec fn spec_compact(v: u128) -> Seq<u8> {
    if v < 64 {
        seq![(v * 4) as u8]
    } else if v < 16384 {
        le_bytes_of((v * 4 + 1) as nat, 2)
    } else if v < 0x4000_0000 {
        le_bytes_of((v * 4 + 2) as nat, 4)
    } else {
        seq![((min_byte_len(v as nat) - 4) * 4 + 3) as u8] + le_bytes_of(
            v as nat,
            min_byte_len(v as nat),
        )
    }
}

/// The compact encoding of a byte string: the compact encoding of its
/// length, then the bytes themselves.
pub open spec fn spec_compact_bytes(s: Seq<u8>) -> Seq<u8> {
    spec_compact(s.len() as u128) + s
}

/// What decoding the front of `s` yields: the decoded value and the number
/// of bytes consumed, or nothing when `s` is too short for the width class
/// its first byte declares, or when that class does not fit a 128-bit value.
pub open spec fn spec_compact_decode(s: Seq<u8>) -> Option<(u128, nat)> {
    if s.len() == 0 {
        None
    } else {
        let b = s[0] as nat;
        if b % 4 == 0 {
            Some(((b / 4) as u128, 1))
        } else if b % 4 == 1 {
            if s.len() < 2 {
                None
            } else {
                Some(((le_value_of(s.subrange(0, 2)) / 4) as u128, 2))
            }
        } else if b % 4 == 2 {
            if s.len() < 4 {
                None
            } else {
                Some(((le_value_of(s.subrange(0, 4)) / 4) as u128, 4))
            }
        } else {
            let n = b / 4 + 4;
            if n > 16 {
                None
            } else if s.len() < 1 + n {
                None
            } else {
                Some((le_value_of(s.subrange(1, (1 + n) as int)) as u128, 1 + n))
            }
        }
    }
}

proof fn lemma_le_bytes_of_len(v: nat, n: nat)
    ensures
        le_bytes_of(v, n).len() == n,
    decreases n,
{
    if n > 0 {
        lemma_le_bytes_of_len(v / 256, (n - 1) as nat);
    }
}

/// Reading back the `n` little-endian bytes of `v` yields `v`, provided `v`
/// fits in `n` bytes.
proof fn lemma_le_value_of_le_bytes_of(v: nat, n: nat)
    requires
        v < pow256(n),
    ensures
        le_value_of(le_bytes_of(v, n)) == v,
    decreases n,
{
    if n == 0 {
    } else {
        let head: u8 = (v % 256) as u8;
        let tail = le_bytes_of(v / 256, (n - 1) as nat);
        let s = seq![head] + tail;
        assert(le_bytes_of(v, n) == s);
        assert(s.len() >= 1) by {
            lemma_le_bytes_of_len(v / 256, (n - 1) as nat);
        }
        assert(s.subrange(1, s.len() as int) =~= tail);
        assert(v / 256 < pow256((n - 1) as nat)) by {
            assert(pow256(n) == 256 * pow256((n - 1) as nat));
            assert(v / 256 < pow256((n - 1) as nat)) by (nonlinear_arith)
                requires
                    v < 256 * pow256((n - 1) as nat),
            ;
        }
        lemma_le_value_of_le_bytes_of(v / 256, (n - 1) as nat);
        assert(le_value_of(s) == v % 256 + 256 * (v / 256));
        lemma_fundamental_div_mod(v as int, 256);
    }
}

/// The value of a byte string fits in as many bytes as the string has.
proof fn lemma_le_value_of_bound(s: Seq<u8>)
    ensures
        le_value_of(s) < pow256(s.len()),
    decreases s.len(),
{
    if s.len() > 0 {
        let tail = s.subrange(1, s.len() as int);
        lemma_le_value_of_bound(tail);
        assert(le_value_of(s) == s[0] + 256 * le_value_of(tail));
        assert(s[0] + 256 * le_value_of(tail) < 256 * pow256(tail.len())) by (nonlinear_arith)
            requires
                s[0] < 256,
                le_value_of(tail) < pow256(tail.len()),
        ;
    }
}

/// Every value fits in its own least byte count.
proof fn lemma_min_byte_len_fits(v: nat)
    ensures
        v < pow256(min_byte_len(v)),
    decreases v,
{
    if v > 0 {
        assert(v / 256 < v) by (nonlinear_arith)
            requires
                v > 0,
        ;
        lemma_min_byte_len_fits(v / 256);
        let m = min_byte_len(v / 256);
        assert(pow256(min_byte_len(v)) == 256 * pow256(m));
        lemma_fundamental_div_mod(v as int, 256);
        assert(v == 256 * (v / 256) + v % 256);
        assert(256 * (v / 256) + 255 < 256 * pow256(m)) by (nonlinear_arith)
            requires
                v / 256 < pow256(m),
        ;
    }
}

/// A value that fits in `n` bytes needs at most `n` bytes.
proof fn lemma_min_byte_len_le(v: nat, n: nat)
    requires
        v < pow256(n),
    ensures
        min_byte_len(v) <= n,
    decreases n,
{
    if v > 0 {
        assert(n > 0) by {
            if n == 0 {
                assert(pow256(0) == 1);
            }
        }
        assert(pow256(n) == 256 * pow256((n - 1) as nat));
        assert(v / 256 < pow256((n - 1) as nat)) by (nonlinear_arith)
            requires
                v < 256 * pow256((n - 1) as nat),
        ;
        lemma_min_byte_len_le(v / 256, (n - 1) as nat);
    }
}

proof fn lemma_pow256_monotone(a: nat, b: nat)
    requires
        a <= b,
    ensures
        pow256(a) <= pow256(b),
    decreases b,
{
    if a < b {
        lemma_pow256_monotone(a, (b - 1) as nat);
        assert(pow256(b) == 256 * pow256((b - 1) as nat));
        lemma_pow256_positive((b - 1) as nat);
        assert(pow256((b - 1) as nat) <= 256 * pow256((b - 1) as nat)) by (nonlinear_arith)
            requires
                pow256((b - 1) as nat) >= 1,
        ;
    }
}

proof fn lemma_pow256_positive(n: nat)
    ensures
        pow256(n) >= 1,
    decreases n,
{
    if n > 0 {
        lemma_pow256_positive((n - 1) as nat);
    }
}

/// In the large width class the least byte count is between 4 and 16.
proof fn lemma_big_min_byte_len(v: u128)
    requires
        v >= 0x4000_0000,
    ensures
        4 <= min_byte_len(v as nat) <= 16,
{
    let m: nat = min_byte_len(v as nat);
    lemma_min_byte_len_fits(v as nat);
    assert(pow256(3) == 0x100_0000) by {
        reveal_with_fuel(pow256, 4);
    }
    if m < 4 {
        lemma_pow256_monotone(m, 3);
    }
    assert(pow256(16) == 0x1_0000_0000_0000_0000_0000_0000_0000_0000) by {
        reveal_with_fuel(pow256, 17);
    }
    lemma_min_byte_len_le(v as nat, 16);
}

/// A two-bit width-class discriminant survives being stored in the low bits
/// of a byte: the first little-endian byte of `x` carries `x`'s class.
proof fn lemma_mode_of_first_byte(x: nat)
    ensures
        (x % 256) % 4 == x % 4,
{
    lemma_mod_mod(x as int, 4, 64);
}

/// Decoding is the exact left inverse of encoding: decoding a compact
/// encoding followed by any remaining bytes yields the encoded value back
/// and consumes exactly the encoding, whatever follows it.
pub proof fn lemma_compact_round_trip(v: u128, rest: Seq<u8>)
    ensures
        spec_compact_decode(spec_compact(v) + rest) == Some((v, spec_compact(v).len())),
{
    let enc = spec_compact(v);
    let s = enc + rest;
    if v < 64 {
        let x: nat = (v * 4) as nat;
        assert(s[0] == (x as u8));
        assert(s[0] as nat == x);
        lemma_mod_multiples_vanish(v as int, 0, 4);
        assert(x % 4 == 0);
        lemma_fundamental_div_mod(x as int, 4);
        assert(x / 4 == v);
    } else if v < 16384 {
        let x: nat = (v * 4 + 1) as nat;
        lemma_le_bytes_of_len(x, 2);
        assert(enc.len() == 2);
        assert(s[0] == enc[0]);
        assert(enc[0] as nat == x % 256) by {
            reveal_with_fuel(le_bytes_of, 2);
        }
        lemma_mode_of_first_byte(x);
        lemma_mod_multiples_vanish(v as int, 1, 4);
        assert(x % 4 == 1);
        assert(s.subrange(0, 2) =~= enc);
        assert(x < pow256(2)) by {
            reveal_with_fuel(pow256, 3);
        }
        lemma_le_value_of_le_bytes_of(x, 2);
        lemma_fundamental_div_mod(x as int, 4);
        assert(x / 4 == v);
    } else if v < 0x4000_0000 {
        let x: nat = (v * 4 + 2) as nat;
        lemma_le_bytes_of_len(x, 4);
        assert(enc.len() == 4);
        assert(s[0] == enc[0]);
        assert(enc[0] as nat == x % 256) by {
            reveal_with_fuel(le_bytes_of, 2);
        }
        lemma_mode_of_first_byte(x);
        lemma_mod_multiples_vanish(v as int, 2, 4);
        assert(x % 4 == 2);
        assert(s.subrange(0, 4) =~= enc);
        assert(x < pow256(4)) by {
            reveal_with_fuel(pow256, 5);
        }
        lemma_le_value_of_le_bytes_of(x, 4);
        lemma_fundamental_div_mod(x as int, 4);
        assert(x / 4 == v);
    } else {
        let m: nat = min_byte_len(v as nat);
        lemma_big_min_byte_len(v);
        let h: nat = ((m - 4) * 4 + 3) as nat;
        assert(h < 256);
        assert(enc == seq![(h as u8)] + le_bytes_of(v as nat, m));
        lemma_le_bytes_of_len(v as nat, m);
        assert(enc.len() == 1 + m);
        assert(s[0] as nat == h);
        lemma_mod_multiples_vanish((m - 4) as int, 3, 4);
        assert(h % 4 == 3);
        lemma_fundamental_div_mod(h as int, 4);
        assert(h / 4 == m - 4);
        assert(s.subrange(1, (1 + m) as int) =~= le_bytes_of(v as nat, m));
        lemma_min_byte_len_fits(v as nat);
        lemma_le_value_of_le_bytes_of(v as nat, m);
    }
}

/// The encoding is injective: no two distinct values share an encoding.
pub proof fn lemma_compact_injective(a: u128, b: u128)
    ensures
        spec_compact(a) == spec_compact(b) ==> a == b,
{
    if spec_compact(a) == spec_compact(b) {
        lemma_compact_round_trip(a, Seq::empty());
        lemma_compact_round_trip(b, Seq::empty());
        assert(spec_compact(a) + Seq::<u8>::empty() =~= spec_compact(a));
        assert(spec_compact(b) + Seq::<u8>::empty() =~= spec_compact(b));
    }
}

/// A compact encoding is canonical and deterministic by construction: it is
/// a function of the encoded value alone, so equal values always yield equal
/// bytes, and with injectivity the bytes determine the value exactly.
pub proof fn lemma_compact_canonical(a: u128, b: u128)
    ensures
        (spec_compact(a) == spec_compact(b)) <==> a == b,
{
    lemma_compact_injective(a, b);
}

/// The least little-endian byte count of `v`, computed by repeated division.
fn min_byte_len_exec(v: u128) -> (n: usize)
    ensures
        n as nat == min_byte_len(v as nat),
        n <= 16,
{
    proof {
        assert(pow256(16) == 0x1_0000_0000_0000_0000_0000_0000_0000_0000) by {
            reveal_with_fuel(pow256, 17);
        }
        lemma_min_byte_len_le(v as nat, 16);
    }
    let mut x: u128 = v;
    let mut n: usize = 0;
    while x > 0
        invariant
            n + min_byte_len(x as nat) == min_byte_len(v as nat),
            min_byte_len(v as nat) <= 16,
        decreases x,
    {
        proof {
            assert(x / 256 < x) by (nonlinear_arith)
                requires
                    x > 0,
            ;
        }
        x = x / 256;
        n = n + 1;
    }
    n
}

/// The `n` little-endian bytes of `v`, least significant first.
fn le_bytes_vec(v: u128, n: usize) -> (out: Vec<u8>)
    ensures
        out@ == le_bytes_of(v as nat, n as nat),
{
    let mut out: Vec<u8> = Vec::new();
    let mut x: u128 = v;
    let mut i: usize = 0;
    while i < n
        invariant
            i <= n,
            le_bytes_of(v as nat, n as nat) == out@ + le_bytes_of(x as nat, (n - i) as nat),
        decreases n - i,
    {
        let ghost prev = out@;
        let ghost xs = x as nat;
        out.push((x % 256) as u8);
        x = x / 256;
        i = i + 1;
        proof {
            assert(le_bytes_of(xs, (n - i + 1) as nat) == seq![(xs % 256) as u8] + le_bytes_of(
                xs / 256,
                (n - i) as nat,
            ));
            assert(prev + le_bytes_of(xs, (n - i + 1) as nat) =~= out@ + le_bytes_of(
                x as nat,
                (n - i) as nat,
            ));
        }
    }
    proof {
        assert(le_bytes_of(v as nat, n as nat) =~= out@);
    }
    out
}

/// Encode an unsigned integer in the compact scheme. Total: every 128-bit
/// value has an encoding, and the bytes are exactly [`spec_compact`].
pub fn compact_encode(v: u128) -> (out: Vec<u8>)
    ensures
        out@ == spec_compact(v),
{
    if v < 64 {
        let mut out: Vec<u8> = Vec::new();
        out.push((v as u8) * 4);
        proof {
            assert(out@ =~= spec_compact(v));
        }
        out
    } else if v < 16384 {
        le_bytes_vec(v * 4 + 1, 2)
    } else if v < 0x4000_0000 {
        le_bytes_vec(v * 4 + 2, 4)
    } else {
        let n = min_byte_len_exec(v);
        proof {
            lemma_big_min_byte_len(v);
        }
        let mut out: Vec<u8> = Vec::new();
        out.push(((n - 4) * 4 + 3) as u8);
        let mut tail = le_bytes_vec(v, n);
        out.append(&mut tail);
        proof {
            assert(out@ =~= spec_compact(v));
        }
        out
    }
}

/// Append a copy of `data`'s bytes to `out`.
pub(crate) fn push_bytes(out: &mut Vec<u8>, data: &Vec<u8>)
    ensures
        final(out)@ == old(out)@ + data@,
{
    let mut i: usize = 0;
    while i < data.len()
        invariant
            i <= data@.len(),
            out@ == old(out)@ + data@.subrange(0, i as int),
        decreases data@.len() - i,
    {
        out.push(data[i]);
        i = i + 1;
        proof {
            assert(out@ =~= old(out)@ + data@.subrange(0, i as int));
        }
    }
    proof {
        assert(data@.subrange(0, data@.len() as int) =~= data@);
    }
}

/// Encode a byte string: the compact encoding of its length, then the bytes.
pub fn compact_encode_bytes(data: &Vec<u8>) -> (out: Vec<u8>)
    ensures
        out@ == spec_compact_bytes(data@),
{
    let mut out = compact_encode(data.len() as u128);
    push_bytes(&mut out, data);
    out
}

/// The value of the `n` little-endian bytes of `bytes` starting at `start`.
fn read_le_value(bytes: &Vec<u8>, start: usize, n: usize) -> (v: u128)
    requires
        start + n <= bytes@.len(),
        n <= 16,
    ensures
        v as nat == le_value_of(bytes@.subrange(start as int, (start + n) as int)),
{
    let len = bytes.len();
    let mut acc: u128 = 0;
    let mut j: usize = n;
    while j > 0
        invariant
            j <= n,
            n <= 16,
            start + n <= bytes@.len(),
            bytes@.len() == len,
            acc as nat == le_value_of(bytes@.subrange((start + j) as int, (start + n) as int)),
        decreases j,
    {
        j = j - 1;
        let ghost s1 = bytes@.subrange((start + j) as int, (start + n) as int);
        proof {
            assert(s1.len() == n - j);
            assert(s1[0] == bytes@[(start + j) as int]);
            assert(s1.subrange(1, s1.len() as int) =~= bytes@.subrange(
                (start + j + 1) as int,
                (start + n) as int,
            ));
            lemma_le_value_of_bound(s1);
            lemma_pow256_monotone(s1.len(), 16);
            assert(pow256(16) == 0x1_0000_0000_0000_0000_0000_0000_0000_0000) by {
                reveal_with_fuel(pow256, 17);
            }
        }
        let b = bytes[start + j];
        acc = acc * 256 + (b as u128);
    }
    acc
}

/// Decode the compact encoding at the front of `bytes[start..]`.
///
/// Returns the decoded value and the number of bytes consumed; the caller's
/// remaining input begins that many bytes later. Fails with
/// `MalformedEncoding` exactly when fewer bytes remain than the first byte's
/// width class declares, or when the declared class does not fit a 128-bit
/// value; on the output of [`compact_encode`] it always succeeds.
pub fn compact_decode(bytes: &Vec<u8>, start: usize) -> (r: Result<(u128, usize), ClientError>)
    requires
        start <= bytes@.len(),
    ensures
        match r {
            Ok(p) => {
                &&& spec_compact_decode(bytes@.skip(start as int)) == Some((p.0, p.1 as nat))
                &&& start + p.1 <= bytes@.len()
            },
            Err(e) => {
                &&& e == ClientError::MalformedEncoding
                &&& spec_compact_decode(bytes@.skip(start as int)) is None
            },
        },
{
    let ghost s = bytes@.skip(start as int);
    if start >= bytes.len() {
        return Err(ClientError::MalformedEncoding);
    }
    let b = bytes[start];
    proof {
        assert(s[0] == bytes@[start as int]);
    }
    let mode = b % 4;
    if mode == 0 {
        Ok(((b / 4) as u128, 1))
    } else if mode == 1 {
        if bytes.len() - start < 2 {
            return Err(ClientError::MalformedEncoding);
        }
        let v = read_le_value(bytes, start, 2);
        proof {
            assert(s.subrange(0, 2) =~= bytes@.subrange(start as int, (start + 2) as int));
        }
        Ok((v / 4, 2))
    } else if mode == 2 {
        if bytes.len() - start < 4 {
            return Err(ClientError::MalformedEncoding);
        }
        let v = read_le_value(bytes, start, 4);
        proof {
            assert(s.subrange(0, 4) =~= bytes@.subrange(start as int, (start + 4) as int));
        }
        Ok((v / 4, 4))
    } else {
        let nb: usize = (b / 4) as usize + 4;
        if nb > 16 {
            return Err(ClientError::MalformedEncoding);
        }
        if bytes.len() - start < 1 + nb {
            return Err(ClientError::MalformedEncoding);
        }
        let v = read_le_value(bytes, start + 1, nb);
        proof {
            assert(s.subrange(1, (1 + nb) as int) =~= bytes@.subrange(
                (start + 1) as int,
                (start + 1 + nb) as int,
            ));
        }
        Ok((v, 1 + nb))
    }
}

} // verus!
