//! Agent and correlation identifiers.
//!
//! An identifier is a 128-bit value. On the wire it rides as the usual
//! hyphenated lowercase hexadecimal rendering, eight-four-four-four-twelve
//! digits, which this module renders and parses with a proved round trip.
//! Fresh identifiers come from a version-four generator behind a trusted
//! wrapper; nothing is assumed about the values it draws.

use vstd::prelude::*;
use crate::text::{hex_digit_byte, is_hex_lower, hex_val, lemma_hex_digit_roundtrip};

verus! {

/// Sixteen to the `k`.
pub open spec fn pow16(k: nat) -> nat
    decreases k,
{
    if k == 0 {
        1
    } else {
        16 * pow16((k - 1) as nat)
    }
}

pub proof fn lemma_pow16_pos(k: nat)
    ensures
        pow16(k) >= 1,
    decreases k,
{
    if k > 0 {
        lemma_pow16_pos((k - 1) as nat);
    }
}

/// Powers of sixteen do not decrease.
pub proof fn lemma_pow16_le(j: nat, k: nat)
    requires
        j <= k,
    ensures
        pow16(j) <= pow16(k),
    decreases k,
{
    if j < k {
        lemma_pow16_le(j, (k - 1) as nat);
        lemma_pow16_pos((k - 1) as nat);
    }
}

/// Powers of sixteen multiply when the exponents add.
pub proof fn lemma_pow16_add(a: nat, b: nat)
    ensures
        pow16(a + b) == pow16(a) * pow16(b),
    decreases a,
{
    if a == 0 {
        assert(pow16(0) == 1);
    } else {
        lemma_pow16_add((a - 1) as nat, b);
        assert(pow16((a - 1 + b) as nat) == pow16((a - 1) as nat) * pow16(b));
        assert(pow16(a + b) == 16 * (pow16((a - 1) as nat) * pow16(b)));
        assert(16 * (pow16((a - 1) as nat) * pow16(b)) == (16 * pow16((a - 1) as nat)) * pow16(b))
            by (nonlinear_arith);
    }
}

/// Sixteen to the thirty-two is one more than the largest 128-bit value.
pub proof fn lemma_pow16_32()
    ensures
        pow16(32) == 0x100000000000000000000000000000000,
{
    assert(pow16(0) == 1);
    assert(pow16(1) == 16);
    lemma_pow16_add(1, 1);
    assert(pow16(2) == 256);
    lemma_pow16_add(2, 2);
    assert(pow16(4) == 65536);
    lemma_pow16_add(4, 4);
    assert(pow16(8) == 4294967296);
    lemma_pow16_add(8, 8);
    assert(pow16(16) == 18446744073709551616);
    lemma_pow16_add(16, 16);
}

/// The `i`-th hexadecimal digit value of `u`, most significant first, out of
/// thirty-two.
pub open spec fn uuid_nibble(u: u128, i: int) -> nat
    recommends
        0 <= i < 32,
{
    ((u as nat) / pow16((31 - i) as nat)) % 16
}

/// The positions of the four hyphens in a rendered identifier.
pub open spec fn is_hyphen_pos(i: int) -> bool {
    i == 8 || i == 13 || i == 18 || i == 23
}

/// How many digit positions lie strictly before rendered position `i`.
pub open spec fn nib_count(i: int) -> int {
    if i <= 8 {
        i
    } else if i <= 13 {
        i - 1
    } else if i <= 18 {
        i - 2
    } else if i <= 23 {
        i - 3
    } else {
        i - 4
    }
}

/// Which of the thirty-two digits sits at rendered position `i`.
pub open spec fn nib_index(i: int) -> int {
    if i < 8 {
        i
    } else if i < 13 {
        i - 1
    } else if i < 18 {
        i - 2
    } else if i < 23 {
        i - 3
    } else {
        i - 4
    }
}

/// The thirty-six byte rendering of identifier `u`.
pub open spec fn uuid_bytes(u: u128) -> Seq<u8> {
    Seq::new(
        36,
        |i: int|
            if is_hyphen_pos(i) {
                0x2d
            } else {
                hex_digit_byte(uuid_nibble(u, nib_index(i)))
            },
    )
}

/// What rendered position `i` must hold: a hyphen at its four places, a
/// lowercase hexadecimal digit everywhere else.
pub open spec fn uuid_byte_ok(b: u8, i: int) -> bool {
    if is_hyphen_pos(i) {
        b == 0x2d
    } else {
        is_hex_lower(b)
    }
}

/// Shape of a rendered identifier: hyphens at their four places, lowercase
/// hexadecimal digits everywhere else.
pub open spec fn wf_uuid_bytes(s: Seq<u8>) -> bool {
    &&& s.len() == 36
    &&& forall|i: int| 0 <= i < 36 ==> uuid_byte_ok(#[trigger] s[i], i)
}

/// The thirty-two digit bytes of a rendered identifier, hyphens removed.
pub open spec fn uuid_digit_seq(s: Seq<u8>) -> Seq<u8> {
    Seq::new(
        32,
        |k: int|
            s[
                if k < 8 {
                    k
                } else if k < 12 {
                    k + 1
                } else if k < 16 {
                    k + 2
                } else if k < 20 {
                    k + 3
                } else {
                    k + 4
                }
            ],
    )
}

/// Value of a sequence of lowercase hexadecimal digit bytes, most significant
/// first.
pub open spec fn hex_seq_val(s: Seq<u8>) -> nat
    decreases s.len(),
{
    if s.len() == 0 {
        0
    } else {
        hex_seq_val(s.drop_last()) * 16 + hex_val(s.last())
    }
}

/// Folding the first `k` digits of `u` yields the corresponding quotient of
/// `u`.
proof fn lemma_uuid_digit_fold(u: u128, k: nat)
    requires
        k <= 32,
    ensures
        hex_seq_val(Seq::new(k, |i: int| hex_digit_byte(uuid_nibble(u, i)))) == (u as nat) / pow16(
            (32 - k) as nat,
        ),
    decreases k,
{
    let s = Seq::new(k, |i: int| hex_digit_byte(uuid_nibble(u, i)));
    if k == 0 {
        lemma_pow16_32();
        assert((u as nat) < pow16(32));
        assert((u as nat) / pow16(32) == 0) by {
            vstd::arithmetic::div_mod::lemma_basic_div(u as int, pow16(32) as int);
        }
    } else {
        let p = Seq::new((k - 1) as nat, |i: int| hex_digit_byte(uuid_nibble(u, i)));
        lemma_uuid_digit_fold(u, (k - 1) as nat);
        assert(s.drop_last() =~= p);
        assert(s.last() == hex_digit_byte(uuid_nibble(u, k - 1)));
        let un = u as nat;
        let low = pow16((32 - k) as nat);
        let high = pow16((33 - k) as nat);
        lemma_pow16_pos((32 - k) as nat);
        assert(high == 16 * low);
        lemma_hex_digit_roundtrip(uuid_nibble(u, k - 1));
        assert(uuid_nibble(u, k - 1) == (un / low) % 16);
        assert(hex_seq_val(s) == (un / high) * 16 + (un / low) % 16);
        assert((un / low) / 16 == un / (low * 16)) by {
            vstd::arithmetic::div_mod::lemma_div_denominator(un as int, low as int, 16);
        }
        assert(low * 16 == high);
        assert(un / low == ((un / low) / 16) * 16 + (un / low) % 16) by {
            vstd::arithmetic::div_mod::lemma_fundamental_div_mod(un as int / low as int, 16);
        }
    }
}

/// The digits of a rendered identifier fold back to the identifier.
pub proof fn lemma_uuid_bytes_val(u: u128)
    ensures
        wf_uuid_bytes(uuid_bytes(u)),
        hex_seq_val(uuid_digit_seq(uuid_bytes(u))) == u as nat,
{
    let s = uuid_bytes(u);
    assert forall|i: int| 0 <= i < 36 implies uuid_byte_ok(s[i], i) by {
        if !is_hyphen_pos(i) {
            lemma_hex_digit_roundtrip(uuid_nibble(u, nib_index(i)));
        }
    }
    let d = uuid_digit_seq(s);
    let n = Seq::new(32, |i: int| hex_digit_byte(uuid_nibble(u, i)));
    assert forall|k: int| 0 <= k < 32 implies d[k] == n[k] by {
        lemma_hex_digit_roundtrip(uuid_nibble(u, k));
    }
    assert(d =~= n);
    lemma_uuid_digit_fold(u, 32);
    assert(pow16(0) == 1);
    assert((u as nat) / 1 == u as nat) by {
        vstd::arithmetic::div_mod::lemma_div_basics(u as int);
    }
}

/// What parsing a rendered identifier at the head of `s` yields.
pub open spec fn spec_parse_uuid(s: Seq<u8>) -> Option<(u128, nat)> {
    if s.len() >= 36 && wf_uuid_bytes(s.take(36)) {
        Some((hex_seq_val(uuid_digit_seq(s.take(36))) as u128, 36))
    } else {
        None
    }
}

/// Parsing starts over a rendered identifier and recovers it, consuming
/// exactly its thirty-six bytes.
pub proof fn lemma_parse_uuid_bytes(u: u128, rest: Seq<u8>)
    ensures
        spec_parse_uuid(uuid_bytes(u) + rest) == Some((u, 36nat)),
{
    let s = uuid_bytes(u) + rest;
    lemma_uuid_bytes_val(u);
    assert(s.take(36) =~= uuid_bytes(u));
}

/// Appends the rendering of identifier `u` to `out`.
pub fn encode_uuid(u: u128, out: &mut Vec<u8>)
    ensures
        final(out)@ == old(out)@ + uuid_bytes(u),
{
    let ghost base = old(out)@;
    let mut pow: u128 = 0x10000000000000000000000000000000;
    proof {
        lemma_pow16_32();
        lemma_pow16_add(1, 31);
        assert(pow16(31) == 0x10000000000000000000000000000000);
    }
    let mut i: usize = 0;
    let mut k: usize = 0;
    while i < 36
        invariant
            0 <= i <= 36,
            k == nib_count(i as int),
            0 <= k <= 32,
            k < 32 ==> pow as nat == pow16((31 - k) as nat),
            out@ == base + uuid_bytes(u).take(i as int),
        decreases 36 - i,
    {
        proof {
            assert(uuid_bytes(u).take(i + 1) =~= uuid_bytes(u).take(i as int).push(
                uuid_bytes(u)[i as int],
            ));
        }
        if i == 8 || i == 13 || i == 18 || i == 23 {
            out.push(0x2d);
        } else {
            proof {
                lemma_pow16_pos((31 - k) as nat);
            }
            let nib = ((u / pow) % 16) as u8;
            proof {
                assert(nib as nat == uuid_nibble(u, k as int));
            }
            out.push(if nib < 10 {
                0x30 + nib
            } else {
                0x61 + (nib - 10)
            });
            if k < 31 {
                pow = pow / 16;
                proof {
                    assert(pow16((31 - k) as nat) == 16 * pow16((30 - k) as nat));
                    assert((16 * pow16((30 - k) as nat)) / 16 == pow16((30 - k) as nat)) by {
                        vstd::arithmetic::div_mod::lemma_div_multiples_vanish(
                            pow16((30 - k) as nat) as int,
                            16,
                        );
                    }
                }
            }
            k = k + 1;
        }
        i = i + 1;
        proof {
            assert(out@ =~= base + uuid_bytes(u).take(i as int));
        }
    }
    proof {
        assert(uuid_bytes(u).take(36) =~= uuid_bytes(u));
    }
}

/// The value of hexadecimal digits extended by one on the right.
proof fn lemma_hex_seq_val_push(p: Seq<u8>, b: u8)
    ensures
        hex_seq_val(p.push(b)) == hex_seq_val(p) * 16 + hex_val(b),
{
    assert(p.push(b).drop_last() =~= p);
    assert(p.push(b).last() == b);
}

/// Parses a rendered identifier at `pos`; on success returns the identifier
/// and the position just past its thirty-six bytes.
pub fn parse_uuid(buf: &[u8], pos: usize) -> (r: Option<(u128, usize)>)
    requires
        pos <= buf.len(),
    ensures
        match r {
            None => spec_parse_uuid(buf@.skip(pos as int)) is None,
            Some(vj) => {
                &&& pos < vj.1 <= buf.len()
                &&& spec_parse_uuid(buf@.skip(pos as int)) == Some((vj.0, (vj.1 - pos) as nat))
            },
        },
{
    let ghost s = buf@.skip(pos as int);
    if buf.len() - pos < 36 {
        return None;
    }
    let ghost t = s.take(36);
    let mut acc: u128 = 0;
    let mut i: usize = 0;
    let mut k: usize = 0;
    let ghost digits = uuid_digit_seq(t);
    while i < 36
        invariant
            0 <= i <= 36,
            k == nib_count(i as int),
            0 <= k <= 32,
            pos <= buf.len() - 36,
            s =~= buf@.skip(pos as int),
            t =~= s.take(36),
            digits =~= uuid_digit_seq(t),
            forall|j: int| 0 <= j < i ==> uuid_byte_ok(#[trigger] t[j], j),
            acc as nat == hex_seq_val(digits.take(k as int)),
            (acc as nat) < pow16(k as nat),
        decreases 36 - i,
    {
        let b = buf[pos + i];
        proof {
            assert(t[i as int] == buf@[pos + i]);
        }
        if i == 8 || i == 13 || i == 18 || i == 23 {
            if b != 0x2d {
                return None;
            }
        } else {
            let is_hex = (b >= 0x30 && b <= 0x39) || (b >= 0x61 && b <= 0x66);
            if !is_hex {
                return None;
            }
            let v = if b >= 0x61 {
                b - 0x61 + 10
            } else {
                b - 0x30
            };
            proof {
                assert(digits[k as int] == t[i as int]);
                assert(digits.take(k + 1) =~= digits.take(k as int).push(digits[k as int]));
                lemma_hex_seq_val_push(digits.take(k as int), digits[k as int]);
                assert(v as nat == hex_val(t[i as int]));
                lemma_pow16_le((k + 1) as nat, 32);
                lemma_pow16_32();
                assert(pow16((k + 1) as nat) == 16 * pow16(k as nat));
                assert((acc as nat * 16 + v as nat) < pow16((k + 1) as nat)) by (nonlinear_arith)
                    requires
                        (acc as nat) < pow16(k as nat),
                        v < 16,
                        pow16((k + 1) as nat) == 16 * pow16(k as nat),
                ;
            }
            acc = acc * 16 + (v as u128);
            k = k + 1;
        }
        i = i + 1;
    }
    proof {
        assert(wf_uuid_bytes(t));
        assert(digits.take(32) =~= digits);
    }
    Some((acc, pos + 36))
}

/// Relies on `uuid::Uuid::new_v4` for a freshly drawn version-four
/// identifier; nothing is assumed about the value.
#[verifier::external_body]
pub(crate) fn fresh_uuid() -> u128 {
    uuid::Uuid::new_v4().as_u128()
}

} // verus!
