//! Byte-level text helpers shared by the wire codec: ASCII byte classes,
//! decimal rendering and parsing of unsigned 64-bit counters, and the shape of
//! the numeric and timestamp tokens that ride inside frames.

use vstd::prelude::*;

verus! {

/// ASCII double quote.
pub const QUOTE: u8 = 0x22;

/// ASCII backslash.
pub const BACKSLASH: u8 = 0x5c;

/// True of the ASCII bytes `0` through `9`.
pub open spec fn is_digit(b: u8) -> bool {
    0x30 <= b <= 0x39
}

/// Numeric value of a decimal digit byte.
pub open spec fn digit_val(b: u8) -> nat
    recommends
        is_digit(b),
{
    (b - 0x30) as nat
}

/// Decimal digit byte for a value below ten.
pub open spec fn digit_byte(d: nat) -> u8
    recommends
        d < 10,
{
    (0x30 + d) as u8
}

/// Decimal rendering of `n`, most significant digit first, no leading zeros.
pub open spec fn dec_bytes(n: nat) -> Seq<u8>
    decreases n,
{
    if n < 10 {
        seq![digit_byte(n)]
    } else {
        dec_bytes(n / 10) + seq![digit_byte(n % 10)]
    }
}

/// Value of a sequence of decimal digit bytes, most significant first.
pub open spec fn dec_val(s: Seq<u8>) -> nat
    decreases s.len(),
{
    if s.len() == 0 {
        0
    } else {
        dec_val(s.drop_last()) * 10 + digit_val(s.last())
    }
}

/// The digits of `n` render to a non-empty all-digit sequence whose value is
/// `n` again, and whose first digit is zero only for `n == 0` itself.
pub proof fn lemma_dec_bytes_roundtrip(n: nat)
    ensures
        dec_bytes(n).len() >= 1,
        forall|i: int| 0 <= i < dec_bytes(n).len() ==> is_digit(#[trigger] dec_bytes(n)[i]),
        dec_val(dec_bytes(n)) == n,
        dec_bytes(n)[0] == digit_byte(0) <==> n == 0,
    decreases n,
{
    if n < 10 {
        let s = seq![digit_byte(n)];
        assert(s.drop_last() =~= Seq::<u8>::empty());
        assert(s.last() == digit_byte(n));
        assert(dec_val(s) == dec_val(Seq::<u8>::empty()) * 10 + digit_val(digit_byte(n)));
    } else {
        lemma_dec_bytes_roundtrip(n / 10);
        let hd = dec_bytes(n / 10);
        let whole = hd + seq![digit_byte(n % 10)];
        assert(whole.drop_last() =~= hd);
        assert(whole.last() == digit_byte(n % 10));
        assert(dec_val(whole) == dec_val(hd) * 10 + digit_val(digit_byte(n % 10)));
        assert(n / 10 * 10 + n % 10 == n) by {
            vstd::arithmetic::div_mod::lemma_fundamental_div_mod(n as int, 10);
        }
        assert(whole[0] == hd[0]);
        assert(n / 10 != 0);
    }
}

/// A digit appended on the right multiplies the value by ten and adds the
/// digit, so extending a digit string never decreases its value.
pub proof fn lemma_dec_val_extend_le(s: Seq<u8>, t: Seq<u8>)
    requires
        s.len() <= t.len(),
        forall|i: int| 0 <= i < s.len() ==> s[i] == t[i],
    ensures
        dec_val(s) <= dec_val(t),
    decreases t.len(),
{
    if s.len() < t.len() {
        let t1 = t.drop_last();
        lemma_dec_val_extend_le(s, t1);
        assert(dec_val(t) == dec_val(t1) * 10 + digit_val(t.last()));
        assert(dec_val(t1) * 10 >= dec_val(t1)) by (nonlinear_arith);
    } else {
        assert(s =~= t);
    }
}

/// Number of leading decimal digit bytes of `s`.
pub open spec fn digit_prefix_len(s: Seq<u8>) -> nat
    decreases s.len(),
{
    if s.len() > 0 && is_digit(s[0]) {
        (1 + digit_prefix_len(s.skip(1))) as nat
    } else {
        0
    }
}

/// Never more digits than bytes.
pub proof fn lemma_digit_prefix_le(s: Seq<u8>)
    ensures
        digit_prefix_len(s) <= s.len(),
    decreases s.len(),
{
    if s.len() > 0 && is_digit(s[0]) {
        lemma_digit_prefix_le(s.skip(1));
    }
}

/// The digit prefix is exactly the run of digits up to the first non-digit.
pub proof fn lemma_digit_prefix_len(s: Seq<u8>, k: nat)
    requires
        k <= s.len(),
        forall|i: int| 0 <= i < k ==> is_digit(#[trigger] s[i]),
        k < s.len() ==> !is_digit(s[k as int]),
    ensures
        digit_prefix_len(s) == k,
    decreases k,
{
    if k == 0 {
        assert(s.len() == 0 || !is_digit(s[0]));
    } else {
        assert(is_digit(s[0]));
        let t = s.skip(1);
        assert(forall|i: int| 0 <= i < k - 1 ==> #[trigger] t[i] == s[i + 1]);
        lemma_digit_prefix_len(t, (k - 1) as nat);
    }
}

/// What parsing an unsigned 64-bit decimal counter at the head of `s` yields:
/// the value of the maximal digit run and the number of bytes it occupies.
/// Fails on an empty run, on a redundant leading zero, and on a value that
/// does not fit in 64 bits.
pub open spec fn spec_parse_u64(s: Seq<u8>) -> Option<(u64, nat)> {
    let k = digit_prefix_len(s);
    if k == 0 {
        None
    } else if s[0] == digit_byte(0) && k > 1 {
        None
    } else if dec_val(s.take(k as int)) > u64::MAX {
        None
    } else {
        Some((dec_val(s.take(k as int)) as u64, k))
    }
}

/// Parsing starts over the exact digits of a counter and stops at the first
/// byte after them, recovering the counter.
pub proof fn lemma_parse_dec_bytes(n: u64, rest: Seq<u8>)
    requires
        rest.len() > 0 ==> !is_digit(rest[0]),
    ensures
        spec_parse_u64(dec_bytes(n as nat) + rest) == Some((n, dec_bytes(n as nat).len())),
{
    let d = dec_bytes(n as nat);
    lemma_dec_bytes_roundtrip(n as nat);
    let s = d + rest;
    assert(forall|i: int| 0 <= i < d.len() ==> #[trigger] s[i] == d[i]);
    lemma_digit_prefix_len(s, d.len());
    assert(s.take(d.len() as int) =~= d);
    if n == 0 {
        assert(d.len() == 1);
    }
}

/// Parses an unsigned 64-bit decimal counter at `pos`; on success returns the
/// value and the position just past its digits.
pub fn parse_u64(buf: &[u8], pos: usize) -> (r: Option<(u64, usize)>)
    requires
        pos <= buf.len(),
    ensures
        match r {
            None => spec_parse_u64(buf@.skip(pos as int)) is None,
            Some(vj) => {
                &&& pos < vj.1 <= buf.len()
                &&& spec_parse_u64(buf@.skip(pos as int)) == Some((vj.0, (vj.1 - pos) as nat))
            },
        },
{
    let ghost s = buf@.skip(pos as int);
    let mut end: usize = pos;
    while end < buf.len() && buf[end] >= 0x30 && buf[end] <= 0x39
        invariant
            pos <= end <= buf.len(),
            s =~= buf@.skip(pos as int),
            forall|i: int| pos <= i < end ==> is_digit(#[trigger] buf@[i]),
        decreases buf.len() - end,
    {
        end = end + 1;
    }
    proof {
        assert(forall|i: int| 0 <= i < end - pos ==> #[trigger] s[i] == buf@[i + pos]);
        assert(end < buf.len() ==> s[(end - pos) as int] == buf@[end as int]);
        lemma_digit_prefix_len(s, (end - pos) as nat);
    }
    if end == pos {
        return None;
    }
    if buf[pos] == 0x30 && end - pos > 1 {
        proof {
            assert(s[0] == buf@[pos as int]);
        }
        return None;
    }
    let ghost k = (end - pos) as int;
    let mut acc: u64 = 0;
    let mut i: usize = pos;
    while i < end
        invariant
            pos <= i <= end <= buf.len(),
            s =~= buf@.skip(pos as int),
            forall|j: int| pos <= j < end ==> is_digit(#[trigger] buf@[j]),
            forall|j: int| 0 <= j < end - pos ==> #[trigger] s[j] == buf@[j + pos],
            k == end - pos,
            digit_prefix_len(s) == end - pos,
            !(s[0] == digit_byte(0) && end - pos > 1),
            acc as nat == dec_val(s.take(i - pos)),
        decreases end - i,
    {
        let d = buf[i] - 0x30;
        proof {
            let p = s.take(i + 1 - pos);
            assert(p.drop_last() =~= s.take(i - pos));
            assert(p.last() == buf@[i as int]);
        }
        if acc > (u64::MAX - (d as u64)) / 10 {
            proof {
                let p = s.take(i + 1 - pos);
                assert(dec_val(p) == acc as nat * 10 + (d as nat));
                assert(acc as nat * 10 + (d as nat) > u64::MAX) by (nonlinear_arith)
                    requires
                        acc > (u64::MAX - (d as u64)) / 10,
                        d <= 9,
                ;
                assert(forall|j: int| 0 <= j < p.len() ==> p[j] == #[trigger] s.take(k)[j]);
                lemma_dec_val_extend_le(p, s.take(k));
            }
            return None;
        }
        acc = acc * 10 + (d as u64);
        i = i + 1;
    }
    proof {
        assert(s.take(k) =~= s.take(((end - pos) as int)));
    }
    Some((acc, end))
}

/// True of bytes that may appear in a bare numeric token: digits and the dot.
pub open spec fn is_number_byte(b: u8) -> bool {
    is_digit(b) || b == 0x2e
}

/// Number of dots in `s`.
pub open spec fn count_dots(s: Seq<u8>) -> nat
    decreases s.len(),
{
    if s.len() == 0 {
        0
    } else {
        (count_dots(s.drop_last()) + if s.last() == 0x2e { 1nat } else { 0nat }) as nat
    }
}

/// Shape of the numeric token carried for a GPU memory size: a decimal
/// integer with at most one fractional point, as a JSON number with neither
/// sign nor exponent renders.
pub open spec fn wf_number(s: Seq<u8>) -> bool {
    &&& s.len() >= 1
    &&& forall|i: int| 0 <= i < s.len() ==> is_number_byte(#[trigger] s[i])
    &&& is_digit(s[0])
    &&& is_digit(s.last())
    &&& count_dots(s) <= 1
}

/// Number of leading numeric-token bytes of `s`.
pub open spec fn number_prefix_len(s: Seq<u8>) -> nat
    decreases s.len(),
{
    if s.len() > 0 && is_number_byte(s[0]) {
        (1 + number_prefix_len(s.skip(1))) as nat
    } else {
        0
    }
}

/// The numeric prefix is exactly the run of numeric bytes up to the first
/// byte outside the token alphabet.
pub proof fn lemma_number_prefix_len(s: Seq<u8>, k: nat)
    requires
        k <= s.len(),
        forall|i: int| 0 <= i < k ==> is_number_byte(#[trigger] s[i]),
        k < s.len() ==> !is_number_byte(s[k as int]),
    ensures
        number_prefix_len(s) == k,
    decreases k,
{
    if k == 0 {
        assert(s.len() == 0 || !is_number_byte(s[0]));
    } else {
        assert(is_number_byte(s[0]));
        let t = s.skip(1);
        assert(forall|i: int| 0 <= i < k - 1 ==> #[trigger] t[i] == s[i + 1]);
        lemma_number_prefix_len(t, (k - 1) as nat);
    }
}

/// What parsing a bare numeric token at the head of `s` yields: the maximal
/// run of numeric bytes, provided it has the well-formed shape.
pub open spec fn spec_parse_number(s: Seq<u8>) -> Option<(Seq<u8>, nat)> {
    let k = number_prefix_len(s);
    if k == 0 {
        None
    } else if wf_number(s.take(k as int)) {
        Some((s.take(k as int), k))
    } else {
        None
    }
}

/// Parsing starts over a well-formed numeric token and stops at the first
/// byte after it, recovering the token.
pub proof fn lemma_parse_number_token(t: Seq<u8>, rest: Seq<u8>)
    requires
        wf_number(t),
        rest.len() > 0 ==> !is_number_byte(rest[0]),
    ensures
        spec_parse_number(t + rest) == Some((t, t.len())),
{
    let s = t + rest;
    assert(forall|i: int| 0 <= i < t.len() ==> #[trigger] s[i] == t[i]);
    lemma_number_prefix_len(s, t.len());
    assert(s.take(t.len() as int) =~= t);
}

/// Parses a bare numeric token at `pos`; on success returns a copy of its
/// bytes and the position just past them.
pub fn parse_number(buf: &[u8], pos: usize) -> (r: Option<(Vec<u8>, usize)>)
    requires
        pos <= buf.len(),
    ensures
        match r {
            None => spec_parse_number(buf@.skip(pos as int)) is None,
            Some(vj) => {
                &&& pos < vj.1 <= buf.len()
                &&& spec_parse_number(buf@.skip(pos as int)) == Some((vj.0@, (vj.1 - pos) as nat))
            },
        },
{
    let ghost s = buf@.skip(pos as int);
    let mut end: usize = pos;
    let mut dots: u64 = 0;
    let mut token: Vec<u8> = Vec::new();
    while end < buf.len() && (buf[end] == 0x2e || (buf[end] >= 0x30 && buf[end] <= 0x39))
        invariant
            pos <= end <= buf.len(),
            s =~= buf@.skip(pos as int),
            forall|i: int| pos <= i < end ==> is_number_byte(#[trigger] buf@[i]),
            token@ =~= s.take(end - pos),
            dots <= end - pos,
            dots as nat == count_dots(s.take(end - pos)),
        decreases buf.len() - end,
    {
        proof {
            let p = s.take(end + 1 - pos);
            assert(p.drop_last() =~= s.take(end - pos));
            assert(p.last() == buf@[end as int]);
        }
        if buf[end] == 0x2e {
            dots = dots + 1;
        }
        token.push(buf[end]);
        end = end + 1;
    }
    proof {
        assert(forall|i: int| 0 <= i < end - pos ==> #[trigger] s[i] == buf@[i + pos]);
        assert(end < buf.len() ==> s[(end - pos) as int] == buf@[end as int]);
        lemma_number_prefix_len(s, (end - pos) as nat);
    }
    if end == pos {
        return None;
    }
    let first = buf[pos];
    let last = buf[end - 1];
    proof {
        assert(s.take((end - pos) as int).last() == buf@[end - 1]);
        assert(s.take((end - pos) as int)[0] == buf@[pos as int]);
    }
    if first < 0x30 || first > 0x39 || last < 0x30 || last > 0x39 || dots > 1 {
        return None;
    }
    Some((token, end))
}

/// Lowercase hexadecimal digit byte for a value below sixteen.
pub open spec fn hex_digit_byte(d: nat) -> u8
    recommends
        d < 16,
{
    if d < 10 {
        (0x30 + d) as u8
    } else {
        (0x61 + (d - 10)) as u8
    }
}

/// True of lowercase hexadecimal digit bytes.
pub open spec fn is_hex_lower(b: u8) -> bool {
    is_digit(b) || 0x61 <= b <= 0x66
}

/// Value of a lowercase hexadecimal digit byte.
pub open spec fn hex_val(b: u8) -> nat
    recommends
        is_hex_lower(b),
{
    if is_digit(b) {
        (b - 0x30) as nat
    } else {
        (b - 0x61 + 10) as nat
    }
}

/// Rendering a value below sixteen as a lowercase hexadecimal digit and
/// reading it back is the identity, and the digit is in the hex alphabet.
pub proof fn lemma_hex_digit_roundtrip(d: nat)
    requires
        d < 16,
    ensures
        is_hex_lower(hex_digit_byte(d)),
        hex_val(hex_digit_byte(d)) == d,
{
}

/// Shape of the ISO-8601 UTC timestamps this system stamps on frames:
/// `YYYY-MM-DDTHH:MM:SSZ`, optionally with a dotted fraction before the `Z`.
pub open spec fn wf_timestamp(s: Seq<u8>) -> bool {
    &&& s.len() >= 20
    &&& is_digit(s[0]) && is_digit(s[1]) && is_digit(s[2]) && is_digit(s[3])
    &&& s[4] == 0x2d
    &&& is_digit(s[5]) && is_digit(s[6])
    &&& s[7] == 0x2d
    &&& is_digit(s[8]) && is_digit(s[9])
    &&& s[10] == 0x54
    &&& is_digit(s[11]) && is_digit(s[12])
    &&& s[13] == 0x3a
    &&& is_digit(s[14]) && is_digit(s[15])
    &&& s[16] == 0x3a
    &&& is_digit(s[17]) && is_digit(s[18])
    &&& s.last() == 0x5a
    &&& if s.len() == 20 {
        true
    } else {
        &&& s[19] == 0x2e
        &&& s.len() >= 22
        &&& forall|i: int| 20 <= i < s.len() - 1 ==> is_digit(#[trigger] s[i])
    }
}

/// Checks that `b` has the timestamp shape.
pub fn check_timestamp(b: &[u8]) -> (r: bool)
    ensures
        r == wf_timestamp(b@),
{
    let n = b.len();
    if n < 20 {
        return false;
    }
    let head = b[0] >= 0x30 && b[0] <= 0x39 && b[1] >= 0x30 && b[1] <= 0x39 && b[2] >= 0x30
        && b[2] <= 0x39 && b[3] >= 0x30 && b[3] <= 0x39 && b[4] == 0x2d && b[5] >= 0x30
        && b[5] <= 0x39 && b[6] >= 0x30 && b[6] <= 0x39 && b[7] == 0x2d && b[8] >= 0x30
        && b[8] <= 0x39 && b[9] >= 0x30 && b[9] <= 0x39 && b[10] == 0x54 && b[11] >= 0x30
        && b[11] <= 0x39 && b[12] >= 0x30 && b[12] <= 0x39 && b[13] == 0x3a && b[14] >= 0x30
        && b[14] <= 0x39 && b[15] >= 0x30 && b[15] <= 0x39 && b[16] == 0x3a && b[17] >= 0x30
        && b[17] <= 0x39 && b[18] >= 0x30 && b[18] <= 0x39 && b[n - 1] == 0x5a;
    if !head {
        return false;
    }
    if n == 20 {
        return true;
    }
    if b[19] != 0x2e || n < 22 {
        return false;
    }
    let mut i: usize = 20;
    while i < n - 1
        invariant
            20 <= i <= n - 1,
            n == b.len(),
            n >= 22,
            forall|j: int| 20 <= j < i ==> is_digit(#[trigger] b@[j]),
        decreases n - i,
    {
        if b[i] < 0x30 || b[i] > 0x39 {
            return false;
        }
        i = i + 1;
    }
    true
}

/// Appends the decimal rendering of `n` to `out`.
pub fn encode_u64(n: u64, out: &mut Vec<u8>)
    ensures
        final(out)@ == old(out)@ + dec_bytes(n as nat),
    decreases n,
{
    if n < 10 {
        out.push(0x30 + (n as u8));
        assert(final(out)@ =~= old(out)@ + dec_bytes(n as nat));
    } else {
        let ghost pre = out@;
        encode_u64(n / 10, out);
        out.push(0x30 + ((n % 10) as u8));
        assert(final(out)@ =~= pre + dec_bytes(n as nat));
    }
}

} // verus!
