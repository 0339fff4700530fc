//! Escaping of string payloads inside frames.
//!
//! A string payload rides between double quotes. The quote, the backslash and
//! every control byte are escaped the way a JSON emitter writes them: the
//! seven short escapes where one exists, `\u00` and two lowercase hex digits
//! for the remaining control bytes. Any other byte rides unchanged, so
//! multi-byte UTF-8 content passes through untouched.

use vstd::prelude::*;
use crate::text::{QUOTE, BACKSLASH, hex_digit_byte, is_hex_lower, hex_val, lemma_hex_digit_roundtrip};

verus! {

/// The escaped rendering of one payload byte.
pub open spec fn esc_byte(b: u8) -> Seq<u8> {
    if b == QUOTE {
        seq![BACKSLASH, QUOTE]
    } else if b == BACKSLASH {
        seq![BACKSLASH, BACKSLASH]
    } else if b == 0x08 {
        seq![BACKSLASH, 0x62]
    } else if b == 0x0c {
        seq![BACKSLASH, 0x66]
    } else if b == 0x0a {
        seq![BACKSLASH, 0x6e]
    } else if b == 0x0d {
        seq![BACKSLASH, 0x72]
    } else if b == 0x09 {
        seq![BACKSLASH, 0x74]
    } else if b < 0x20 {
        seq![BACKSLASH, 0x75, 0x30, 0x30, hex_digit_byte((b / 16) as nat), hex_digit_byte(
            (b % 16) as nat,
        )]
    } else {
        seq![b]
    }
}

/// The escaped rendering of a whole payload.
pub open spec fn esc(s: Seq<u8>) -> Seq<u8>
    decreases s.len(),
{
    if s.len() == 0 {
        Seq::empty()
    } else {
        esc_byte(s[0]) + esc(s.skip(1))
    }
}

/// Escaping distributes over appending one byte on the right.
pub proof fn lemma_esc_append(s: Seq<u8>, b: u8)
    ensures
        esc(s.push(b)) == esc(s) + esc_byte(b),
    decreases s.len(),
{
    if s.len() == 0 {
        assert(s.push(b)[0] == b);
        assert(s.push(b).skip(1) =~= Seq::<u8>::empty());
        assert(esc(Seq::<u8>::empty()) =~= Seq::<u8>::empty());
        assert(esc(s.push(b)) =~= esc_byte(b));
        assert(esc(s) + esc_byte(b) =~= esc_byte(b));
    } else {
        assert(s.push(b)[0] == s[0]);
        assert(s.push(b).skip(1) =~= s.skip(1).push(b));
        lemma_esc_append(s.skip(1), b);
        assert(esc(s.push(b)) =~= esc_byte(s[0]) + (esc(s.skip(1)) + esc_byte(b)));
        assert(esc_byte(s[0]) + (esc(s.skip(1)) + esc_byte(b)) =~= (esc_byte(s[0]) + esc(s.skip(1)))
            + esc_byte(b));
    }
}


/// True of bytes that ride unescaped in a string payload.
pub open spec fn plain_byte(b: u8) -> bool {
    b != QUOTE && b != BACKSLASH && b >= 0x20
}

/// Escaping leaves a payload of plain bytes unchanged.
pub proof fn lemma_esc_plain(s: Seq<u8>)
    requires
        forall|i: int| 0 <= i < s.len() ==> plain_byte(#[trigger] s[i]),
    ensures
        esc(s) == s,
    decreases s.len(),
{
    if s.len() == 0 {
        assert(esc(s) =~= s);
    } else {
        lemma_esc_plain(s.skip(1));
        assert(esc(s) =~= seq![s[0]] + s.skip(1));
        assert(seq![s[0]] + s.skip(1) =~= s);
    }
}

/// True of the bytes that may follow a backslash as a one-letter escape.
pub open spec fn is_short_escape(e: u8) -> bool {
    e == QUOTE || e == BACKSLASH || e == 0x62 || e == 0x66 || e == 0x6e || e == 0x72 || e == 0x74
}

/// The payload byte a one-letter escape stands for.
pub open spec fn short_unescape(e: u8) -> u8
    recommends
        is_short_escape(e),
{
    if e == QUOTE {
        QUOTE
    } else if e == BACKSLASH {
        BACKSLASH
    } else if e == 0x62 {
        0x08
    } else if e == 0x66 {
        0x0c
    } else if e == 0x6e {
        0x0a
    } else if e == 0x72 {
        0x0d
    } else {
        0x09
    }
}

/// What parsing a string payload after its opening quote yields: the
/// unescaped payload and the number of bytes consumed, the closing quote
/// included. Rejects unterminated payloads, unknown escapes and raw control
/// bytes.
pub open spec fn spec_parse_str_body(s: Seq<u8>) -> Option<(Seq<u8>, nat)>
    decreases s.len(),
{
    if s.len() == 0 {
        None
    } else if s[0] == QUOTE {
        Some((Seq::empty(), 1))
    } else if s[0] == BACKSLASH {
        if s.len() >= 2 && is_short_escape(s[1]) {
            match spec_parse_str_body(s.skip(2)) {
                None => None,
                Some(t) => Some((seq![short_unescape(s[1])] + t.0, (2 + t.1) as nat)),
            }
        } else if s.len() >= 6 && s[1] == 0x75 && s[2] == 0x30 && s[3] == 0x30 && is_hex_lower(
            s[4],
        ) && is_hex_lower(s[5]) && hex_val(s[4]) * 16 + hex_val(s[5]) < 0x20 {
            match spec_parse_str_body(s.skip(6)) {
                None => None,
                Some(t) => Some(
                    (seq![(hex_val(s[4]) * 16 + hex_val(s[5])) as u8] + t.0, (6 + t.1) as nat),
                ),
            }
        } else {
            None
        }
    } else if s[0] >= 0x20 {
        match spec_parse_str_body(s.skip(1)) {
            None => None,
            Some(t) => Some((seq![s[0]] + t.0, (1 + t.1) as nat)),
        }
    } else {
        None
    }
}

/// Parsing the escaped rendering of a payload followed by its closing quote
/// recovers the payload and consumes exactly through that quote.
pub proof fn lemma_parse_esc(c: Seq<u8>, rest: Seq<u8>)
    ensures
        spec_parse_str_body(esc(c) + seq![QUOTE] + rest) == Some::<(Seq<u8>, nat)>(
            (c, (esc(c).len() + 1) as nat),
        ),
    decreases c.len(),
{
    let s = esc(c) + seq![QUOTE] + rest;
    if c.len() == 0 {
        assert(s[0] == QUOTE);
        assert(spec_parse_str_body(s) == Some((Seq::<u8>::empty(), 1nat)));
        assert(c =~= Seq::<u8>::empty());
    } else {
        let b = c[0];
        let c1 = c.skip(1);
        let e = esc_byte(b);
        let tail = esc(c1) + seq![QUOTE] + rest;
        assert(esc(c) == e + esc(c1));
        assert(s =~= e + tail);
        lemma_parse_esc(c1, rest);
        assert(forall|i: int| 0 <= i < e.len() ==> #[trigger] s[i] == e[i]);
        if b == QUOTE || b == BACKSLASH || b == 0x08 || b == 0x0c || b == 0x0a || b == 0x0d || b
            == 0x09 {
            assert(s[0] == BACKSLASH && is_short_escape(s[1]));
            assert(short_unescape(s[1]) == b);
            assert(s.skip(2) =~= tail);
            assert(seq![b] + c1 =~= c);
        } else if b < 0x20 {
            assert(s[0] == BACKSLASH && s[1] == 0x75 && s[2] == 0x30 && s[3] == 0x30);
            lemma_hex_digit_roundtrip((b / 16) as nat);
            lemma_hex_digit_roundtrip((b % 16) as nat);
            assert(!is_short_escape(s[1]));
            assert(hex_val(s[4]) * 16 + hex_val(s[5]) == b);
            assert(s.skip(6) =~= tail);
            assert(seq![b] + c1 =~= c);
        } else {
            assert(s[0] == b && b != QUOTE && b != BACKSLASH && b >= 0x20);
            assert(s.skip(1) =~= tail);
            assert(seq![b] + c1 =~= c);
        }
    }
}

/// Appends the escaped rendering of `src` to `out`.
pub fn escape_into(src: &[u8], out: &mut Vec<u8>)
    ensures
        final(out)@ == old(out)@ + esc(src@),
{
    let ghost base = old(out)@;
    let mut j: usize = 0;
    while j < src.len()
        invariant
            j <= src.len(),
            out@ == base + esc(src@.take(j as int)),
        decreases src.len() - j,
    {
        let b = src[j];
        proof {
            assert(src@.take(j + 1) =~= src@.take(j as int).push(src@[j as int]));
            lemma_esc_append(src@.take(j as int), src@[j as int]);
        }
        if b == QUOTE {
            out.push(BACKSLASH);
            out.push(QUOTE);
        } else if b == BACKSLASH {
            out.push(BACKSLASH);
            out.push(BACKSLASH);
        } else if b == 0x08 {
            out.push(BACKSLASH);
            out.push(0x62);
        } else if b == 0x0c {
            out.push(BACKSLASH);
            out.push(0x66);
        } else if b == 0x0a {
            out.push(BACKSLASH);
            out.push(0x6e);
        } else if b == 0x0d {
            out.push(BACKSLASH);
            out.push(0x72);
        } else if b == 0x09 {
            out.push(BACKSLASH);
            out.push(0x74);
        } else if b < 0x20 {
            out.push(BACKSLASH);
            out.push(0x75);
            out.push(0x30);
            out.push(0x30);
            let hi = b / 16;
            let lo = b % 16;
            out.push(if hi < 10 { 0x30 + hi } else { 0x61 + (hi - 10) });
            out.push(if lo < 10 { 0x30 + lo } else { 0x61 + (lo - 10) });
        } else {
            out.push(b);
        }
        proof {
            assert(out@ =~= base + esc(src@.take(j + 1)));
        }
        j = j + 1;
    }
    proof {
        assert(src@.take(src@.len() as int) =~= src@);
    }
}

/// Parses a string payload at `pos`, which must sit just after the opening
/// quote; on success returns the unescaped payload and the position just past
/// the closing quote.
pub fn parse_str_body(buf: &[u8], pos: usize) -> (r: Option<(Vec<u8>, usize)>)
    requires
        pos <= buf.len(),
    ensures
        match r {
            None => spec_parse_str_body(buf@.skip(pos as int)) is None,
            Some(vj) => {
                &&& pos < vj.1 <= buf.len()
                &&& spec_parse_str_body(buf@.skip(pos as int)) == Some(
                    (vj.0@, (vj.1 - pos) as nat),
                )
            },
        },
{
    let ghost s0 = buf@.skip(pos as int);
    let mut out: Vec<u8> = Vec::new();
    let mut i: usize = pos;
    loop
        invariant
            pos <= i <= buf.len(),
            s0 =~= buf@.skip(pos as int),
            ({
                let rem = spec_parse_str_body(buf@.skip(i as int));
                let whole = spec_parse_str_body(s0);
                match rem {
                    None => whole is None,
                    Some(t) => whole == Some((out@ + t.0, ((i - pos) + t.1) as nat)),
                }
            }),
        decreases buf.len() - i,
    {
        if i == buf.len() {
            proof {
                assert(buf@.skip(i as int).len() == 0);
            }
            return None;
        }
        let b = buf[i];
        let ghost cur = buf@.skip(i as int);
        proof {
            assert(cur[0] == buf@[i as int]);
        }
        if b == QUOTE {
            proof {
                assert(spec_parse_str_body(cur) == Some((Seq::<u8>::empty(), 1nat)));
                assert(out@ + Seq::<u8>::empty() =~= out@);
            }
            return Some((out, i + 1));
        } else if b == BACKSLASH {
            if i + 1 < buf.len() {
                let e = buf[i + 1];
                proof {
                    assert(cur[1] == buf@[i + 1]);
                }
                if e == QUOTE || e == BACKSLASH || e == 0x62 || e == 0x66 || e == 0x6e || e == 0x72
                    || e == 0x74 {
                    let u = if e == QUOTE {
                        QUOTE
                    } else if e == BACKSLASH {
                        BACKSLASH
                    } else if e == 0x62 {
                        0x08
                    } else if e == 0x66 {
                        0x0c
                    } else if e == 0x6e {
                        0x0a
                    } else if e == 0x72 {
                        0x0d
                    } else {
                        0x09
                    };
                    proof {
                        assert(is_short_escape(cur[1]));
                        assert(u == short_unescape(cur[1]));
                        assert(cur.skip(2) =~= buf@.skip(i + 2));
                    }
                    let ghost old_out = out@;
                    out.push(u);
                    proof {
                        assert(out@ =~= old_out + seq![u]);
                        assert(forall|t0: Seq<u8>| (old_out + (seq![u] + t0)) =~= ((old_out
                            + seq![u]) + t0));
                    }
                    i = i + 2;
                } else if e == 0x75 {
                    if buf.len() - i > 5 {
                        let h2 = buf[i + 2];
                        let h3 = buf[i + 3];
                        let h4 = buf[i + 4];
                        let h5 = buf[i + 5];
                        proof {
                            assert(cur[2] == buf@[i + 2]);
                            assert(cur[3] == buf@[i + 3]);
                            assert(cur[4] == buf@[i + 4]);
                            assert(cur[5] == buf@[i + 5]);
                        }
                        let ok4 = (h4 >= 0x30 && h4 <= 0x39) || (h4 >= 0x61 && h4 <= 0x66);
                        let ok5 = (h5 >= 0x30 && h5 <= 0x39) || (h5 >= 0x61 && h5 <= 0x66);
                        if h2 == 0x30 && h3 == 0x30 && ok4 && ok5 {
                            let v4 = if h4 >= 0x61 {
                                h4 - 0x61 + 10
                            } else {
                                h4 - 0x30
                            };
                            let v5 = if h5 >= 0x61 {
                                h5 - 0x61 + 10
                            } else {
                                h5 - 0x30
                            };
                            let v = v4 * 16 + v5;
                            if v < 0x20 {
                                proof {
                                    assert(cur.skip(6) =~= buf@.skip(i + 6));
                                    assert(v == hex_val(cur[4]) * 16 + hex_val(cur[5]));
                                }
                                let ghost old_out = out@;
                                out.push(v);
                                proof {
                                    assert(out@ =~= old_out + seq![v]);
                                    assert(forall|t0: Seq<u8>| (old_out + (seq![v] + t0)) =~= ((
                                    old_out + seq![v]) + t0));
                                }
                                i = i + 6;
                            } else {
                                return None;
                            }
                        } else {
                            return None;
                        }
                    } else {
                        return None;
                    }
                } else {
                    return None;
                }
            } else {
                return None;
            }
        } else if b >= 0x20 {
            proof {
                assert(cur.skip(1) =~= buf@.skip(i + 1));
            }
            let ghost old_out = out@;
            out.push(b);
            proof {
                assert(out@ =~= old_out + seq![b]);
                assert(forall|t0: Seq<u8>| (old_out + (seq![b] + t0)) =~= ((old_out + seq![b])
                    + t0));
            }
            i = i + 1;
        } else {
            return None;
        }
    }
}

} // verus!
