//! Configuration of the two processes: the defaults for every optional
//! setting, the flexible duration syntax of the shutdown timeout, and the
//! validation rules. The environment itself is read outside the library;
//! these functions supply the defaults and judge the values.

use vstd::prelude::*;
use crate::protocol::ProviderType;
use crate::text::{is_digit, digit_prefix_len, dec_val, lemma_digit_prefix_len,
    lemma_dec_val_extend_le};
use crate::ids::fresh_uuid;
use crate::store::clone_bytes;

verus! {

/// Default address of the hub's agent endpoint.
pub fn default_hub_url() -> (r: String)
    ensures
        r@ == "ws://localhost:80/ws/agent"@,
{
    "ws://localhost:80/ws/agent".to_owned()
}

/// Default port of the agent's status endpoint.
pub fn default_status_port() -> (r: u16)
    ensures
        r == 8081,
{
    8081
}

/// Default provider type of an agent.
pub fn default_provider() -> (r: ProviderType)
    ensures
        r == ProviderType::Local,
{
    ProviderType::Local
}

/// Default overlay address of an agent; a placeholder to be set in
/// production.
pub fn default_tailscale_ip() -> (r: String)
    ensures
        r@ == "0.0.0.0"@,
{
    "0.0.0.0".to_owned()
}

/// Default log level of both processes.
pub fn default_log_level() -> (r: String)
    ensures
        r@ == "info"@,
{
    "info".to_owned()
}

/// Default port the hub binds.
pub fn default_port() -> (r: u16)
    ensures
        r == 80,
{
    80
}

/// Default graceful-shutdown grace period of the hub, in milliseconds:
/// eight seconds.
pub fn default_shutdown_timeout() -> (r: u64)
    ensures
        r == 8000,
{
    8000
}

/// Default log formatter of the hub process, as shipped.
pub fn default_tracing_format() -> (r: TracingFormat)
    ensures
        r == TracingFormat::Json,
{
    TracingFormat::Json
}

/// Log formatter selection of the hub's command line.
#[derive(Clone, Copy, PartialEq, Eq, Debug, Structural)]
pub enum TracingFormat {
    Pretty,
    Json,
}

/// The hub's command-line arguments.
#[derive(Clone, Copy, PartialEq, Eq, Debug, Structural)]
pub struct Args {
    pub tracing: TracingFormat,
}

/// Why a duration string was refused: it does not follow the syntax, or it
/// names a span too long for the clock's width.
#[derive(Clone, Copy, PartialEq, Eq, Debug, Structural)]
pub enum DurationParseError {
    Invalid,
    TooLarge,
}

/// True of the blanks allowed between a number and its unit.
pub open spec fn is_ws(b: u8) -> bool {
    b == 0x20 || b == 0x09
}

/// Number of leading blank bytes of `s`.
pub open spec fn ws_prefix_len(s: Seq<u8>) -> nat
    decreases s.len(),
{
    if s.len() > 0 && is_ws(s[0]) {
        (1 + ws_prefix_len(s.skip(1))) as nat
    } else {
        0
    }
}

/// Never more blanks than bytes.
pub proof fn lemma_ws_prefix_le(s: Seq<u8>)
    ensures
        ws_prefix_len(s) <= s.len(),
    decreases s.len(),
{
    if s.len() > 0 && is_ws(s[0]) {
        lemma_ws_prefix_le(s.skip(1));
    }
}

/// The blank prefix is exactly the run of blanks up to the first non-blank.
pub proof fn lemma_ws_prefix_len(s: Seq<u8>, k: nat)
    requires
        k <= s.len(),
        forall|i: int| 0 <= i < k ==> is_ws(#[trigger] s[i]),
        k < s.len() ==> !is_ws(s[k as int]),
    ensures
        ws_prefix_len(s) == k,
    decreases k,
{
    if k == 0 {
        assert(s.len() == 0 || !is_ws(s[0]));
    } else {
        assert(is_ws(s[0]));
        let t = s.skip(1);
        assert(forall|i: int| 0 <= i < k - 1 ==> #[trigger] t[i] == s[i + 1]);
        lemma_ws_prefix_len(t, (k - 1) as nat);
    }
}

/// Milliseconds per unit letter: `ms` for milliseconds, `m` for minutes,
/// `s` or no unit for seconds.
pub open spec fn duration_unit_factor(s: Seq<u8>) -> (nat, nat) {
    if s.len() >= 2 && s[0] == 0x6d && s[1] == 0x73 {
        (1, 2)
    } else if s.len() >= 1 && s[0] == 0x73 {
        (1000, 1)
    } else if s.len() >= 1 && s[0] == 0x6d {
        (60000, 1)
    } else {
        (1000, 0)
    }
}

/// What a run of duration parts starting at a number yields, in
/// milliseconds: each part is a decimal count, optional blanks, and an
/// optional unit; parts follow each other with optional blanks between; the
/// values add up.
pub open spec fn spec_duration_parts(s: Seq<u8>) -> Option<nat>
    decreases s.len(),
    via spec_duration_parts_dec
{
    let k = digit_prefix_len(s);
    if k == 0 {
        None
    } else {
        let v = dec_val(s.take(k as int));
        let s1 = s.skip(k as int);
        let s2 = s1.skip(ws_prefix_len(s1) as int);
        let fu = duration_unit_factor(s2);
        let ms = v * fu.0;
        let s3 = s2.skip(fu.1 as int);
        let s4 = s3.skip(ws_prefix_len(s3) as int);
        if s4.len() == 0 {
            Some(ms)
        } else {
            match spec_duration_parts(s4) {
                None => None,
                Some(rest) => Some(ms + rest),
            }
        }
    }
}

#[via_fn]
proof fn spec_duration_parts_dec(s: Seq<u8>) {
    let k = digit_prefix_len(s);
    if k != 0 {
        crate::text::lemma_digit_prefix_le(s);
        let s1 = s.skip(k as int);
        lemma_ws_prefix_le(s1);
        let s2 = s1.skip(ws_prefix_len(s1) as int);
        let fu = duration_unit_factor(s2);
        let s3 = s2.skip(fu.1 as int);
        lemma_ws_prefix_le(s3);
    }
}

/// What a whole duration string yields, in milliseconds: a bare number is a
/// count of seconds; `s`, `ms` and `m` suffixes scale; several parts add.
pub open spec fn spec_duration_ms(s: Seq<u8>) -> Option<nat> {
    spec_duration_parts(s.skip(ws_prefix_len(s) as int))
}

/// Skips blanks from `pos` and returns the first non-blank position.
fn skip_ws(buf: &[u8], pos: usize) -> (r: usize)
    requires
        pos <= buf.len(),
    ensures
        pos <= r <= buf.len(),
        r - pos == ws_prefix_len(buf@.skip(pos as int)),
        buf@.skip(pos as int).skip((r - pos) as int) == buf@.skip(r as int),
{
    let mut i: usize = pos;
    while i < buf.len() && (buf[i] == 0x20 || buf[i] == 0x09)
        invariant
            pos <= i <= buf.len(),
            forall|j: int| pos <= j < i ==> is_ws(#[trigger] buf@[j]),
        decreases buf.len() - i,
    {
        i = i + 1;
    }
    proof {
        let s = buf@.skip(pos as int);
        assert(forall|j: int| 0 <= j < i - pos ==> #[trigger] s[j] == buf@[j + pos]);
        assert(i < buf.len() ==> s[(i - pos) as int] == buf@[i as int]);
        lemma_ws_prefix_len(s, (i - pos) as nat);
        assert(s.skip((i - pos) as int) =~= buf@.skip(i as int));
    }
    i
}

/// Parses the flexible duration syntax of the shutdown timeout: a bare
/// number of seconds, or parts suffixed `s`, `ms` or `m`, blanks allowed,
/// summed together. Returns milliseconds; refuses anything else, and spans
/// beyond the clock's width.
#[verifier::rlimit(100)]
#[verifier::spinoff_prover]
pub fn parse_duration_ms(buf: &[u8]) -> (r: Result<u64, DurationParseError>)
    ensures
        match r {
            Ok(ms) => spec_duration_ms(buf@) == Some(ms as nat),
            Err(DurationParseError::Invalid) => spec_duration_ms(buf@) is None,
            Err(DurationParseError::TooLarge) => match spec_duration_ms(buf@) {
                Some(n) => n > u64::MAX,
                None => false,
            },
        },
{
    let start = skip_ws(buf, 0);
    proof {
        assert(buf@.skip(0) =~= buf@);
    }
    let mut acc: u64 = 0;
    let ghost mut exact: nat = 0nat;
    let mut too_large = false;
    let mut i: usize = start;
    loop
        invariant
            start <= i <= buf.len(),
            !too_large ==> acc as nat == exact,
            too_large ==> exact > u64::MAX,
            ({
                let whole = spec_duration_ms(buf@);
                let rem = spec_duration_parts(buf@.skip(i as int));
                match rem {
                    None => whole is None,
                    Some(rest) => whole == Some((exact + rest) as nat),
                }
            }),
        decreases buf.len() - i,
    {
        let ghost cur = buf@.skip(i as int);
        // the decimal count
        let mut end: usize = i;
        while end < buf.len() && buf[end] >= 0x30 && buf[end] <= 0x39
            invariant
                i <= end <= buf.len(),
                forall|j: int| i <= j < end ==> is_digit(#[trigger] buf@[j]),
            decreases buf.len() - end,
        {
            end = end + 1;
        }
        proof {
            assert(forall|j: int| 0 <= j < end - i ==> #[trigger] cur[j] == buf@[j + i]);
            assert(end < buf.len() ==> cur[(end - i) as int] == buf@[end as int]);
            lemma_digit_prefix_len(cur, (end - i) as nat);
        }
        if end == i {
            return Err(DurationParseError::Invalid);
        }
        let ghost kd = (end - i) as int;
        let mut v: u64 = 0;
        let mut v_over = false;
        let mut j: usize = i;
        while j < end
            invariant
                i <= j <= end <= buf.len(),
                cur =~= buf@.skip(i as int),
                forall|q: int| i <= q < end ==> is_digit(#[trigger] buf@[q]),
                kd == end - i,
                !v_over ==> v as nat == dec_val(cur.take(j - i)),
                v_over ==> dec_val(cur.take(kd)) > u64::MAX,
            decreases end - j,
        {
            let d = buf[j] - 0x30;
            proof {
                let p = cur.take(j + 1 - i);
                assert(p.drop_last() =~= cur.take(j - i));
                assert(p.last() == buf@[j as int]);
            }
            if !v_over {
                if v > (u64::MAX - (d as u64)) / 10 {
                    proof {
                        let p = cur.take(j + 1 - i);
                        assert(dec_val(p) == (v as nat) * 10 + (d as nat));
                        assert((v as nat) * 10 + (d as nat) > u64::MAX) by (nonlinear_arith)
                            requires
                                v > (u64::MAX - (d as u64)) / 10,
                                d <= 9,
                        ;
                        assert(forall|q: int| 0 <= q < p.len() ==> p[q] == #[trigger] cur.take(
                            kd,
                        )[q]);
                        lemma_dec_val_extend_le(p, cur.take(kd));
                    }
                    v_over = true;
                } else {
                    v = v * 10 + (d as u64);
                }
            }
            j = j + 1;
        }
        proof {
            assert(cur.take(kd) =~= cur.take(((end - i) as int)));
        }
        // blanks then the unit
        let u0 = skip_ws(buf, end);
        let ghost s2 = buf@.skip(u0 as int);
        let (factor, ulen): (u64, usize) = if buf.len() - u0 >= 2 && buf[u0] == 0x6d && buf[u0 + 1]
            == 0x73 {
            proof {
                assert(s2[0] == buf@[u0 as int] && s2[1] == buf@[u0 + 1]);
            }
            (1, 2)
        } else if buf.len() - u0 >= 1 && buf[u0] == 0x73 {
            proof {
                assert(s2[0] == buf@[u0 as int]);
                assert(s2.len() >= 2 ==> s2[1] == buf@[u0 + 1]);
            }
            (1000, 1)
        } else if buf.len() - u0 >= 1 && buf[u0] == 0x6d {
            proof {
                assert(s2[0] == buf@[u0 as int]);
                assert(s2.len() >= 2 ==> s2[1] == buf@[u0 + 1]);
            }
            (60000, 1)
        } else {
            proof {
                assert(s2.len() >= 1 ==> s2[0] == buf@[u0 as int]);
            }
            (1000, 0)
        };
        proof {
            assert(duration_unit_factor(s2) == (factor as nat, ulen as nat));
            assert(s2.skip(ulen as int) =~= buf@.skip((u0 + ulen) as int));
        }
        let after_unit = u0 + ulen;
        let next = skip_ws(buf, after_unit);
        let ghost vfull = dec_val(cur.take(kd));
        let ghost part_ms: nat = vfull * duration_unit_factor(s2).0;
        proof {
            assert(cur.skip(kd) =~= buf@.skip(end as int));
            assert(part_ms >= vfull && part_ms >= duration_unit_factor(s2).0 * 0) by (
            nonlinear_arith)
                requires
                    part_ms == vfull * duration_unit_factor(s2).0,
                    duration_unit_factor(s2).0 >= 1,
            ;
        }
        // this part's milliseconds, exactly in ghost, clamped in the machine
        if v_over {
            too_large = true;
        } else {
            proof {
                assert(vfull == v as nat);
            }
            if factor > 1 && v > u64::MAX / factor {
                proof {
                    assert((u64::MAX / factor) * factor <= u64::MAX) by (nonlinear_arith)
                        requires
                            factor > 1,
                            (u64::MAX / factor) * factor + u64::MAX % factor == u64::MAX,
                    ;
                    assert((v as nat) * (factor as nat) > u64::MAX) by (nonlinear_arith)
                        requires
                            v > u64::MAX / factor,
                            factor > 1,
                            (u64::MAX / factor) * factor + u64::MAX % factor == u64::MAX,
                            u64::MAX % factor < factor,
                    ;
                }
                too_large = true;
            } else {
                proof {
                    if factor > 1 {
                        assert((v as nat) * (factor as nat) <= ((u64::MAX as nat) / (
                        factor as nat)) * (factor as nat)) by (nonlinear_arith)
                            requires
                                v <= u64::MAX / factor,
                        ;
                        assert(((u64::MAX as nat) / (factor as nat)) * (factor as nat)
                            <= u64::MAX) by (nonlinear_arith)
                            requires
                                factor >= 1,
                        ;
                    } else {
                        assert((v as nat) * 1 == v as nat) by (nonlinear_arith);
                    }
                }
                let ms = v * factor;
                proof {
                    assert(ms as nat == part_ms);
                }
                if acc > u64::MAX - ms {
                    too_large = true;
                } else {
                    acc = acc + ms;
                }
            }
        }
        proof {
            exact = (exact + part_ms) as nat;
        }
        i = next;
        if i == buf.len() {
            proof {
                assert(buf@.skip(i as int).len() == 0);
            }
            if too_large {
                return Err(DurationParseError::TooLarge);
            }
            return Ok(acc);
        }
    }
}


/// What parsing one dotted-quad octet at the head of `s` yields: at most
/// three digits, no redundant leading zero, value at most 255.
pub open spec fn spec_parse_octet(s: Seq<u8>) -> Option<(nat, nat)> {
    let k = digit_prefix_len(s);
    if k == 0 || k > 3 {
        None
    } else if s[0] == 0x30 && k > 1 {
        None
    } else {
        let v = dec_val(s.take(k as int));
        if v > 255 {
            None
        } else {
            Some((v, k))
        }
    }
}

/// The shape of a dotted-quad address: four octets joined by dots,
/// nothing else.
pub open spec fn is_ipv4_text(s: Seq<u8>) -> bool {
    match spec_parse_octet(s) {
        None => false,
        Some((_, k1)) => {
            let s1 = s.skip(k1 as int);
            &&& s1.len() >= 1
            &&& s1[0] == 0x2e
            &&& match spec_parse_octet(s1.skip(1)) {
                None => false,
                Some((_, k2)) => {
                    let s2 = s1.skip(1).skip(k2 as int);
                    &&& s2.len() >= 1
                    &&& s2[0] == 0x2e
                    &&& match spec_parse_octet(s2.skip(1)) {
                        None => false,
                        Some((_, k3)) => {
                            let s3 = s2.skip(1).skip(k3 as int);
                            &&& s3.len() >= 1
                            &&& s3[0] == 0x2e
                            &&& match spec_parse_octet(s3.skip(1)) {
                                None => false,
                                Some((_, k4)) => s3.skip(1).len() == k4,
                            }
                        },
                    }
                },
            }
        },
    }
}

/// True of hexadecimal digit bytes of either case.
pub open spec fn is_hex_any(b: u8) -> bool {
    is_digit(b) || (0x61 <= b <= 0x66) || (0x41 <= b <= 0x46)
}

/// Number of leading hexadecimal digit bytes of `s`.
pub open spec fn hex_any_prefix_len(s: Seq<u8>) -> nat
    decreases s.len(),
{
    if s.len() > 0 && is_hex_any(s[0]) {
        (1 + hex_any_prefix_len(s.skip(1))) as nat
    } else {
        0
    }
}

/// Never more hexadecimal digits than bytes.
pub proof fn lemma_hex_any_prefix_le(s: Seq<u8>)
    ensures
        hex_any_prefix_len(s) <= s.len(),
    decreases s.len(),
{
    if s.len() > 0 && is_hex_any(s[0]) {
        lemma_hex_any_prefix_le(s.skip(1));
    }
}

/// The hexadecimal prefix is exactly the run of such digits up to the first
/// other byte.
pub proof fn lemma_hex_any_prefix_len(s: Seq<u8>, k: nat)
    requires
        k <= s.len(),
        forall|i: int| 0 <= i < k ==> is_hex_any(#[trigger] s[i]),
        k < s.len() ==> !is_hex_any(s[k as int]),
    ensures
        hex_any_prefix_len(s) == k,
    decreases k,
{
    if k == 0 {
        assert(s.len() == 0 || !is_hex_any(s[0]));
    } else {
        assert(is_hex_any(s[0]));
        let t = s.skip(1);
        assert(forall|i: int| 0 <= i < k - 1 ==> #[trigger] t[i] == s[i + 1]);
        lemma_hex_any_prefix_len(t, (k - 1) as nat);
    }
}

/// How many address groups `s` spells as a colon-separated run of fields,
/// read to its end: each field is one to four hexadecimal digits, except
/// that, where `allow_v4` holds, a trailing dotted-quad field counts as two
/// groups. Anything else spells none.
pub open spec fn spec_v6_groups(s: Seq<u8>, allow_v4: bool) -> Option<nat>
    decreases s.len(),
    via spec_v6_groups_dec
{
    if allow_v4 && is_ipv4_text(s) {
        Some(2)
    } else {
        let k = hex_any_prefix_len(s);
        if k == 0 || k > 4 {
            None
        } else if k == s.len() {
            Some(1)
        } else if s[k as int] != 0x3a {
            None
        } else {
            match spec_v6_groups(s.skip(k as int + 1), allow_v4) {
                None => None,
                Some(g) => Some((g + 1) as nat),
            }
        }
    }
}

#[via_fn]
proof fn spec_v6_groups_dec(s: Seq<u8>, allow_v4: bool) {
    lemma_hex_any_prefix_le(s);
}

/// The position of the first double colon in `s`, if any.
pub open spec fn find_dcolon(s: Seq<u8>) -> Option<int>
    decreases s.len(),
{
    if s.len() < 2 {
        None
    } else if s[0] == 0x3a && s[1] == 0x3a {
        Some(0)
    } else {
        match find_dcolon(s.skip(1)) {
            None => None,
            Some(i) => Some(i + 1),
        }
    }
}

/// The shape of a colon-grouped address: without a double colon, exactly
/// eight groups; with one double colon, head and tail runs of groups —
/// either possibly empty — spelling at most seven together, a trailing
/// dotted-quad allowed in the tail and counting as two.
pub open spec fn is_ipv6_text(s: Seq<u8>) -> bool {
    match find_dcolon(s) {
        None => spec_v6_groups(s, true) == Some(8nat),
        Some(i) => {
            let left = s.take(i);
            let right = s.skip(i + 2);
            let lg = if left.len() == 0 {
                Some(0nat)
            } else {
                spec_v6_groups(left, false)
            };
            let rg = if right.len() == 0 {
                Some(0nat)
            } else {
                spec_v6_groups(right, true)
            };
            &&& lg is Some
            &&& rg is Some
            &&& lg->0 + rg->0 <= 7
        },
    }
}

/// The shapes this system accepts as an overlay address.
pub open spec fn is_ip_text(s: Seq<u8>) -> bool {
    is_ipv4_text(s) || is_ipv6_text(s)
}

/// Parses one dotted-quad octet at `pos`.
fn parse_octet(buf: &[u8], pos: usize) -> (r: Option<usize>)
    requires
        pos <= buf.len(),
    ensures
        match r {
            None => spec_parse_octet(buf@.skip(pos as int)) is None,
            Some(j) => {
                &&& pos < j <= buf.len()
                &&& spec_parse_octet(buf@.skip(pos as int)) is Some
                &&& (spec_parse_octet(buf@.skip(pos as int))->0).1 == (j - pos) as nat
            },
        },
{
    let ghost s = buf@.skip(pos as int);
    let mut end: usize = pos;
    while end < buf.len() && buf[end] >= 0x30 && buf[end] <= 0x39
        invariant
            pos <= end <= buf.len(),
            s =~= buf@.skip(pos as int),
            forall|i: int| pos <= i < end ==> is_digit(#[trigger] buf@[i]),
        decreases buf.len() - end,
    {
        end = end + 1;
    }
    proof {
        assert(forall|i: int| 0 <= i < end - pos ==> #[trigger] s[i] == buf@[i + pos]);
        assert(end < buf.len() ==> s[(end - pos) as int] == buf@[end as int]);
        lemma_digit_prefix_len(s, (end - pos) as nat);
    }
    let k = end - pos;
    if k == 0 || k > 3 {
        return None;
    }
    if buf[pos] == 0x30 && k > 1 {
        proof {
            assert(s[0] == buf@[pos as int]);
        }
        return None;
    }
    let mut v: u64 = 0;
    let mut j: usize = pos;
    while j < end
        invariant
            pos <= j <= end <= buf.len(),
            end - pos <= 3,
            s =~= buf@.skip(pos as int),
            forall|q: int| pos <= q < end ==> is_digit(#[trigger] buf@[q]),
            v as nat == dec_val(s.take(j - pos)),
            v <= 999,
        decreases end - j,
    {
        proof {
            let p = s.take(j + 1 - pos);
            assert(p.drop_last() =~= s.take(j - pos));
            assert(p.last() == buf@[j as int]);
            let q = s.take((end - pos) as int);
            assert(forall|x: int| 0 <= x < p.len() ==> #[trigger] p[x] == q[x]);
            lemma_dec_val_extend_le(p, q);
            lemma_dec_val_bound3(q);
        }
        let d = buf[j] - 0x30;
        v = v * 10 + (d as u64);
        j = j + 1;
    }
    proof {
        assert(s.take((end - pos) as int) =~= s.take(k as int));
    }
    if v > 255 {
        return None;
    }
    Some(end)
}

/// Three digits never exceed nine hundred ninety-nine.
proof fn lemma_dec_val_bound3(s: Seq<u8>)
    requires
        s.len() <= 3,
        forall|i: int| 0 <= i < s.len() ==> is_digit(#[trigger] s[i]),
    ensures
        dec_val(s) <= 999,
    decreases s.len(),
{
    if s.len() > 0 {
        let p = s.drop_last();
        assert(forall|i: int| 0 <= i < p.len() ==> #[trigger] p[i] == s[i]);
        lemma_dec_val_bound3(p);
        if s.len() == 1 {
            assert(dec_val(p) == 0);
        } else if s.len() == 2 {
            assert(p.len() == 1);
            assert(dec_val(p.drop_last()) == 0);
            assert(dec_val(p) <= 9);
        } else {
            lemma_dec_val_bound2(p);
        }
    }
}

/// Two digits never exceed ninety-nine.
proof fn lemma_dec_val_bound2(s: Seq<u8>)
    requires
        s.len() <= 2,
        forall|i: int| 0 <= i < s.len() ==> is_digit(#[trigger] s[i]),
    ensures
        dec_val(s) <= 99,
{
    if s.len() > 0 {
        let p = s.drop_last();
        assert(forall|i: int| 0 <= i < p.len() ==> #[trigger] p[i] == s[i]);
        if s.len() == 1 {
            assert(dec_val(p) == 0);
        } else {
            assert(p.len() == 1);
            assert(dec_val(p.drop_last()) == 0);
            assert(dec_val(p) <= 9);
        }
    }
}

/// Checks the dotted-quad shape.
pub fn check_ipv4(buf: &[u8]) -> (r: bool)
    ensures
        r == is_ipv4_text(buf@),
{
    proof {
        assert(buf@.skip(0) =~= buf@);
    }
    check_ipv4_at(buf, 0)
}

/// Checks the dotted-quad shape of the bytes from `pos` to the end.
#[verifier::rlimit(100)]
#[verifier::spinoff_prover]
pub fn check_ipv4_at(buf: &[u8], pos: usize) -> (r: bool)
    requires
        pos <= buf.len(),
    ensures
        r == is_ipv4_text(buf@.skip(pos as int)),
{
    let p1 = match parse_octet(buf, pos) {
        Some(j) => j,
        None => {
            return false;
        },
    };
    proof {
        assert(buf@.skip(pos as int).skip((p1 - pos) as int) =~= buf@.skip(p1 as int));
    }
    if p1 == buf.len() || buf[p1] != 0x2e {
        proof {
            assert(p1 < buf.len() ==> buf@.skip(p1 as int)[0] == buf@[p1 as int]);
        }
        return false;
    }
    proof {
        assert(buf@.skip(p1 as int)[0] == buf@[p1 as int]);
        assert(buf@.skip(p1 as int).skip(1) =~= buf@.skip(p1 + 1));
    }
    let p2 = match parse_octet(buf, p1 + 1) {
        Some(j) => j,
        None => {
            return false;
        },
    };
    proof {
        assert(buf@.skip(p1 + 1).skip((p2 - p1 - 1) as int) =~= buf@.skip(p2 as int));
    }
    if p2 == buf.len() || buf[p2] != 0x2e {
        proof {
            assert(p2 < buf.len() ==> buf@.skip(p2 as int)[0] == buf@[p2 as int]);
        }
        return false;
    }
    proof {
        assert(buf@.skip(p2 as int)[0] == buf@[p2 as int]);
        assert(buf@.skip(p2 as int).skip(1) =~= buf@.skip(p2 + 1));
    }
    let p3 = match parse_octet(buf, p2 + 1) {
        Some(j) => j,
        None => {
            return false;
        },
    };
    proof {
        assert(buf@.skip(p2 + 1).skip((p3 - p2 - 1) as int) =~= buf@.skip(p3 as int));
    }
    if p3 == buf.len() || buf[p3] != 0x2e {
        proof {
            assert(p3 < buf.len() ==> buf@.skip(p3 as int)[0] == buf@[p3 as int]);
        }
        return false;
    }
    proof {
        assert(buf@.skip(p3 as int)[0] == buf@[p3 as int]);
        assert(buf@.skip(p3 as int).skip(1) =~= buf@.skip(p3 + 1));
    }
    let p4 = match parse_octet(buf, p3 + 1) {
        Some(j) => j,
        None => {
            return false;
        },
    };
    proof {
        assert(buf@.skip(p3 + 1).len() == buf.len() - p3 - 1);
    }
    p4 == buf.len()
}

/// Copies the bytes from `from` to `to` into a vector.
fn copy_range(buf: &[u8], from: usize, to: usize) -> (r: Vec<u8>)
    requires
        from <= to <= buf.len(),
    ensures
        r@ == buf@.subrange(from as int, to as int),
{
    let mut out: Vec<u8> = Vec::new();
    let mut i: usize = from;
    while i < to
        invariant
            from <= i <= to <= buf.len(),
            out@ =~= buf@.subrange(from as int, i as int),
        decreases to - i,
    {
        out.push(buf[i]);
        proof {
            assert(out@ =~= buf@.subrange(from as int, i + 1));
        }
        i = i + 1;
    }
    out
}

/// Counts the colon-separated address groups from `pos` to the end.
#[verifier::rlimit(100)]
#[verifier::spinoff_prover]
fn v6_groups_at(buf: &[u8], pos: usize, allow_v4: bool) -> (r: Option<usize>)
    requires
        pos <= buf.len(),
    ensures
        match r {
            None => spec_v6_groups(buf@.skip(pos as int), allow_v4) is None,
            Some(g) => spec_v6_groups(buf@.skip(pos as int), allow_v4) == Some(g as nat),
        },
{
    let mut count: usize = 0;
    let mut i: usize = pos;
    loop
        invariant
            pos <= i <= buf.len(),
            2 * count <= i - pos,
            ({
                let whole = spec_v6_groups(buf@.skip(pos as int), allow_v4);
                let rem = spec_v6_groups(buf@.skip(i as int), allow_v4);
                match rem {
                    None => whole is None,
                    Some(g) => whole == Some((count + g) as nat),
                }
            }),
        decreases buf.len() - i,
    {
        let ghost cur = buf@.skip(i as int);
        if allow_v4 && check_ipv4_at(buf, i) {
            return Some(count + 2);
        }
        // the hexadecimal field
        let mut end: usize = i;
        while end < buf.len() && ((buf[end] >= 0x30 && buf[end] <= 0x39) || (buf[end] >= 0x61
            && buf[end] <= 0x66) || (buf[end] >= 0x41 && buf[end] <= 0x46))
            invariant
                i <= end <= buf.len(),
                forall|j: int| i <= j < end ==> is_hex_any(#[trigger] buf@[j]),
            decreases buf.len() - end,
        {
            end = end + 1;
        }
        proof {
            assert(forall|j: int| 0 <= j < end - i ==> #[trigger] cur[j] == buf@[j + i]);
            assert(end < buf.len() ==> cur[(end - i) as int] == buf@[end as int]);
            lemma_hex_any_prefix_len(cur, (end - i) as nat);
        }
        let k = end - i;
        if k == 0 || k > 4 {
            return None;
        }
        if end == buf.len() {
            return Some(count + 1);
        }
        if buf[end] != 0x3a {
            return None;
        }
        proof {
            assert(cur.skip((k + 1) as int) =~= buf@.skip((end + 1) as int));
        }
        count = count + 1;
        i = end + 1;
    }
}

/// Finds the first double colon, if any.
fn find_dcolon_at(buf: &[u8]) -> (r: Option<usize>)
    ensures
        match r {
            None => find_dcolon(buf@) is None,
            Some(i) => find_dcolon(buf@) == Some(i as int) && i + 2 <= buf.len(),
        },
{
    if buf.len() < 2 {
        return None;
    }
    proof {
        assert(buf@.skip(0) =~= buf@);
    }
    let mut i: usize = 0;
    while i < buf.len() - 1
        invariant
            buf.len() >= 2,
            i <= buf.len() - 1,
            ({
                let whole = find_dcolon(buf@);
                let rem = find_dcolon(buf@.skip(i as int));
                match rem {
                    None => whole is None,
                    Some(d) => whole == Some(i + d),
                }
            }),
        decreases buf.len() - i,
    {
        let ghost cur = buf@.skip(i as int);
        proof {
            assert(cur[0] == buf@[i as int]);
            assert(cur[1] == buf@[i + 1]);
            assert(cur.skip(1) =~= buf@.skip(i + 1));
        }
        if buf[i] == 0x3a && buf[i + 1] == 0x3a {
            return Some(i);
        }
        i = i + 1;
    }
    proof {
        assert(buf@.skip((buf.len() - 1) as int).len() < 2);
    }
    None
}

/// Checks the colon-grouped shape.
#[verifier::rlimit(100)]
#[verifier::spinoff_prover]
pub fn check_ipv6(buf: &[u8]) -> (r: bool)
    ensures
        r == is_ipv6_text(buf@),
{
    proof {
        assert(buf@.skip(0) =~= buf@);
    }
    match find_dcolon_at(buf) {
        None => {
            match v6_groups_at(buf, 0, true) {
                Some(g) => g == 8,
                None => false,
            }
        },
        Some(i) => {
            let left_groups: Option<usize> = if i == 0 {
                Some(0)
            } else {
                let left = copy_range(buf, 0, i);
                proof {
                    assert(left@ =~= buf@.take(i as int));
                    assert(left@.skip(0) =~= left@);
                }
                v6_groups_at(left.as_slice(), 0, false)
            };
            let right_groups: Option<usize> = if i + 2 == buf.len() {
                proof {
                    assert(buf@.skip((i + 2) as int).len() == 0);
                }
                Some(0)
            } else {
                proof {
                    assert(buf@.skip((i + 2) as int).len() > 0);
                }
                v6_groups_at(buf, i + 2, true)
            };
            match (left_groups, right_groups) {
                (Some(lg), Some(rg)) => lg <= 7 && rg <= 7 && lg + rg <= 7,
                _ => false,
            }
        },
    }
}

/// Checks the shapes this system accepts as an overlay address.
pub fn check_ip_text(buf: &[u8]) -> (r: bool)
    ensures
        r == is_ip_text(buf@),
{
    if check_ipv4(buf) {
        true
    } else {
        check_ipv6(buf)
    }
}

/// Agent configuration: connection target, identity hints and logging, as
/// the environment supplies them; absent values fall back to detection or
/// generation.
pub struct Config {
    pub hub_url: String,
    pub status_port: u16,
    pub provider: ProviderType,
    pub provider_instance_id: Option<Vec<u8>>,
    pub hostname: Option<Vec<u8>>,
    pub tailscale_ip: Vec<u8>,
    pub log_level: Vec<u8>,
}

impl Config {
    /// The hostname to report: the configured one, else the detected one the
    /// caller hands in.
    pub fn get_hostname(&self, detected: Vec<u8>) -> (r: Vec<u8>)
        ensures
            r@ == match self.hostname {
                Some(h) => h@,
                None => detected@,
            },
    {
        match &self.hostname {
            Some(h) => clone_bytes(h),
            None => detected,
        }
    }

    /// The provider instance identifier to report: the configured one, else
    /// the hostname with a dash and eight freshly drawn hexadecimal digits.
    pub fn get_provider_instance_id(&self, hostname: &Vec<u8>) -> (r: Vec<u8>)
        requires
            hostname@.len() + 9 <= usize::MAX,
        ensures
            match self.provider_instance_id {
                Some(p) => r@ == p@,
                None => {
                    &&& r@.len() == hostname@.len() + 9
                    &&& r@.take(hostname@.len() as int) == hostname@
                    &&& r@[hostname@.len() as int] == 0x2d
                    &&& forall|i: int|
                        hostname@.len() + 1 <= i < r@.len() ==> crate::text::is_hex_lower(
                            #[trigger] r@[i],
                        )
                },
            },
    {
        match &self.provider_instance_id {
            Some(p) => clone_bytes(p),
            None => {
                let u = fresh_uuid();
                let mut rendered: Vec<u8> = Vec::new();
                crate::ids::encode_uuid(u, &mut rendered);
                proof {
                    crate::ids::lemma_uuid_bytes_val(u);
                }
                let mut out = clone_bytes(hostname);
                out.push(0x2d);
                let mut i: usize = 0;
                while i < 8
                    invariant
                        i <= 8,
                        rendered@ == crate::ids::uuid_bytes(u),
                        crate::ids::wf_uuid_bytes(rendered@),
                        out@.len() == hostname@.len() + 1 + i,
                        out@.take(hostname@.len() as int) =~= hostname@,
                        out@[hostname@.len() as int] == 0x2d,
                        forall|j: int|
                            hostname@.len() + 1 <= j < out@.len() ==> crate::text::is_hex_lower(
                                #[trigger] out@[j],
                            ),
                    decreases 8 - i,
                {
                    proof {
                        assert(crate::ids::uuid_byte_ok(rendered@[i as int], i as int));
                    }
                    out.push(rendered[i]);
                    proof {
                        assert(out@.take(hostname@.len() as int) =~= hostname@);
                    }
                    i = i + 1;
                }
                out
            },
        }
    }

    /// The overlay address, validated: returned when it has an address
    /// shape, refused otherwise with the offending text, so the caller's
    /// report can name it.
    pub fn get_tailscale_ip(&self) -> (r: Result<Vec<u8>, Vec<u8>>)
        ensures
            match r {
                Ok(v) => v@ == self.tailscale_ip@ && is_ip_text(self.tailscale_ip@),
                Err(bad) => bad@ == self.tailscale_ip@ && !is_ip_text(self.tailscale_ip@),
            },
    {
        if check_ip_text(self.tailscale_ip.as_slice()) {
            Ok(clone_bytes(&self.tailscale_ip))
        } else {
            Err(clone_bytes(&self.tailscale_ip))
        }
    }
}

/// Overlay-network credentials of the hub: both parts together or neither.
pub struct TailscaleConfig {
    pub client_id: Option<Vec<u8>>,
    pub client_secret: Option<Vec<u8>>,
}

/// Both overlay-network credentials, present together.
pub struct TailscaleOAuth {
    pub client_id: Vec<u8>,
    pub client_secret: Vec<u8>,
}

impl TailscaleConfig {
    /// Accepts both credentials present or both absent; refuses a lone one,
    /// naming the missing half.
    pub fn validate(&self) -> (r: Result<(), String>)
        ensures
            match r {
                Ok(_) => (self.client_id is Some <==> self.client_secret is Some),
                Err(m) => (self.client_id is Some && self.client_secret is None && m@
                    == "HUB_TAILSCALE_CLIENT_SECRET is required when HUB_TAILSCALE_CLIENT_ID is set"@)
                    || (self.client_id is None && self.client_secret is Some && m@
                    == "HUB_TAILSCALE_CLIENT_ID is required when HUB_TAILSCALE_CLIENT_SECRET is set"@),
            },
    {
        match (&self.client_id, &self.client_secret) {
            (Some(_), None) => Err(
                "HUB_TAILSCALE_CLIENT_SECRET is required when HUB_TAILSCALE_CLIENT_ID is set".to_owned(),
            ),
            (None, Some(_)) => Err(
                "HUB_TAILSCALE_CLIENT_ID is required when HUB_TAILSCALE_CLIENT_SECRET is set".to_owned(),
            ),
            _ => Ok(()),
        }
    }

    /// The credentials, when both are present.
    pub fn oauth(&self) -> (r: Option<TailscaleOAuth>)
        ensures
            match r {
                Some(o) => {
                    &&& self.client_id is Some
                    &&& self.client_secret is Some
                    &&& o.client_id@ == self.client_id->0@
                    &&& o.client_secret@ == self.client_secret->0@
                },
                None => self.client_id is None || self.client_secret is None,
            },
    {
        match (&self.client_id, &self.client_secret) {
            (Some(id), Some(secret)) => Some(
                TailscaleOAuth { client_id: clone_bytes(id), client_secret: clone_bytes(secret) },
            ),
            _ => None,
        }
    }
}

/// Hub configuration, as the environment supplies it.
pub struct HubConfig {
    pub log_level: Vec<u8>,
    pub port: u16,
    pub database_url: Vec<u8>,
    pub shutdown_timeout_ms: u64,
    pub tailscale: TailscaleConfig,
}

} // verus!
