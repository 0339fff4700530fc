//! The hub's and agent's clock readings: milliseconds since the epoch for
//! the internal timers, and ISO-8601 UTC text for the frames. The reading
//! itself is trusted; its shape is checked in verified code and a fixed
//! epoch instant stands in when a reading comes back misshapen.

use vstd::prelude::*;
use crate::text::{wf_timestamp, check_timestamp};

verus! {

/// Relies on chrono's `Utc::now` and `timestamp_millis` for the clock
/// reading; the value depends on the machine's clock and nothing is assumed
/// about it.
#[verifier::external_body]
fn chrono_now_millis() -> i64 {
    chrono::Utc::now().timestamp_millis()
}

/// Relies on chrono's `Utc::now` and `to_rfc3339_opts` for the clock
/// reading as RFC 3339 UTC text with a `Z` suffix; the value depends on the
/// machine's clock and nothing is assumed about it.
#[verifier::external_body]
fn chrono_now_rfc3339() -> Vec<u8> {
    chrono::Utc::now().to_rfc3339_opts(chrono::SecondsFormat::Millis, true).into_bytes()
}

/// Milliseconds of the clock now. A negative reading — which chrono's
/// clock does not hand back, since it refuses machines set before the epoch
/// — would clamp to zero rather than wrap.
pub fn now_millis() -> u64 {
    let t = chrono_now_millis();
    if t < 0 {
        0
    } else {
        t as u64
    }
}

/// The clock now as timestamp text of the shape the frames carry; a
/// misshapen reading falls back to the epoch instant.
pub fn now_timestamp() -> (r: Vec<u8>)
    ensures
        wf_timestamp(r@),
{
    let t = chrono_now_rfc3339();
    if check_timestamp(t.as_slice()) {
        t
    } else {
        epoch_timestamp()
    }
}

/// The epoch instant as timestamp text.
pub fn epoch_timestamp() -> (r: Vec<u8>)
    ensures
        wf_timestamp(r@),
{
    let mut v: Vec<u8> = Vec::new();
    v.push(0x31);
    v.push(0x39);
    v.push(0x37);
    v.push(0x30);
    v.push(0x2d);
    v.push(0x30);
    v.push(0x31);
    v.push(0x2d);
    v.push(0x30);
    v.push(0x31);
    v.push(0x54);
    v.push(0x30);
    v.push(0x30);
    v.push(0x3a);
    v.push(0x30);
    v.push(0x30);
    v.push(0x3a);
    v.push(0x30);
    v.push(0x30);
    v.push(0x5a);
    proof {
        assert(v@.len() == 20);
        assert(wf_timestamp(v@));
    }
    v
}

} // verus!
