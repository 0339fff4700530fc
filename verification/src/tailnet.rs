//! Overlay-network integration of the hub: the input validation guarding the
//! daemon's command line, the detection of an already running daemon, and
//! the reading of the daemon's status report. Spawning the daemon and
//! invoking its command line happen outside the library.

use vstd::prelude::*;

verus! {

/// What `char::is_alphanumeric` returns for a character; the result depends
/// on the character alone.
pub uninterp spec fn is_alphanumeric_char(c: char) -> bool;

/// Relies on `char::is_alphanumeric` of std for the Unicode alphanumeric
/// classes; the result is a function of the character alone and is given the
/// name `is_alphanumeric_char`.
#[verifier::external_body]
fn char_is_alphanumeric(c: char) -> (r: bool)
    ensures
        r == is_alphanumeric_char(c),
{
    c.is_alphanumeric()
}

/// The characters a key may hold: alphanumerics, hyphens and colons.
pub open spec fn authkey_char_ok(c: char) -> bool {
    is_alphanumeric_char(c) || c == '-' || c == ':'
}

/// The characters a reported hostname may hold: alphanumerics and hyphens.
pub open spec fn hostname_char_ok(c: char) -> bool {
    is_alphanumeric_char(c) || c == '-'
}

/// Accepts a key of alphanumerics, hyphens and colons; refuses anything
/// else, so no key can smuggle options or separators onto a command line.
pub fn validate_authkey(authkey: &str) -> (r: Result<(), String>)
    ensures
        match r {
            Ok(_) => forall|i: int| 0 <= i < authkey@.len() ==> authkey_char_ok(#[trigger] authkey@[i]),
            Err(m) => {
                &&& !(forall|i: int|
                    0 <= i < authkey@.len() ==> authkey_char_ok(#[trigger] authkey@[i]))
                &&& m@ == "Invalid authkey format: contains disallowed characters"@
            },
        },
{
    let n = authkey.unicode_len();
    let mut i: usize = 0;
    while i < n
        invariant
            i <= n,
            n == authkey@.len(),
            forall|j: int| 0 <= j < i ==> authkey_char_ok(#[trigger] authkey@[j]),
        decreases n - i,
    {
        let c = authkey.get_char(i);
        if !(char_is_alphanumeric(c) || c == '-' || c == ':') {
            return Err("Invalid authkey format: contains disallowed characters".to_owned());
        }
        i = i + 1;
    }
    Ok(())
}

/// Accepts a hostname of alphanumerics and hyphens; refuses anything else.
pub fn validate_hostname(hostname: &str) -> (r: Result<(), String>)
    ensures
        match r {
            Ok(_) => forall|i: int|
                0 <= i < hostname@.len() ==> hostname_char_ok(#[trigger] hostname@[i]),
            Err(m) => {
                &&& !(forall|i: int|
                    0 <= i < hostname@.len() ==> hostname_char_ok(#[trigger] hostname@[i]))
                &&& m@ == "Invalid hostname format: contains disallowed characters"@
            },
        },
{
    let n = hostname.unicode_len();
    let mut i: usize = 0;
    while i < n
        invariant
            i <= n,
            n == hostname@.len(),
            forall|j: int| 0 <= j < i ==> hostname_char_ok(#[trigger] hostname@[j]),
        decreases n - i,
    {
        let c = hostname.get_char(i);
        if !(char_is_alphanumeric(c) || c == '-') {
            return Err("Invalid hostname format: contains disallowed characters".to_owned());
        }
        i = i + 1;
    }
    Ok(())
}

/// Accepts tags of alphanumerics, hyphens and colons; refuses anything else.
pub fn validate_tags(tags: &str) -> (r: Result<(), String>)
    ensures
        match r {
            Ok(_) => forall|i: int| 0 <= i < tags@.len() ==> authkey_char_ok(#[trigger] tags@[i]),
            Err(m) => {
                &&& !(forall|i: int| 0 <= i < tags@.len() ==> authkey_char_ok(#[trigger] tags@[i]))
                &&& m@ == "Invalid tags format: contains disallowed characters"@
            },
        },
{
    let n = tags.unicode_len();
    let mut i: usize = 0;
    while i < n
        invariant
            i <= n,
            n == tags@.len(),
            forall|j: int| 0 <= j < i ==> authkey_char_ok(#[trigger] tags@[j]),
        decreases n - i,
    {
        let c = tags.get_char(i);
        if !(char_is_alphanumeric(c) || c == '-' || c == ':') {
            return Err("Invalid tags format: contains disallowed characters".to_owned());
        }
        i = i + 1;
    }
    Ok(())
}

/// Relies on `std::path::Path::exists` to see whether the daemon's control
/// socket file is present; the answer depends on the machine's disk and
/// nothing is assumed about it.
#[verifier::external_body]
fn daemon_socket_present() -> bool {
    std::path::Path::new("/var/run/tailscale/tailscaled.sock").exists()
}

/// Whether an overlay daemon is already running on this machine, judged by
/// the presence of its control socket.
pub fn detect_existing_daemon() -> bool {
    daemon_socket_present()
}

/// The daemon's status report, reduced to what the hub reads: the backend
/// state and the node's addresses, present once the daemon is
/// authenticated.
pub struct TailscaleStatus {
    pub backend_state: String,
    pub self_ips: Option<Vec<String>>,
}

/// Why no address could be taken from a status report.
#[derive(Clone, Copy, PartialEq, Eq, Debug, Structural)]
pub enum TailscaleStatusError {
    NotAuthenticated,
    NoAddresses,
}

/// The node's first overlay address in a status report: refused while the
/// daemon is unauthenticated or holds no addresses yet.
pub fn extract_tailscale_ip(status: &TailscaleStatus) -> (r: Result<String, TailscaleStatusError>)
    ensures
        match r {
            Ok(ip) => {
                &&& status.self_ips is Some
                &&& status.self_ips->0@.len() > 0
                &&& ip@ == status.self_ips->0@[0]@
            },
            Err(TailscaleStatusError::NotAuthenticated) => status.self_ips is None,
            Err(TailscaleStatusError::NoAddresses) => status.self_ips is Some
                && status.self_ips->0@.len() == 0,
        },
{
    match &status.self_ips {
        None => Err(TailscaleStatusError::NotAuthenticated),
        Some(ips) => {
            if ips.len() == 0 {
                Err(TailscaleStatusError::NoAddresses)
            } else {
                Ok(ips[0].clone())
            }
        },
    }
}

/// Whether the daemon is fully connected: its backend runs and the node
/// holds at least one address.
pub fn connection_ready(status: &TailscaleStatus) -> (r: bool)
    ensures
        r == (status.backend_state@ == "Running"@ && status.self_ips is Some
            && status.self_ips->0@.len() > 0),
{
    let running = {
        let expected = "Running".to_owned();
        status.backend_state == expected
    };
    match &status.self_ips {
        Some(ips) => running && ips.len() > 0,
        None => false,
    }
}

} // verus!
