//! The server identifier, session ids, and the clock.
//!
//! The server id is the host name joined by `-` to the first eight
//! characters of the machine id, with `unknown` standing in for either
//! when the machine will not say.  What the machine reports comes through
//! trusted calls into outside crates; the combination itself is verified.

use vstd::prelude::*;
use vstd::string::StringExecFns;

use crate::chars::{chars_to_string, push_str_chars, str_to_chars};

verus! {

/// Relies on `sysinfo::System::host_name`: the machine's host name, if the
/// system reports one.  The result depends on the machine, so nothing is
/// promised of it.
#[verifier::external_body]
fn sysinfo_host_name() -> (r: Option<String>) {
    sysinfo::System::host_name()
}

/// Relies on `machine_uid::get`: the OS machine id (read from the system),
/// if it can be had.  The result depends on the machine, so nothing is
/// promised of it.
#[verifier::external_body]
fn machine_uid_string() -> (r: Option<String>) {
    machine_uid::get().ok()
}

/// Relies on `uuid::Uuid::new_v4`: a fresh random UUID.  Its hyphenated
/// text form is always 36 characters; nothing else is promised of a
/// random value.
#[verifier::external_body]
pub fn new_session_id() -> (r: String)
    ensures
        r@.len() == 36,
{
    uuid::Uuid::new_v4().to_string()
}

/// Relies on `chrono::Utc::now`: the current time in whole seconds since
/// the epoch.  Nothing is promised of the clock.
#[verifier::external_body]
pub fn now_seconds() -> (r: i64) {
    chrono::Utc::now().timestamp()
}

/// Relies on `chrono::Utc::now`: the current time in whole milliseconds
/// since the epoch.  Nothing is promised of the clock.
#[verifier::external_body]
pub fn now_millis() -> (r: i64) {
    chrono::Utc::now().timestamp_millis()
}

/// The server id named by what the machine reported: host name and the
/// first eight characters of the machine id, joined by `-`, with
/// `unknown` for a missing part.
pub open spec fn spec_server_id(host: Option<Seq<char>>, mid: Option<Seq<char>>) -> Seq<char> {
    let h = match host {
        Some(h) => h,
        None => "unknown"@,
    };
    let m = match mid {
        Some(m) => m,
        None => "unknown"@,
    };
    let cut = if m.len() < 8 {
        m.len() as int
    } else {
        8
    };
    h + seq!['-'] + m.subrange(0, cut)
}

/// Combines the machine's answers into the server id.
pub fn server_id_from_parts(hostname: Option<String>, machine_id: Option<String>) -> (r: String)
    ensures
        r@ == spec_server_id(
            match hostname {
                Some(h) => Some(h@),
                None => None,
            },
            match machine_id {
                Some(m) => Some(m@),
                None => None,
            },
        ),
{
    let h = match hostname {
        Some(h) => h,
        None => String::from_str("unknown"),
    };
    let m = match machine_id {
        Some(m) => m,
        None => String::from_str("unknown"),
    };
    let mut v: Vec<char> = Vec::new();
    push_str_chars(&mut v, h.as_str());
    v.push('-');
    let mc = str_to_chars(m.as_str());
    let cut = if mc.len() < 8 {
        mc.len()
    } else {
        8
    };
    let mut i: usize = 0;
    while i < cut
        invariant
            cut <= mc@.len(),
            i <= cut,
            v@ == h@ + seq!['-'] + mc@.subrange(0, i as int),
        decreases cut - i,
    {
        v.push(mc[i]);
        i = i + 1;
        proof {
            assert(v@ =~= h@ + seq!['-'] + mc@.subrange(0, i as int));
        }
    }
    chars_to_string(v)
}

/// Produces this server's identifier from what the machine reports.
pub fn generate_server_id() -> (r: String)
    ensures
        exists|host: Option<Seq<char>>, mid: Option<Seq<char>>|
            r@ == spec_server_id(host, mid),
{
    let hostname = sysinfo_host_name();
    let machine_id = machine_uid_string();
    let ghost hv: Option<Seq<char>> = match &hostname {
        Some(h) => Some(h@),
        None => None,
    };
    let ghost mv: Option<Seq<char>> = match &machine_id {
        Some(m) => Some(m@),
        None => None,
    };
    let r = server_id_from_parts(hostname, machine_id);
    proof {
        assert(r@ == spec_server_id(hv, mv));
    }
    r
}

} // verus!
