//! Formatting of per-thread details for the process collector.
//!
//! Enumerating processes and threads is an outside concern; this module
//! holds the thread record itself and the exact text formatting the
//! collector applies to memory sizes and runtimes.

use vstd::prelude::*;

use crate::chars::chars_to_string;
use crate::numfmt::{dec_of, dec_pad2, push_dec_pad2, push_dec_u64};

verus! {

/// One thread's details, as the process collector reports them.
#[derive(Debug, Clone, PartialEq, Eq)]
pub struct ThreadData {
    pub thread_id: u32,
    pub user_name: String,
    pub priority: u32,
    pub nice_value: i32,
    pub virtual_memory: String,
    pub resident_memory: String,
    pub shared_memory: String,
    pub status: String,
    pub cpu_usage: String,
    pub memory_usage: String,
    pub runtime: String,
    pub command: String,
}

/// A memory size in kibibytes shown with a unit letter: whole gibibytes
/// from a gibibyte up, else whole mebibytes from a mebibyte up, else
/// kibibytes.
pub open spec fn spec_format_memory(kb: u64) -> Seq<char> {
    if kb >= 1048576 {
        dec_of(kb as int / 1048576) + seq!['G']
    } else if kb >= 1024 {
        dec_of(kb as int / 1024) + seq!['M']
    } else {
        dec_of(kb as int) + seq!['K']
    }
}

/// Formats a memory size given in kibibytes.
pub fn format_memory(kb: u64) -> (r: String)
    ensures
        r@ == spec_format_memory(kb),
{
    let mut v: Vec<char> = Vec::new();
    if kb >= 1048576 {
        push_dec_u64(&mut v, kb / 1048576);
        v.push('G');
    } else if kb >= 1024 {
        push_dec_u64(&mut v, kb / 1024);
        v.push('M');
    } else {
        push_dec_u64(&mut v, kb);
        v.push('K');
    }
    proof {
        assert(v@ =~= spec_format_memory(kb));
    }
    chars_to_string(v)
}

/// A runtime in seconds shown as `h:mm:ss` with two-digit minutes and
/// seconds.
pub open spec fn spec_format_runtime(secs: u64) -> Seq<char> {
    dec_of(secs as int / 3600) + seq![':'] + dec_pad2((secs as int % 3600) / 60) + seq![':']
        + dec_pad2(secs as int % 60)
}

/// Formats a thread's runtime in seconds.
pub fn format_runtime(secs: u64) -> (r: String)
    ensures
        r@ == spec_format_runtime(secs),
{
    let hours = secs / 3600;
    let minutes = (secs % 3600) / 60;
    let seconds = secs % 60;
    let mut v: Vec<char> = Vec::new();
    push_dec_u64(&mut v, hours);
    v.push(':');
    push_dec_pad2(&mut v, minutes);
    v.push(':');
    push_dec_pad2(&mut v, seconds);
    proof {
        assert(v@ =~= spec_format_runtime(secs));
    }
    chars_to_string(v)
}

/// The runtime in whole seconds of a thread started `start_time_secs`
/// after boot on a machine up for `uptime_secs`: the difference, floored
/// at zero.
pub fn runtime_seconds(uptime_secs: u64, start_time_secs: u64) -> (r: u64)
    ensures
        r as int == if uptime_secs > start_time_secs {
            uptime_secs - start_time_secs
        } else {
            0
        },
{
    if uptime_secs > start_time_secs {
        uptime_secs - start_time_secs
    } else {
        0
    }
}

} // verus!
