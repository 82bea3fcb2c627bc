//! Parsing of kernel-log (`dmesg`) output.
//!
//! A raw line looks like `[    4.396920] some message`: seconds since boot
//! in brackets, then the message.  The parser turns the bracketed seconds
//! into milliseconds, adds the boot time, and classifies the message into
//! a severity level by the words it holds.  Running the command and
//! reading the clock happen outside this crate; the functions here work on
//! the captured text alone.
//!
//! Timestamps are handled as exact integer milliseconds, so the stamp
//! grammar is fixed-point decimal — the only form the kernel prints for
//! these stamps (and `/proc/uptime` likewise).  This is a deliberate
//! choice: a floating-point reading cannot be stated or carried in
//! verified code, and exponent or non-finite forms, which no kernel log
//! contains, are rejected like any other malformed line.  A stamp so far
//! past boot that the millisecond sum leaves `u64` is rejected rather
//! than wrapped.

use vstd::prelude::*;
use vstd::string::StringExecFns;

use crate::chars::{
    chars_to_string, contains_chars, contains_seq, copy_range, spec_trim, str_to_chars, trim_chars,
};
use crate::codec::{
    check_dec_digit, dec_val, is_dec_digit, lemma_parse_digits, lemma_pow10_18, lemma_pow10_mono,
    parse_digits, pow10,
};
use crate::marker::{exec_scan_to, lemma_scan_to_bounds, scan_to, strip_cr};

verus! {

/// One parsed kernel-log entry.
#[derive(Debug, Clone, PartialEq, Eq)]
pub struct DmesgEntry {
    pub timestamp: u64,
    pub level: String,
    pub message: String,
}

/// The mathematical value of a `DmesgEntry`.
pub ghost struct DmesgEntryView {
    pub timestamp: u64,
    pub level: Seq<char>,
    pub message: Seq<char>,
}

impl View for DmesgEntry {
    type V = DmesgEntryView;

    open spec fn view(&self) -> DmesgEntryView {
        DmesgEntryView { timestamp: self.timestamp, level: self.level@, message: self.message@ }
    }
}

/// A whole kernel-log collection: who produced it, when, and its entries.
#[derive(Debug, Clone, PartialEq, Eq)]
pub struct DmesgResponse {
    pub server_id: String,
    pub timestamp: u64,
    pub entries: Vec<DmesgEntry>,
}

/// The position right after the digit run starting at `i`.
pub open spec fn digit_run_end(s: Seq<char>, i: int) -> int
    decreases s.len() - i,
{
    if 0 <= i && i < s.len() && is_dec_digit(s[i]) {
        digit_run_end(s, i + 1)
    } else {
        i
    }
}

pub proof fn lemma_digit_run_end(s: Seq<char>, i: int, acc: int)
    requires
        0 <= i <= s.len(),
    ensures
        parse_digits(s, i, acc).1 == digit_run_end(s, i),
        i <= digit_run_end(s, i) <= s.len(),
    decreases s.len() - i,
{
    if i < s.len() && is_dec_digit(s[i]) {
        lemma_digit_run_end(s, i + 1, acc * 10 + dec_val(s[i]));
    }
}

/// Finds the end of the digit run starting at `i`.
fn exec_digit_run_end(s: &Vec<char>, i: usize) -> (r: usize)
    requires
        i <= s@.len(),
    ensures
        i <= r <= s@.len(),
        r as int == digit_run_end(s@, i as int),
        forall|m: int| i <= m < r ==> is_dec_digit(s@[m]),
{
    let n = s.len();
    let mut j = i;
    while j < n && check_dec_digit(s[j])
        invariant
            i <= j <= n,
            n == s@.len(),
            digit_run_end(s@, i as int) == digit_run_end(s@, j as int),
            forall|m: int| i <= m < j ==> is_dec_digit(s@[m]),
        decreases n - j,
    {
        j = j + 1;
    }
    j
}

proof fn lemma_pow10_12()
    ensures
        pow10(12) == 1000000000000,
{
    reveal_with_fuel(pow10, 14);
}

/// The milliseconds named by the first up-to-three fraction digits in
/// `[i, j)`.
pub open spec fn frac_ms(s: Seq<char>, i: int, j: int) -> int {
    if j - i >= 3 {
        dec_val(s[i]) * 100 + dec_val(s[i + 1]) * 10 + dec_val(s[i + 2])
    } else if j - i == 2 {
        dec_val(s[i]) * 100 + dec_val(s[i + 1]) * 10
    } else if j - i == 1 {
        dec_val(s[i]) * 100
    } else {
        0
    }
}

/// Seconds-with-fraction (`4`, `4.39692`, `.5`) read as whole
/// milliseconds, truncated past the third fraction digit.  At most twelve
/// integer digits; anything else is rejected.
pub open spec fn spec_parse_secs_ms(s: Seq<char>) -> Option<int> {
    if s.len() == 0 {
        None
    } else {
        let has_int = is_dec_digit(s[0]);
        let ip = if has_int {
            parse_digits(s, 0, 0)
        } else {
            (0, 0)
        };
        if ip.1 > 12 {
            None
        } else if ip.1 == s.len() && has_int {
            Some(ip.0 * 1000)
        } else if ip.1 < s.len() && s[ip.1] == '.' {
            let fend = digit_run_end(s, ip.1 + 1);
            if fend == s.len() && (has_int || fend > ip.1 + 1) {
                Some(ip.0 * 1000 + frac_ms(s, ip.1 + 1, fend))
            } else {
                None
            }
        } else {
            None
        }
    }
}

/// Parses a seconds value (as the bracketed boot-time stamp, or the first
/// field of an uptime reading) into whole milliseconds.
pub fn parse_secs_millis(s: &Vec<char>) -> (r: Option<u64>)
    ensures
        match r {
            Some(v) => spec_parse_secs_ms(s@) == Some(v as int),
            None => spec_parse_secs_ms(s@) is None,
        },
{
    let n = s.len();
    if n == 0 {
        return None;
    }
    let has_int = check_dec_digit(s[0]);
    let mut i1: usize = 0;
    let mut ival: u64 = 0;
    if has_int {
        proof {
            lemma_pow10_18();
        }
        let mut j: usize = 0;
        while j < n && check_dec_digit(s[j])
            invariant
                j <= n,
                n == s@.len(),
                parse_digits(s@, 0, 0) == parse_digits(s@, j as int, ival as int),
                j <= 12,
                (ival as int) < pow10(j as nat),
                pow10(18) == 1000000000000000000,
            decreases n - j,
        {
            if j == 12 {
                proof {
                    lemma_parse_digits(s@, j as int + 1, ival as int * 10 + dec_val(s@[j as int]));
                    assert(parse_digits(s@, 0, 0).1 >= j + 1);
                }
                return None;
            }
            let d: u64 = (s[j] as u32 - '0' as u32) as u64;
            proof {
                assert(pow10((j + 1) as nat) == 10 * pow10(j as nat));
                lemma_pow10_mono((j + 1) as nat, 18);
            }
            ival = ival * 10 + d;
            j = j + 1;
        }
        proof {
            assert(parse_digits(s@, j as int, ival as int) == (ival as int, j as int));
            lemma_pow10_mono(j as nat, 18);
        }
        i1 = j;
    }
    if i1 == n {
        if has_int {
            proof {
                lemma_pow10_12();
                lemma_pow10_mono(i1 as nat, 12);
            }
            return Some(ival * 1000);
        }
        return None;
    }
    if s[i1] != '.' {
        return None;
    }
    let fstart = i1 + 1;
    let fend = exec_digit_run_end(s, fstart);
    if !(fend == n && (has_int || fend > fstart)) {
        return None;
    }
    let fms: u64 = if fend - fstart >= 3 {
        let d0 = (s[fstart] as u32 - '0' as u32) as u64;
        let d1 = (s[fstart + 1] as u32 - '0' as u32) as u64;
        let d2 = (s[fstart + 2] as u32 - '0' as u32) as u64;
        d0 * 100 + d1 * 10 + d2
    } else if fend - fstart == 2 {
        let d0 = (s[fstart] as u32 - '0' as u32) as u64;
        let d1 = (s[fstart + 1] as u32 - '0' as u32) as u64;
        d0 * 100 + d1 * 10
    } else if fend - fstart == 1 {
        let d0 = (s[fstart] as u32 - '0' as u32) as u64;
        d0 * 100
    } else {
        0
    };
    proof {
        lemma_pow10_12();
        lemma_pow10_mono(i1 as nat, 12);
        lemma_digit_run_end(s@, fstart as int, 0);
    }
    Some(ival * 1000 + fms)
}

/// Parses the first whitespace-terminated field of an uptime reading
/// (`"2104.43 8400.77"`) into whole milliseconds.
pub fn parse_uptime_millis(text: &str) -> (r: Option<u64>)
    ensures
        match r {
            Some(v) => spec_parse_secs_ms(first_uptime_field(text@)) == Some(v as int),
            None => spec_parse_secs_ms(first_uptime_field(text@)) is None,
        },
{
    let cs = str_to_chars(text);
    let trimmed = trim_chars(&cs);
    let k = exec_scan_to(&trimmed, 0, ' ');
    let field = copy_range(&trimmed, 0, k);
    parse_secs_millis(&field)
}

/// The first space-terminated field of the trimmed uptime text.
pub open spec fn first_uptime_field(text: Seq<char>) -> Seq<char> {
    let t = spec_trim(text);
    t.subrange(0, scan_to(t, 0, ' '))
}

/// The boot instant in milliseconds: the current time minus the uptime,
/// floored at zero.
pub fn boot_time_from(now_ms: u64, uptime_ms: u64) -> (r: u64)
    ensures
        r as int == if now_ms >= uptime_ms {
            now_ms - uptime_ms
        } else {
            0
        },
{
    if now_ms >= uptime_ms {
        now_ms - uptime_ms
    } else {
        0
    }
}

/// The severity read off a message's wording.
pub open spec fn spec_level(msg: Seq<char>) -> Seq<char> {
    if contains_seq(msg, "error"@) || contains_seq(msg, "Error"@) || contains_seq(msg, "ERROR"@) {
        "error"@
    } else if contains_seq(msg, "warn"@) || contains_seq(msg, "Warn"@) || contains_seq(
        msg,
        "WARN"@,
    ) {
        "warning"@
    } else if contains_seq(msg, "critical"@) || contains_seq(msg, "CRITICAL"@) || contains_seq(
        msg,
        "crit"@,
    ) {
        "critical"@
    } else {
        "info"@
    }
}

/// Classifies a message into a severity level.
fn classify_level(msg: &Vec<char>) -> (r: String)
    ensures
        r@ == spec_level(msg@),
{
    let error1 = str_to_chars("error");
    let error2 = str_to_chars("Error");
    let error3 = str_to_chars("ERROR");
    if contains_chars(msg, &error1) || contains_chars(msg, &error2) || contains_chars(
        msg,
        &error3,
    ) {
        return String::from_str("error");
    }
    let warn1 = str_to_chars("warn");
    let warn2 = str_to_chars("Warn");
    let warn3 = str_to_chars("WARN");
    if contains_chars(msg, &warn1) || contains_chars(msg, &warn2) || contains_chars(msg, &warn3) {
        return String::from_str("warning");
    }
    let crit1 = str_to_chars("critical");
    let crit2 = str_to_chars("CRITICAL");
    let crit3 = str_to_chars("crit");
    if contains_chars(msg, &crit1) || contains_chars(msg, &crit2) || contains_chars(msg, &crit3) {
        return String::from_str("critical");
    }
    String::from_str("info")
}

/// The entry named by one raw line: `[` at the start, bracketed seconds
/// turned into milliseconds past `boot_time`, the trimmed remainder as the
/// message, and a level read off the message.
pub open spec fn spec_parse_dmesg_line(line: Seq<char>, boot_time: u64) -> Option<DmesgEntryView> {
    if line.len() == 0 || line[0] != '[' {
        None
    } else {
        let rb = scan_to(line, 0, ']');
        if rb < line.len() {
            let ts_str = spec_trim(line.subrange(1, rb));
            match spec_parse_secs_ms(ts_str) {
                Some(ms) => {
                    if 0 <= ms <= u64::MAX - boot_time {
                        let message = spec_trim(line.subrange(rb + 1, line.len() as int));
                        Some(
                            DmesgEntryView {
                                timestamp: (boot_time + ms) as u64,
                                level: spec_level(message),
                                message: message,
                            },
                        )
                    } else {
                        None
                    }
                },
                None => None,
            }
        } else {
            None
        }
    }
}

/// Parses one raw kernel-log line.
pub fn parse_dmesg_line(line: &str, boot_time: u64) -> (r: Option<DmesgEntry>)
    ensures
        match r {
            Some(e) => spec_parse_dmesg_line(line@, boot_time) == Some(e@),
            None => spec_parse_dmesg_line(line@, boot_time) is None,
        },
{
    let cs = str_to_chars(line);
    parse_dmesg_line_chars(&cs, boot_time)
}

fn parse_dmesg_line_chars(cs: &Vec<char>, boot_time: u64) -> (r: Option<DmesgEntry>)
    ensures
        match r {
            Some(e) => spec_parse_dmesg_line(cs@, boot_time) == Some(e@),
            None => spec_parse_dmesg_line(cs@, boot_time) is None,
        },
{
    let n = cs.len();
    if n == 0 {
        return None;
    }
    if cs[0] != '[' {
        return None;
    }
    let rb = exec_scan_to(cs, 0, ']');
    if !(rb < n) {
        return None;
    }
    proof {
        lemma_scan_to_bounds(cs@, 0, ']');
        assert(rb >= 1);
    }
    let bracketed = copy_range(cs, 1, rb);
    let ts_str = trim_chars(&bracketed);
    match parse_secs_millis(&ts_str) {
        None => None,
        Some(ms) => {
            if ms <= u64::MAX - boot_time {
                let raw_msg = copy_range(cs, rb + 1, n);
                let message = trim_chars(&raw_msg);
                let level = classify_level(&message);
                Some(
                    DmesgEntry {
                        timestamp: boot_time + ms,
                        level,
                        message: chars_to_string(message),
                    },
                )
            } else {
                None
            }
        },
    }
}

/// Whether an entry passes the "only newer than `since`" filter: kept when
/// no bound is given, or when its offset past boot exceeds the bound.
pub open spec fn keep_since(e: DmesgEntryView, boot_time: u64, since_ms: Option<u64>) -> bool {
    match since_ms {
        None => true,
        Some(bound) => e.timestamp >= boot_time && e.timestamp - boot_time > bound,
    }
}

/// The entries contributed by the line text `[i, …)` of `s`.
pub open spec fn spec_dmesg_entries(
    s: Seq<char>,
    i: int,
    boot_time: u64,
    since_ms: Option<u64>,
) -> Seq<DmesgEntryView>
    decreases s.len() - i,
{
    if i < 0 || i >= s.len() {
        Seq::empty()
    } else {
        let k = scan_to(s, i, '\n');
        if i <= k && k < s.len() {
            line_entries(strip_cr(s.subrange(i, k)), boot_time, since_ms) + spec_dmesg_entries(
                s,
                k + 1,
                boot_time,
                since_ms,
            )
        } else {
            line_entries(s.subrange(i, s.len() as int), boot_time, since_ms)
        }
    }
}

/// The entries contributed by one line: none for blank or unparsable
/// lines, none for entries the `since` filter drops.
pub open spec fn line_entries(
    line: Seq<char>,
    boot_time: u64,
    since_ms: Option<u64>,
) -> Seq<DmesgEntryView> {
    if spec_trim(line).len() == 0 {
        Seq::empty()
    } else {
        match spec_parse_dmesg_line(line, boot_time) {
            Some(e) => {
                if keep_since(e, boot_time, since_ms) {
                    seq![e]
                } else {
                    Seq::empty()
                }
            },
            None => Seq::empty(),
        }
    }
}

/// Parses captured kernel-log text into entries, dropping blank and
/// malformed lines and, when `since_ms` is given, entries no newer than
/// that many milliseconds past boot.
pub fn parse_dmesg_output(output: &str, boot_time: u64, since_ms: Option<u64>) -> (r: Vec<
    DmesgEntry,
>)
    ensures
        r@.len() == spec_dmesg_entries(output@, 0, boot_time, since_ms).len(),
        forall|k: int|
            0 <= k < r@.len() ==> r@[k]@ == spec_dmesg_entries(output@, 0, boot_time, since_ms)[k],
{
    let cs = str_to_chars(output);
    let n = cs.len();
    let ghost full = spec_dmesg_entries(cs@, 0, boot_time, since_ms);
    let mut r: Vec<DmesgEntry> = Vec::new();
    let ghost mut done: Seq<DmesgEntryView> = Seq::empty();
    let mut pos: usize = 0;
    loop
        invariant
            pos <= n,
            n == cs@.len(),
            cs@ == output@,
            full == spec_dmesg_entries(cs@, 0, boot_time, since_ms),
            full =~= done + spec_dmesg_entries(cs@, pos as int, boot_time, since_ms),
            r@.len() == done.len(),
            forall|k: int| 0 <= k < done.len() ==> r@[k]@ == done[k],
        decreases n - pos,
    {
        if pos >= n {
            proof {
                assert(full =~= done);
            }
            return r;
        }
        let k = exec_scan_to(&cs, pos, '\n');
        let last_line = k >= n;
        let hi = if k < n {
            k
        } else {
            n
        };
        let mut line = copy_range(&cs, pos, hi);
        if !last_line && line.len() > 0 && line[line.len() - 1] == '\r' {
            line.pop();
            proof {
                assert(line@ =~= strip_cr(cs@.subrange(pos as int, hi as int)));
            }
        }
        proof {
            if !last_line {
                assert(line@ == strip_cr(cs@.subrange(pos as int, hi as int)));
            }
        }
        let trimmed = trim_chars(&line);
        if trimmed.len() > 0 {
            match parse_dmesg_line_chars(&line, boot_time) {
                Some(e) => {
                    let keep = match since_ms {
                        None => true,
                        Some(bound) => e.timestamp >= boot_time && e.timestamp - boot_time > bound,
                    };
                    if keep {
                        proof {
                            done = done.push(e@);
                        }
                        r.push(e);
                    } else {
                        proof {
                            assert(line_entries(line@, boot_time, since_ms) =~= Seq::<
                                DmesgEntryView,
                            >::empty());
                        }
                    }
                },
                None => {},
            }
        }
        if last_line {
            proof {
                assert(full =~= done);
            }
            return r;
        }
        pos = k + 1;
    }
}

} // verus!
