//! Parsing of `/proc/diskstats` text for the I/O metrics.
//!
//! Each line holds at least fourteen whitespace-separated fields; field 2
//! names the device and fields 5 and 9 count sectors read and written.
//! Only whole devices are counted — a name ending in a digit is a
//! partition and is skipped, as are short or malformed lines.  Reading the
//! file happens outside this crate.

use vstd::prelude::*;

use crate::chars::{copy_range, is_ws_char, check_ws_char, str_to_chars};
use crate::codec::{
    check_dec_digit, dec_val, is_dec_digit, lemma_parse_digits, lemma_pow10_pos, parse_digits,
    pow10,
};
use crate::marker::{exec_scan_to, scan_to, strip_cr};

verus! {

/// The position right after the non-blank field starting at `i`.
pub open spec fn field_end(s: Seq<char>, i: int) -> int
    decreases s.len() - i,
{
    if 0 <= i && i < s.len() && !is_ws_char(s[i]) {
        field_end(s, i + 1)
    } else {
        i
    }
}

/// The whitespace-separated fields of `s` from `i` on, as
/// `str::split_whitespace` cuts them: blank runs separate, no empty
/// fields.
pub open spec fn split_ws_from(s: Seq<char>, i: int) -> Seq<Seq<char>>
    decreases s.len() - i,
{
    if i < 0 || i >= s.len() {
        Seq::empty()
    } else if is_ws_char(s[i]) {
        split_ws_from(s, i + 1)
    } else {
        let k = field_end(s, i);
        if i < k && k <= s.len() {
            seq![s.subrange(i, k)] + split_ws_from(s, k)
        } else {
            Seq::empty()
        }
    }
}

/// A decimal `u64` field: one or more digits naming a value that fits in
/// a `u64`.
pub open spec fn spec_parse_u64(f: Seq<char>) -> Option<int> {
    if f.len() >= 1 && (forall|m: int| 0 <= m < f.len() ==> is_dec_digit(f[m]))
        && parse_digits(f, 0, 0).0 <= u64::MAX {
        Some(parse_digits(f, 0, 0).0)
    } else {
        None
    }
}

/// Parses an all-digit field, rejecting values past the largest `u64`.
pub fn parse_u64_field(f: &Vec<char>) -> (r: Option<u64>)
    ensures
        match r {
            Some(v) => spec_parse_u64(f@) == Some(v as int),
            None => spec_parse_u64(f@) is None,
        },
{
    let n = f.len();
    if n == 0 {
        return None;
    }
    let mut j: usize = 0;
    let mut acc: u64 = 0;
    while j < n
        invariant
            j <= n,
            n == f@.len(),
            forall|m: int| 0 <= m < j ==> is_dec_digit(f@[m]),
            parse_digits(f@, 0, 0) == parse_digits(f@, j as int, acc as int),
        decreases n - j,
    {
        if !check_dec_digit(f[j]) {
            return None;
        }
        let d: u64 = (f[j] as u32 - '0' as u32) as u64;
        let ghost m = (u64::MAX - d) as int;
        if acc > (u64::MAX - d) / 10 {
            proof {
                // the digits seen so far already name more than a u64 holds,
                // and further digits only grow the value
                assert(10 * (m / 10) > m - 10);
                assert(acc as int * 10 + d as int > u64::MAX);
                let acc2 = acc as int * 10 + dec_val(f@[j as int]);
                lemma_parse_digits(f@, j as int + 1, acc2);
                assert(parse_digits(f@, j as int, acc as int) == parse_digits(
                    f@,
                    j as int + 1,
                    acc2,
                ));
                let (v, e) = parse_digits(f@, j as int + 1, acc2);
                lemma_pow10_pos((e - j - 1) as nat);
                assert(acc2 * pow10((e - j - 1) as nat) >= acc2) by (nonlinear_arith)
                    requires
                        acc2 >= 0,
                        pow10((e - j - 1) as nat) >= 1;
                assert(parse_digits(f@, 0, 0).0 > u64::MAX);
            }
            return None;
        }
        proof {
            assert(10 * (m / 10) <= m);
            assert(acc as int * 10 + d as int <= u64::MAX);
        }
        acc = acc * 10 + d;
        j = j + 1;
    }
    proof {
        assert(parse_digits(f@, j as int, acc as int) == (acc as int, j as int));
    }
    Some(acc)
}

/// The sectors read and written named by one line: `None` for lines with
/// fewer than fourteen fields, partition devices (name ending in a digit),
/// or non-numeric counters.
pub open spec fn spec_parse_diskstats_line(line: Seq<char>) -> Option<(int, int)> {
    let parts = split_ws_from(line, 0);
    if parts.len() >= 14 {
        let dev = parts[2];
        if dev.len() >= 1 && !is_dec_digit(dev[dev.len() - 1]) {
            match (spec_parse_u64(parts[5]), spec_parse_u64(parts[9])) {
                (Some(rd), Some(wr)) => Some((rd, wr)),
                _ => None,
            }
        } else {
            None
        }
    } else {
        None
    }
}

/// Splits a line into whitespace-separated fields.
fn exec_split_ws(l: &Vec<char>) -> (r: Vec<Vec<char>>)
    ensures
        r@.len() == split_ws_from(l@, 0).len(),
        forall|k: int| 0 <= k < r@.len() ==> r@[k]@ == split_ws_from(l@, 0)[k],
{
    let n = l.len();
    let mut r: Vec<Vec<char>> = Vec::new();
    let ghost full = split_ws_from(l@, 0);
    let ghost mut done: Seq<Seq<char>> = Seq::empty();
    let mut pos: usize = 0;
    loop
        invariant
            pos <= n,
            n == l@.len(),
            full == split_ws_from(l@, 0),
            full =~= done + split_ws_from(l@, pos as int),
            r@.len() == done.len(),
            forall|k: int| 0 <= k < done.len() ==> r@[k]@ == done[k],
        decreases n - pos,
    {
        if pos >= n {
            proof {
                assert(full =~= done);
            }
            return r;
        }
        if check_ws_char(l[pos]) {
            pos = pos + 1;
        } else {
            let mut k = pos;
            while k < n && !check_ws_char(l[k])
                invariant
                    pos <= k <= n,
                    n == l@.len(),
                    field_end(l@, pos as int) == field_end(l@, k as int),
                decreases n - k,
            {
                k = k + 1;
            }
            let part = copy_range(l, pos, k);
            r.push(part);
            proof {
                done = done.push(l@.subrange(pos as int, k as int));
            }
            pos = k;
            if pos >= n {
                proof {
                    assert(split_ws_from(l@, pos as int) =~= Seq::<Seq<char>>::empty());
                    assert(full =~= done);
                }
                return r;
            }
        }
    }
}

/// Parses one `/proc/diskstats` line into (sectors read, sectors written).
pub fn parse_diskstats_line(line: &str) -> (r: Option<(u64, u64)>)
    ensures
        match r {
            Some(p) => spec_parse_diskstats_line(line@) == Some((p.0 as int, p.1 as int)),
            None => spec_parse_diskstats_line(line@) is None,
        },
{
    let cs = str_to_chars(line);
    parse_diskstats_line_chars(&cs)
}

fn parse_diskstats_line_chars(cs: &Vec<char>) -> (r: Option<(u64, u64)>)
    ensures
        match r {
            Some(p) => spec_parse_diskstats_line(cs@) == Some((p.0 as int, p.1 as int)),
            None => spec_parse_diskstats_line(cs@) is None,
        },
{
    let parts = exec_split_ws(cs);
    if parts.len() < 14 {
        return None;
    }
    let dev = &parts[2];
    if dev.len() == 0 {
        return None;
    }
    if check_dec_digit(dev[dev.len() - 1]) {
        return None;
    }
    let rd = parse_u64_field(&parts[5]);
    let wr = parse_u64_field(&parts[9]);
    match (rd, wr) {
        (Some(a), Some(b)) => Some((a, b)),
        _ => None,
    }
}

/// Addition capped at the largest `u64`.
pub open spec fn sat_add(a: int, b: int) -> int {
    if a + b > u64::MAX {
        u64::MAX as int
    } else {
        a + b
    }
}

/// The sector totals contributed by the lines of `s` from `i` on.
pub open spec fn spec_io_totals(s: Seq<char>, i: int) -> (int, int)
    decreases s.len() - i,
{
    if i < 0 || i >= s.len() {
        (0, 0)
    } else {
        let k = scan_to(s, i, '\n');
        let line = if i <= k && k < s.len() {
            strip_cr(s.subrange(i, k))
        } else {
            s.subrange(i, s.len() as int)
        };
        let here = match spec_parse_diskstats_line(line) {
            Some(p) => p,
            None => (0, 0),
        };
        let rest = if i <= k && k < s.len() {
            spec_io_totals(s, k + 1)
        } else {
            (0, 0)
        };
        (sat_add(here.0, rest.0), sat_add(here.1, rest.1))
    }
}

fn exec_sat_add(a: u64, b: u64) -> (r: u64)
    ensures
        r as int == sat_add(a as int, b as int),
{
    if a > u64::MAX - b {
        u64::MAX
    } else {
        a + b
    }
}

/// Sums the sectors read and written over all whole-device lines of
/// captured `/proc/diskstats` text, capped at the largest `u64`.
pub fn total_io_sectors(content: &str) -> (r: (u64, u64))
    ensures
        (r.0 as int, r.1 as int) == spec_io_totals(content@, 0),
{
    let cs = str_to_chars(content);
    total_from(&cs, 0)
}

fn total_from(cs: &Vec<char>, pos: usize) -> (r: (u64, u64))
    requires
        pos <= cs@.len(),
    ensures
        (r.0 as int, r.1 as int) == spec_io_totals(cs@, pos as int),
    decreases cs@.len() - pos,
{
    let n = cs.len();
    if pos >= n {
        return (0, 0);
    }
    let k = exec_scan_to(cs, pos, '\n');
    let last_line = k >= n;
    let hi = if k < n {
        k
    } else {
        n
    };
    let mut line = copy_range(cs, pos, hi);
    if !last_line && line.len() > 0 && line[line.len() - 1] == '\r' {
        line.pop();
        proof {
            assert(line@ =~= strip_cr(cs@.subrange(pos as int, hi as int)));
        }
    }
    proof {
        if !last_line {
            assert(line@ == strip_cr(cs@.subrange(pos as int, hi as int)));
        }
    }
    let here = match parse_diskstats_line_chars(&line) {
        Some(p) => p,
        None => (0, 0),
    };
    let rest = if last_line {
        (0, 0)
    } else {
        total_from(cs, k + 1)
    };
    (exec_sat_add(here.0, rest.0), exec_sat_add(here.1, rest.1))
}

} // verus!
