//! The marker-line state probe carried inside interpreter output.
//!
//! The shell is asked to print a line `__SYSTEM_INFO__:pwd:user:host:shell`.
//! The stdout pump scans every decoded chunk for the first line holding the
//! marker tag; when that line splits on `:` into at least five fields, a
//! `system` envelope carries the four trimmed fields in place of the raw
//! line, and whatever else the chunk holds is still forwarded as an
//! `output` envelope.  A marker line with fewer fields, or a chunk without
//! a marker, is forwarded verbatim as one `output` envelope.

use vstd::prelude::*;
use vstd::string::StringExecFns;

use crate::chars::{
    chars_to_string, contains_chars, contains_seq, copy_range, matches_at, spec_trim, str_to_chars,
    trim_chars,
};
use crate::codec::{SystemInfo, SystemInfoView, TerminalMessage, TerminalMessageView};

verus! {

/// The tag that begins a marker line.
pub open spec fn marker() -> Seq<char> {
    "__SYSTEM_INFO__:"@
}

/// The position of the first `c` at or after `i`, or the length when none.
pub open spec fn scan_to(s: Seq<char>, i: int, c: char) -> int
    decreases s.len() - i,
{
    if 0 <= i && i < s.len() {
        if s[i] == c {
            i
        } else {
            scan_to(s, i + 1, c)
        }
    } else {
        s.len() as int
    }
}

pub proof fn lemma_scan_to_bounds(s: Seq<char>, i: int, c: char)
    requires
        0 <= i <= s.len(),
    ensures
        i <= scan_to(s, i, c) <= s.len(),
        scan_to(s, i, c) < s.len() ==> s[scan_to(s, i, c)] == c,
        forall|m: int| i <= m < scan_to(s, i, c) ==> s[m] != c,
    decreases s.len() - i,
{
    if i < s.len() && s[i] != c {
        lemma_scan_to_bounds(s, i + 1, c);
    }
}

/// `scan_to` is pinned down by its characterization: no hit before `k`,
/// and a hit (or the end) at `k`.
pub proof fn lemma_scan_to_char(s: Seq<char>, i: int, k: int, c: char)
    requires
        0 <= i <= k <= s.len(),
        forall|m: int| i <= m < k ==> s[m] != c,
        k < s.len() ==> s[k] == c,
    ensures
        scan_to(s, i, c) == k,
    decreases s.len() - i,
{
    if i < k {
        lemma_scan_to_char(s, i + 1, k, c);
    }
}

/// A line with one trailing carriage return removed.
pub open spec fn strip_cr(l: Seq<char>) -> Seq<char> {
    if l.len() > 0 && l[l.len() - 1] == '\r' {
        l.drop_last()
    } else {
        l
    }
}

/// The first line at or after `i` (as `str::lines` would cut them: ending
/// at a newline with any final carriage return removed, or running to the
/// end of the text) that holds the marker tag, together with the span
/// `[start, end)` that the whole line occupies in `s`, line terminator
/// included.
pub open spec fn find_marker_line_at(s: Seq<char>, i: int) -> Option<(Seq<char>, int, int)>
    decreases s.len() - i,
{
    if i < 0 || i >= s.len() {
        None
    } else {
        let k = scan_to(s, i, '\n');
        if i <= k && k < s.len() {
            let line = strip_cr(s.subrange(i, k));
            if contains_seq(line, marker()) {
                Some((line, i, k + 1))
            } else {
                find_marker_line_at(s, k + 1)
            }
        } else {
            let line = s.subrange(i, s.len() as int);
            if contains_seq(line, marker()) {
                Some((line, i, s.len() as int))
            } else {
                None
            }
        }
    }
}

/// The fields of `s` split on `:` from position `i` on, empty fields kept.
pub open spec fn split_colon_from(s: Seq<char>, i: int) -> Seq<Seq<char>>
    decreases s.len() - i,
{
    if i < 0 || i > s.len() {
        Seq::empty()
    } else {
        let k = scan_to(s, i, ':');
        if i <= k && k < s.len() {
            seq![s.subrange(i, k)] + split_colon_from(s, k + 1)
        } else {
            seq![s.subrange(i, s.len() as int)]
        }
    }
}

/// The state fields of a marker line with at least four fields after the
/// tag, trimmed.
pub open spec fn spec_line_info(line: Seq<char>) -> Option<SystemInfoView> {
    let parts = split_colon_from(line, 0);
    if parts.len() >= 5 {
        Some(
            SystemInfoView {
                pwd: spec_trim(parts[1]),
                user: spec_trim(parts[2]),
                hostname: spec_trim(parts[3]),
                shell: spec_trim(parts[4]),
            },
        )
    } else {
        None
    }
}

/// The structured state carried by `chunk`, when its first marker line has
/// at least four fields after the tag.
pub open spec fn spec_scan_chunk(chunk: Seq<char>) -> Option<SystemInfoView> {
    match find_marker_line_at(chunk, 0) {
        Some(f) => spec_line_info(f.0),
        None => None,
    }
}

/// The `output` envelope wrapping raw interpreter text.
pub open spec fn spec_output_message(data: Seq<char>, now: i64) -> TerminalMessageView {
    TerminalMessageView { msg_type: "output"@, data: data, timestamp: now, system_info: None }
}

/// The `system` envelope carrying a parsed state update.
pub open spec fn spec_system_message(si: SystemInfoView, now: i64) -> TerminalMessageView {
    TerminalMessageView {
        msg_type: "system"@,
        data: "System info updated"@,
        timestamp: now,
        system_info: Some(si),
    }
}

/// What the stdout pump emits for one decoded chunk, in order.  When the
/// chunk's first marker line parses, a `system` envelope stands in for
/// that line and the rest of the chunk — everything around the marker
/// line — still goes out as one `output` envelope (none when the marker
/// line was the whole chunk).  Otherwise the chunk goes out verbatim as
/// one `output` envelope.
pub open spec fn spec_stdout_messages(chunk: Seq<char>, now: i64) -> Seq<TerminalMessageView> {
    match find_marker_line_at(chunk, 0) {
        Some(f) => match spec_line_info(f.0) {
            Some(si) => {
                let rest = chunk.subrange(0, f.1) + chunk.subrange(f.2, chunk.len() as int);
                if rest.len() == 0 {
                    seq![spec_system_message(si, now)]
                } else {
                    seq![spec_system_message(si, now), spec_output_message(rest, now)]
                }
            },
            None => seq![spec_output_message(chunk, now)],
        },
        None => seq![spec_output_message(chunk, now)],
    }
}

pub fn exec_scan_to(s: &Vec<char>, i: usize, c: char) -> (r: usize)
    requires
        i <= s@.len(),
    ensures
        i <= r <= s@.len(),
        r as int == scan_to(s@, i as int, c),
{
    let n = s.len();
    let mut j = i;
    while j < n && s[j] != c
        invariant
            i <= j <= n,
            n == s@.len(),
            scan_to(s@, i as int, c) == scan_to(s@, j as int, c),
        decreases n - j,
    {
        j = j + 1;
    }
    j
}

/// Finds the first line of `s` holding the marker tag, and its span.
fn exec_find_marker_line(s: &Vec<char>) -> (r: Option<(Vec<char>, usize, usize)>)
    ensures
        match r {
            Some(f) => find_marker_line_at(s@, 0) == Some((f.0@, f.1 as int, f.2 as int)) && f.1
                <= f.2 <= s@.len(),
            None => find_marker_line_at(s@, 0) is None,
        },
{
    let needle = str_to_chars("__SYSTEM_INFO__:");
    let n = s.len();
    let mut pos: usize = 0;
    loop
        invariant
            pos <= n,
            n == s@.len(),
            needle@ == marker(),
            find_marker_line_at(s@, 0) == find_marker_line_at(s@, pos as int),
        decreases n - pos,
    {
        if pos >= n {
            return None;
        }
        let k = exec_scan_to(s, pos, '\n');
        if k < n {
            let mut line = copy_range(s, pos, k);
            if line.len() > 0 && line[line.len() - 1] == '\r' {
                line.pop();
                proof {
                    assert(line@ =~= strip_cr(s@.subrange(pos as int, k as int)));
                }
            }
            proof {
                assert(line@ == strip_cr(s@.subrange(pos as int, k as int)));
            }
            if contains_chars(&line, &needle) {
                return Some((line, pos, k + 1));
            }
            pos = k + 1;
        } else {
            let line = copy_range(s, pos, n);
            if contains_chars(&line, &needle) {
                return Some((line, pos, n));
            }
            return None;
        }
    }
}

/// Splits a line on `:`, empty fields kept.
fn exec_split_colon(l: &Vec<char>) -> (r: Vec<Vec<char>>)
    ensures
        r@.len() == split_colon_from(l@, 0).len(),
        forall|k: int| 0 <= k < r@.len() ==> r@[k]@ == split_colon_from(l@, 0)[k],
{
    let n = l.len();
    let mut r: Vec<Vec<char>> = Vec::new();
    let ghost full = split_colon_from(l@, 0);
    let mut pos: usize = 0;
    loop
        invariant
            pos <= n,
            n == l@.len(),
            full == split_colon_from(l@, 0),
            full =~= r@.map_values(|v: Vec<char>| v@) + split_colon_from(l@, pos as int),
            forall|k: int| 0 <= k < r@.len() ==> full[k] == r@[k]@,
        decreases n - pos,
    {
        let k = exec_scan_to(l, pos, ':');
        let part = copy_range(l, pos, k);
        if k < n {
            r.push(part);
            proof {
                assert(r@.map_values(|v: Vec<char>| v@) =~= r@.map_values(
                    |v: Vec<char>| v@,
                ).drop_last().push(l@.subrange(pos as int, k as int)));
                assert(full =~= r@.map_values(|v: Vec<char>| v@) + split_colon_from(
                    l@,
                    k + 1,
                ));
            }
            pos = k + 1;
        } else {
            r.push(part);
            proof {
                assert(split_colon_from(l@, pos as int) =~= seq![l@.subrange(pos as int, n as int)]);
                assert(full =~= r@.map_values(|v: Vec<char>| v@));
            }
            return r;
        }
    }
}

/// Parses a found marker line's state fields.
fn exec_line_info(line: &Vec<char>) -> (r: Option<SystemInfo>)
    ensures
        match r {
            Some(si) => spec_line_info(line@) == Some(si@),
            None => spec_line_info(line@) is None,
        },
{
    let parts = exec_split_colon(line);
    if parts.len() >= 5 {
        let si = SystemInfo {
            pwd: chars_to_string(trim_chars(&parts[1])),
            user: chars_to_string(trim_chars(&parts[2])),
            hostname: chars_to_string(trim_chars(&parts[3])),
            shell: chars_to_string(trim_chars(&parts[4])),
        };
        Some(si)
    } else {
        None
    }
}

/// Scans one decoded stdout chunk for structured state.
pub fn scan_chunk(chunk: &str) -> (r: Option<SystemInfo>)
    ensures
        match r {
            Some(si) => spec_scan_chunk(chunk@) == Some(si@),
            None => spec_scan_chunk(chunk@) is None,
        },
{
    let cs = str_to_chars(chunk);
    match exec_find_marker_line(&cs) {
        None => None,
        Some(f) => exec_line_info(&f.0),
    }
}

/// Builds the `output` envelope wrapping raw interpreter text, as the
/// stderr pump and the outbound pump do.
pub fn output_message(data: String, now: i64) -> (m: TerminalMessage)
    ensures
        m@ == spec_output_message(data@, now),
{
    TerminalMessage {
        msg_type: String::from_str("output"),
        data,
        timestamp: now,
        system_info: None,
    }
}

/// Appends `s[lo..hi]` to `v`.
fn append_range(v: &mut Vec<char>, s: &Vec<char>, lo: usize, hi: usize)
    requires
        lo <= hi <= s@.len(),
    ensures
        final(v)@ == old(v)@ + s@.subrange(lo as int, hi as int),
{
    let mut i = lo;
    while i < hi
        invariant
            lo <= i <= hi <= s@.len(),
            v@ == old(v)@ + s@.subrange(lo as int, i as int),
        decreases hi - i,
    {
        v.push(s[i]);
        i = i + 1;
        proof {
            assert(v@ =~= old(v)@ + s@.subrange(lo as int, i as int));
        }
    }
    proof {
        assert(v@ =~= old(v)@ + s@.subrange(lo as int, hi as int));
    }
}

/// What the stdout pump emits for one decoded chunk, in order.
pub fn process_stdout_chunk(chunk: &str, now: i64) -> (r: Vec<TerminalMessage>)
    ensures
        r@.len() == spec_stdout_messages(chunk@, now).len(),
        forall|k: int| 0 <= k < r@.len() ==> r@[k]@ == spec_stdout_messages(chunk@, now)[k],
{
    let cs = str_to_chars(chunk);
    let n = cs.len();
    let mut out: Vec<TerminalMessage> = Vec::new();
    match exec_find_marker_line(&cs) {
        Some(f) => {
            match exec_line_info(&f.0) {
                Some(si) => {
                    out.push(
                        TerminalMessage {
                            msg_type: String::from_str("system"),
                            data: String::from_str("System info updated"),
                            timestamp: now,
                            system_info: Some(si),
                        },
                    );
                    let mut rest: Vec<char> = Vec::new();
                    append_range(&mut rest, &cs, 0, f.1);
                    append_range(&mut rest, &cs, f.2, n);
                    proof {
                        assert(rest@ == cs@.subrange(0, f.1 as int) + cs@.subrange(
                            f.2 as int,
                            n as int,
                        ));
                    }
                    if rest.len() > 0 {
                        out.push(output_message(chars_to_string(rest), now));
                    }
                },
                None => {
                    out.push(output_message(String::from_str(chunk), now));
                },
            }
        },
        None => {
            out.push(output_message(String::from_str(chunk), now));
        },
    }
    out
}

/// A marker-line field free of the separator and of line-break characters.
pub open spec fn plain_field(f: Seq<char>) -> bool {
    forall|m: int| 0 <= m < f.len() ==> f[m] != ':' && f[m] != '\n' && f[m] != '\r'
}

proof fn lemma_marker_chars()
    ensures
        marker().len() == 16,
        marker()[15] == ':',
        forall|m: int| 0 <= m < 15 ==> marker()[m] != ':',
        forall|m: int| 0 <= m < 16 ==> marker()[m] != '\n' && marker()[m] != '\r',
{
    reveal_strlit("__SYSTEM_INFO__:");
}

/// The shape of a well-formed marker line: it splits on `:` into exactly
/// the tag and the four fields, and holds no line-break character.
proof fn lemma_marker_line_parts(path: Seq<char>, user: Seq<char>, host: Seq<char>, shell: Seq<char>)
    requires
        plain_field(path),
        plain_field(user),
        plain_field(host),
        plain_field(shell),
    ensures
        ({
            let line = marker() + path + seq![':'] + user + seq![':'] + host + seq![':'] + shell;
            &&& split_colon_from(line, 0).len() == 5
            &&& split_colon_from(line, 0)[1] == path
            &&& split_colon_from(line, 0)[2] == user
            &&& split_colon_from(line, 0)[3] == host
            &&& split_colon_from(line, 0)[4] == shell
            &&& contains_seq(line, marker())
            &&& (forall|m: int|
                0 <= m < line.len() ==> #[trigger] line[m] != '\n' && line[m] != '\r')
            &&& spec_line_info(line) == Some(
                SystemInfoView {
                    pwd: spec_trim(path),
                    user: spec_trim(user),
                    hostname: spec_trim(host),
                    shell: spec_trim(shell),
                },
            )
        }),
{
    lemma_marker_chars();
    let line = marker() + path + seq![':'] + user + seq![':'] + host + seq![':'] + shell;
    let n = line.len() as int;
    let p = path.len() as int;
    let u = user.len() as int;
    let h = host.len() as int;
    assert(n == 19 + p + u + h + shell.len());
    assert(forall|m: int| 0 <= m < 16 ==> line[m] == marker()[m]);
    assert(forall|m: int| 16 <= m < 16 + p ==> line[m] == path[m - 16]);
    assert(line[16 + p] == ':');
    assert(forall|m: int| 17 + p <= m < 17 + p + u ==> line[m] == user[m - 17 - p]);
    assert(line[17 + p + u] == ':');
    assert(forall|m: int| 18 + p + u <= m < 18 + p + u + h ==> line[m] == host[m - 18 - p - u]);
    assert(line[18 + p + u + h] == ':');
    assert(forall|m: int| 19 + p + u + h <= m < n ==> line[m] == shell[m - 19 - p - u - h]);
    assert(forall|m: int| 0 <= m < n ==> #[trigger] line[m] != '\n' && line[m] != '\r');
    assert(line.subrange(0, 16) =~= marker());
    assert(matches_at(line, marker(), 0));
    lemma_scan_to_char(line, 0, 15, ':');
    assert(split_colon_from(line, 0) == seq![line.subrange(0, 15)] + split_colon_from(line, 16));
    lemma_scan_to_char(line, 16, 16 + p, ':');
    assert(split_colon_from(line, 16) == seq![line.subrange(16, 16 + p)] + split_colon_from(
        line,
        17 + p,
    ));
    lemma_scan_to_char(line, 17 + p, 17 + p + u, ':');
    assert(split_colon_from(line, 17 + p) == seq![line.subrange(17 + p, 17 + p + u)]
        + split_colon_from(line, 18 + p + u));
    lemma_scan_to_char(line, 18 + p + u, 18 + p + u + h, ':');
    assert(split_colon_from(line, 18 + p + u) == seq![line.subrange(18 + p + u, 18 + p + u + h)]
        + split_colon_from(line, 19 + p + u + h));
    lemma_scan_to_char(line, 19 + p + u + h, n, ':');
    assert(split_colon_from(line, 19 + p + u + h) == seq![line.subrange(19 + p + u + h, n)]);
    assert(line.subrange(16, 16 + p) =~= path);
    assert(line.subrange(17 + p, 17 + p + u) =~= user);
    assert(line.subrange(18 + p + u, 18 + p + u + h) =~= host);
    assert(line.subrange(19 + p + u + h, n) =~= shell);
    assert(split_colon_from(line, 0).len() == 5);
    assert(split_colon_from(line, 0)[1] == path);
    assert(split_colon_from(line, 0)[2] == user);
    assert(split_colon_from(line, 0)[3] == host);
    assert(split_colon_from(line, 0)[4] == shell);
}

/// A well-formed marker line is never forwarded as raw output: a chunk
/// that is exactly `__SYSTEM_INFO__:path:user:host:shell`, with fields
/// free of separators and line breaks, yields exactly one envelope — the
/// `system` update carrying the four trimmed fields.
#[verifier::rlimit(100)]
#[verifier::spinoff_prover]
pub proof fn lemma_marker_line_becomes_system(
    path: Seq<char>,
    user: Seq<char>,
    host: Seq<char>,
    shell: Seq<char>,
    now: i64,
)
    requires
        plain_field(path),
        plain_field(user),
        plain_field(host),
        plain_field(shell),
    ensures
        ({
            let chunk = marker() + path + seq![':'] + user + seq![':'] + host + seq![':'] + shell;
            &&& spec_stdout_messages(chunk, now) == seq![
                spec_system_message(
                    SystemInfoView {
                        pwd: spec_trim(path),
                        user: spec_trim(user),
                        hostname: spec_trim(host),
                        shell: spec_trim(shell),
                    },
                    now,
                ),
            ]
            &&& forall|k: int|
                0 <= k < spec_stdout_messages(chunk, now).len()
                    ==> #[trigger] spec_stdout_messages(chunk, now)[k].msg_type != "output"@
        }),
{
    reveal_strlit("system");
    reveal_strlit("output");
    lemma_marker_line_parts(path, user, host, shell);
    let chunk = marker() + path + seq![':'] + user + seq![':'] + host + seq![':'] + shell;
    let n = chunk.len() as int;
    lemma_scan_to_char(chunk, 0, n, '\n');
    assert(chunk.subrange(0, n) =~= chunk);
    assert(find_marker_line_at(chunk, 0) == Some((chunk, 0int, n)));
    assert(chunk.subrange(0, 0) + chunk.subrange(n, n) =~= Seq::<char>::empty());
    assert("system"@[0] == 's');
    assert("output"@[0] == 'o');
    assert("system"@ != "output"@);
}

/// Only the marker line is suppressed: in a chunk made of a well-formed
/// marker line, its newline, and any further text, the `system` envelope
/// stands in for the marker line and all the remaining text still goes to
/// the client as an `output` envelope.
#[verifier::rlimit(100)]
#[verifier::spinoff_prover]
pub proof fn lemma_marker_chunk_keeps_other_text(
    path: Seq<char>,
    user: Seq<char>,
    host: Seq<char>,
    shell: Seq<char>,
    suffix: Seq<char>,
    now: i64,
)
    requires
        plain_field(path),
        plain_field(user),
        plain_field(host),
        plain_field(shell),
        suffix.len() > 0,
    ensures
        ({
            let line = marker() + path + seq![':'] + user + seq![':'] + host + seq![':'] + shell;
            let chunk = line + seq!['\n'] + suffix;
            spec_stdout_messages(chunk, now) == seq![
                spec_system_message(
                    SystemInfoView {
                        pwd: spec_trim(path),
                        user: spec_trim(user),
                        hostname: spec_trim(host),
                        shell: spec_trim(shell),
                    },
                    now,
                ),
                spec_output_message(suffix, now),
            ]
        }),
{
    lemma_marker_line_parts(path, user, host, shell);
    let line = marker() + path + seq![':'] + user + seq![':'] + host + seq![':'] + shell;
    let chunk = line + seq!['\n'] + suffix;
    let l = line.len() as int;
    let n = chunk.len() as int;
    assert(forall|m: int| 0 <= m < l ==> chunk[m] == line[m]);
    assert(chunk[l] == '\n');
    lemma_scan_to_char(chunk, 0, l, '\n');
    assert(chunk.subrange(0, l) =~= line);
    assert(strip_cr(chunk.subrange(0, l)) == line);
    assert(find_marker_line_at(chunk, 0) == Some((line, 0int, l + 1)));
    assert(chunk.subrange(0, 0) + chunk.subrange(l + 1, n) =~= suffix);
}

/// Text before the marker line is preserved as well: in a chunk made of a
/// marker-free first line and then a well-formed marker line, the `system`
/// envelope stands in for the marker line and the first line (with its
/// newline) still goes to the client as an `output` envelope.
#[verifier::rlimit(100)]
#[verifier::spinoff_prover]
pub proof fn lemma_marker_chunk_keeps_preceding_text(
    prefix: Seq<char>,
    path: Seq<char>,
    user: Seq<char>,
    host: Seq<char>,
    shell: Seq<char>,
    now: i64,
)
    requires
        plain_field(path),
        plain_field(user),
        plain_field(host),
        plain_field(shell),
        prefix.len() > 0,
        forall|m: int| 0 <= m < prefix.len() ==> prefix[m] != '\n' && prefix[m] != '\r',
        !contains_seq(prefix, marker()),
    ensures
        ({
            let line = marker() + path + seq![':'] + user + seq![':'] + host + seq![':'] + shell;
            let chunk = prefix + seq!['\n'] + line;
            spec_stdout_messages(chunk, now) == seq![
                spec_system_message(
                    SystemInfoView {
                        pwd: spec_trim(path),
                        user: spec_trim(user),
                        hostname: spec_trim(host),
                        shell: spec_trim(shell),
                    },
                    now,
                ),
                spec_output_message(prefix + seq!['\n'], now),
            ]
        }),
{
    lemma_marker_line_parts(path, user, host, shell);
    let line = marker() + path + seq![':'] + user + seq![':'] + host + seq![':'] + shell;
    let chunk = prefix + seq!['\n'] + line;
    let p = prefix.len() as int;
    let n = chunk.len() as int;
    assert(forall|m: int| 0 <= m < p ==> chunk[m] == prefix[m]);
    assert(chunk[p] == '\n');
    assert(forall|m: int| p + 1 <= m < n ==> chunk[m] == line[m - p - 1]);
    lemma_scan_to_char(chunk, 0, p, '\n');
    assert(chunk.subrange(0, p) =~= prefix);
    assert(strip_cr(chunk.subrange(0, p)) == prefix);
    lemma_scan_to_char(chunk, p + 1, n, '\n');
    assert(chunk.subrange(p + 1, n) =~= line);
    assert(find_marker_line_at(chunk, p + 1) == Some((line, p + 1, n)));
    assert(find_marker_line_at(chunk, 0) == Some((line, p + 1, n)));
    assert(chunk.subrange(0, p + 1) + chunk.subrange(n, n) =~= prefix + seq!['\n']);
}

/// A marker-shaped line with fewer than four trailing fields is forwarded
/// verbatim as an `output` envelope — never dropped: a chunk that is
/// exactly `__SYSTEM_INFO__:f1:f2` splits into only three fields and goes
/// out as one plain `output` envelope carrying the whole chunk.
pub proof fn lemma_short_marker_line_stays_output(f1: Seq<char>, f2: Seq<char>, now: i64)
    requires
        plain_field(f1),
        plain_field(f2),
    ensures
        ({
            let chunk = marker() + f1 + seq![':'] + f2;
            spec_stdout_messages(chunk, now) == seq![spec_output_message(chunk, now)]
        }),
{
    lemma_marker_chars();
    let chunk = marker() + f1 + seq![':'] + f2;
    let n = chunk.len() as int;
    let p = f1.len() as int;
    assert(n == 17 + p + f2.len());
    assert(forall|m: int| 0 <= m < 16 ==> chunk[m] == marker()[m]);
    assert(forall|m: int| 16 <= m < 16 + p ==> chunk[m] == f1[m - 16]);
    assert(chunk[16 + p] == ':');
    assert(forall|m: int| 17 + p <= m < n ==> chunk[m] == f2[m - 17 - p]);
    assert(forall|m: int| 0 <= m < n ==> chunk[m] != '\n');
    lemma_scan_to_char(chunk, 0, n, '\n');
    assert(chunk.subrange(0, n) =~= chunk);
    assert(chunk.subrange(0, 16) =~= marker());
    assert(matches_at(chunk, marker(), 0));
    assert(find_marker_line_at(chunk, 0) == Some((chunk, 0int, n)));
    lemma_scan_to_char(chunk, 0, 15, ':');
    assert(split_colon_from(chunk, 0) == seq![chunk.subrange(0, 15)] + split_colon_from(chunk, 16));
    lemma_scan_to_char(chunk, 16, 16 + p, ':');
    assert(split_colon_from(chunk, 16) == seq![chunk.subrange(16, 16 + p)] + split_colon_from(
        chunk,
        17 + p,
    ));
    lemma_scan_to_char(chunk, 17 + p, n, ':');
    assert(split_colon_from(chunk, 17 + p) == seq![chunk.subrange(17 + p, n)]);
    let parts = split_colon_from(chunk, 0);
    assert(parts.len() == 3);
    assert(spec_line_info(chunk) is None);
}

} // verus!
