//! The message envelope exchanged with the client, and its codec.
//!
//! An envelope is a flat JSON object
//! `{"type":…,"data":…,"timestamp":…,"system_info":…}` where the first two
//! members are strings, `timestamp` is an integer of seconds, and
//! `system_info` is either `null` or an object with the four string members
//! `pwd`, `user`, `hostname` and `shell`.
//!
//! `encode_envelope` renders exactly this shape (members in the order
//! above).  `decode_envelope` accepts the members in any order, with JSON
//! whitespace between tokens, each known member at most once and no
//! unknown members; strings use the standard short escapes and `\uXXXX`
//! for any code point, astral ones as surrogate pairs (lone surrogates
//! are rejected); integers have at most eighteen digits.  `type` and `data`
//! are required; a missing `timestamp` reads as zero (the server never
//! acts on inbound timestamps) and a missing `system_info` as absent.
//! Anything else is undecodable and the frame is dropped by the caller.

use vstd::prelude::*;

use crate::chars::{chars_to_string, push_str_chars, str_to_chars};
use crate::numfmt::{dec_digit, dec_of, dec_of_signed, push_dec_i64};

verus! {

/// Structured state parsed from a marker line: the interpreter's working
/// directory, user, host and shell path.
#[derive(Debug, Clone, PartialEq, Eq)]
pub struct SystemInfo {
    pub pwd: String,
    pub user: String,
    pub hostname: String,
    pub shell: String,
}

/// The mathematical value of a `SystemInfo`.
pub ghost struct SystemInfoView {
    pub pwd: Seq<char>,
    pub user: Seq<char>,
    pub hostname: Seq<char>,
    pub shell: Seq<char>,
}

impl View for SystemInfo {
    type V = SystemInfoView;

    open spec fn view(&self) -> SystemInfoView {
        SystemInfoView {
            pwd: self.pwd@,
            user: self.user@,
            hostname: self.hostname@,
            shell: self.shell@,
        }
    }
}

/// One message of the duplex channel.
#[derive(Debug, Clone, PartialEq, Eq)]
pub struct TerminalMessage {
    pub msg_type: String,
    pub data: String,
    pub timestamp: i64,
    pub system_info: Option<SystemInfo>,
}

/// The mathematical value of a `TerminalMessage`.
pub ghost struct TerminalMessageView {
    pub msg_type: Seq<char>,
    pub data: Seq<char>,
    pub timestamp: i64,
    pub system_info: Option<SystemInfoView>,
}

impl View for TerminalMessage {
    type V = TerminalMessageView;

    open spec fn view(&self) -> TerminalMessageView {
        TerminalMessageView {
            msg_type: self.msg_type@,
            data: self.data@,
            timestamp: self.timestamp,
            system_info: match self.system_info {
                Some(si) => Some(si@),
                None => None,
            },
        }
    }
}

/// The member keys of the envelope object.
pub open spec fn key_type() -> Seq<char> {
    "type"@
}

pub open spec fn key_data() -> Seq<char> {
    "data"@
}

pub open spec fn key_timestamp() -> Seq<char> {
    "timestamp"@
}

pub open spec fn key_system_info() -> Seq<char> {
    "system_info"@
}

pub open spec fn key_pwd() -> Seq<char> {
    "pwd"@
}

pub open spec fn key_user() -> Seq<char> {
    "user"@
}

pub open spec fn key_hostname() -> Seq<char> {
    "hostname"@
}

pub open spec fn key_shell() -> Seq<char> {
    "shell"@
}

/// The hexadecimal digit character for `d < 16`, lower case.
pub open spec fn hex_digit(d: int) -> char {
    if d == 0 {
        '0'
    } else if d == 1 {
        '1'
    } else if d == 2 {
        '2'
    } else if d == 3 {
        '3'
    } else if d == 4 {
        '4'
    } else if d == 5 {
        '5'
    } else if d == 6 {
        '6'
    } else if d == 7 {
        '7'
    } else if d == 8 {
        '8'
    } else if d == 9 {
        '9'
    } else if d == 10 {
        'a'
    } else if d == 11 {
        'b'
    } else if d == 12 {
        'c'
    } else if d == 13 {
        'd'
    } else if d == 14 {
        'e'
    } else {
        'f'
    }
}

/// How one character is written inside a JSON string: itself, a short
/// escape, or `\u00XX` for the remaining control characters.
pub open spec fn escape_char(c: char) -> Seq<char> {
    if c == '"' {
        seq!['\\', '"']
    } else if c == '\\' {
        seq!['\\', '\\']
    } else if c == '\n' {
        seq!['\\', 'n']
    } else if c == '\r' {
        seq!['\\', 'r']
    } else if c == '\t' {
        seq!['\\', 't']
    } else if (c as u32) < 32 {
        seq!['\\', 'u', '0', '0', hex_digit((c as u32) as int / 16), hex_digit((c as u32) as int % 16)]
    } else {
        seq![c]
    }
}

/// The escaped body of a JSON string holding `s`.
pub open spec fn escape_seq(s: Seq<char>) -> Seq<char>
    decreases s.len(),
{
    if s.len() == 0 {
        Seq::empty()
    } else {
        escape_seq(s.drop_last()) + escape_char(s.last())
    }
}

/// The JSON string literal holding `s`.
pub open spec fn quoted(s: Seq<char>) -> Seq<char> {
    seq!['"'] + escape_seq(s) + seq!['"']
}

/// One `"key":value` member.
pub open spec fn member(key: Seq<char>, val: Seq<char>) -> Seq<char> {
    seq!['"'] + key + seq!['"', ':'] + val
}

/// The rendering of the `system_info` member's value.
pub open spec fn spec_encode_system_info(si: SystemInfoView) -> Seq<char> {
    seq!['{'] + member(key_pwd(), quoted(si.pwd)) + seq![','] + member(key_user(), quoted(si.user))
        + seq![','] + member(key_hostname(), quoted(si.hostname)) + seq![','] + member(
        key_shell(),
        quoted(si.shell),
    ) + seq!['}']
}

/// The canonical rendering of an envelope.
pub open spec fn spec_encode(m: TerminalMessageView) -> Seq<char> {
    seq!['{'] + member(key_type(), quoted(m.msg_type)) + seq![','] + member(
        key_data(),
        quoted(m.data),
    ) + seq![','] + member(key_timestamp(), dec_of_signed(m.timestamp as int)) + seq![','] + member(
        key_system_info(),
        match m.system_info {
            Some(si) => spec_encode_system_info(si),
            None => "null"@,
        },
    ) + seq!['}']
}

/// The hexadecimal digit character for `d < 16`.
fn hex_digit_char(d: u32) -> (c: char)
    requires
        d < 16,
    ensures
        c == hex_digit(d as int),
{
    if d == 0 {
        '0'
    } else if d == 1 {
        '1'
    } else if d == 2 {
        '2'
    } else if d == 3 {
        '3'
    } else if d == 4 {
        '4'
    } else if d == 5 {
        '5'
    } else if d == 6 {
        '6'
    } else if d == 7 {
        '7'
    } else if d == 8 {
        '8'
    } else if d == 9 {
        '9'
    } else if d == 10 {
        'a'
    } else if d == 11 {
        'b'
    } else if d == 12 {
        'c'
    } else if d == 13 {
        'd'
    } else if d == 14 {
        'e'
    } else {
        'f'
    }
}

/// Appends the escaped form of one character.
fn push_escaped_char(v: &mut Vec<char>, c: char)
    ensures
        final(v)@ == old(v)@ + escape_char(c),
{
    if c == '"' {
        v.push('\\');
        v.push('"');
    } else if c == '\\' {
        v.push('\\');
        v.push('\\');
    } else if c == '\n' {
        v.push('\\');
        v.push('n');
    } else if c == '\r' {
        v.push('\\');
        v.push('r');
    } else if c == '\t' {
        v.push('\\');
        v.push('t');
    } else if (c as u32) < 32 {
        v.push('\\');
        v.push('u');
        v.push('0');
        v.push('0');
        v.push(hex_digit_char((c as u32) / 16));
        v.push(hex_digit_char((c as u32) % 16));
    } else {
        v.push(c);
    }
    proof {
        assert(v@ =~= old(v)@ + escape_char(c));
    }
}

/// Appends the JSON string literal holding `s`.
fn push_quoted(v: &mut Vec<char>, s: &str)
    ensures
        final(v)@ == old(v)@ + quoted(s@),
{
    let cs = str_to_chars(s);
    let n = cs.len();
    v.push('"');
    let mut i: usize = 0;
    while i < n
        invariant
            n == cs@.len(),
            cs@ == s@,
            i <= n,
            v@ == old(v)@ + seq!['"'] + escape_seq(s@.subrange(0, i as int)),
        decreases n - i,
    {
        push_escaped_char(v, cs[i]);
        i = i + 1;
        proof {
            let pre = s@.subrange(0, i as int);
            assert(pre.drop_last() =~= s@.subrange(0, i - 1));
            assert(pre.last() == s@[i - 1]);
            assert(v@ =~= old(v)@ + seq!['"'] + escape_seq(pre));
        }
    }
    v.push('"');
    proof {
        assert(s@.subrange(0, n as int) =~= s@);
        assert(v@ =~= old(v)@ + quoted(s@));
    }
}

/// Appends `"key":` for a key that needs no escaping.
fn push_raw_key(v: &mut Vec<char>, key: &str)
    ensures
        final(v)@ == old(v)@ + seq!['"'] + key@ + seq!['"', ':'],
{
    v.push('"');
    push_str_chars(v, key);
    v.push('"');
    v.push(':');
    proof {
        assert(v@ =~= old(v)@ + seq!['"'] + key@ + seq!['"', ':']);
    }
}

/// Renders the `system_info` object.
fn push_system_info(v: &mut Vec<char>, si: &SystemInfo)
    ensures
        final(v)@ == old(v)@ + spec_encode_system_info(si@),
{
    v.push('{');
    push_raw_key(v, "pwd");
    push_quoted(v, si.pwd.as_str());
    v.push(',');
    push_raw_key(v, "user");
    push_quoted(v, si.user.as_str());
    v.push(',');
    push_raw_key(v, "hostname");
    push_quoted(v, si.hostname.as_str());
    v.push(',');
    push_raw_key(v, "shell");
    push_quoted(v, si.shell.as_str());
    v.push('}');
    proof {
        assert(v@ =~= old(v)@ + spec_encode_system_info(si@));
    }
}

/// Renders an envelope in the canonical member order.
pub fn encode_envelope(m: &TerminalMessage) -> (r: String)
    ensures
        r@ == spec_encode(m@),
{
    let mut v: Vec<char> = Vec::new();
    v.push('{');
    push_raw_key(&mut v, "type");
    push_quoted(&mut v, m.msg_type.as_str());
    v.push(',');
    push_raw_key(&mut v, "data");
    push_quoted(&mut v, m.data.as_str());
    v.push(',');
    push_raw_key(&mut v, "timestamp");
    push_dec_i64(&mut v, m.timestamp);
    v.push(',');
    push_raw_key(&mut v, "system_info");
    match &m.system_info {
        Some(si) => {
            push_system_info(&mut v, si);
        },
        None => {
            push_str_chars(&mut v, "null");
        },
    }
    v.push('}');
    proof {
        assert(v@ =~= spec_encode(m@));
    }
    chars_to_string(v)
}

/// JSON whitespace accepted between tokens.
pub open spec fn is_json_ws(c: char) -> bool {
    c == ' ' || c == '\t' || c == '\n' || c == '\r'
}

/// The first position at or after `i` holding no whitespace.
pub open spec fn skip_ws(s: Seq<char>, i: int) -> int
    decreases s.len() - i,
{
    if 0 <= i && i < s.len() && is_json_ws(s[i]) {
        skip_ws(s, i + 1)
    } else {
        i
    }
}

/// The value of a hexadecimal digit character.
pub open spec fn hex_val(c: char) -> Option<int> {
    if ('0' as u32) <= (c as u32) && (c as u32) <= ('9' as u32) {
        Some((c as u32) - ('0' as u32))
    } else if ('a' as u32) <= (c as u32) && (c as u32) <= ('f' as u32) {
        Some(10 + (c as u32) - ('a' as u32))
    } else if ('A' as u32) <= (c as u32) && (c as u32) <= ('F' as u32) {
        Some(10 + (c as u32) - ('A' as u32))
    } else {
        None
    }
}

/// Puts one decoded character in front of a string-parse result.
pub open spec fn prepend(c: char, r: Option<(Seq<char>, int)>) -> Option<(Seq<char>, int)> {
    match r {
        Some(q) => Some((seq![c] + q.0, q.1)),
        None => None,
    }
}

/// Decodes one `\uXXXX` escape whose first hex digit stands at `i`: a
/// scalar value directly, or a surrogate pair (`\uXXXX\uXXXX`) for an
/// astral code point; lone surrogates are rejected.  Yields the character
/// and the position after the escape.
pub open spec fn parse_u_escape(s: Seq<char>, i: int) -> Option<(char, int)> {
    if 0 <= i && i + 4 <= s.len() {
        match (hex_val(s[i]), hex_val(s[i + 1]), hex_val(s[i + 2]), hex_val(s[i + 3])) {
            (Some(h3), Some(h2), Some(h1), Some(h0)) => {
                let u = h3 * 4096 + h2 * 256 + h1 * 16 + h0;
                if u < 0xD800 || u >= 0xE000 {
                    Some(((u as u32) as char, i + 4))
                } else if u < 0xDC00 {
                    if i + 10 <= s.len() && s[i + 4] == '\\' && s[i + 5] == 'u' {
                        match (hex_val(s[i + 6]), hex_val(s[i + 7]), hex_val(s[i + 8]), hex_val(
                            s[i + 9],
                        )) {
                            (Some(g3), Some(g2), Some(g1), Some(g0)) => {
                                let w = g3 * 4096 + g2 * 256 + g1 * 16 + g0;
                                if 0xDC00 <= w && w < 0xE000 {
                                    let cp = 0x10000 + (u - 0xD800) * 0x400 + (w - 0xDC00);
                                    Some(((cp as u32) as char, i + 10))
                                } else {
                                    None
                                }
                            },
                            _ => None,
                        }
                    } else {
                        None
                    }
                } else {
                    None
                }
            },
            _ => None,
        }
    } else {
        None
    }
}

/// Parses the body of a JSON string starting just after the opening quote;
/// yields the decoded text and the position just after the closing quote.
pub open spec fn parse_str_body(s: Seq<char>, i: int) -> Option<(Seq<char>, int)>
    decreases s.len() - i,
{
    if i < 0 || i >= s.len() {
        None
    } else if s[i] == '"' {
        Some((Seq::empty(), i + 1))
    } else if s[i] == '\\' {
        if i + 1 < s.len() {
            let e = s[i + 1];
            if e == '"' || e == '\\' || e == '/' {
                prepend(e, parse_str_body(s, i + 2))
            } else if e == 'n' {
                prepend('\n', parse_str_body(s, i + 2))
            } else if e == 'r' {
                prepend('\r', parse_str_body(s, i + 2))
            } else if e == 't' {
                prepend('\t', parse_str_body(s, i + 2))
            } else if e == 'b' {
                prepend('\u{8}', parse_str_body(s, i + 2))
            } else if e == 'f' {
                prepend('\u{c}', parse_str_body(s, i + 2))
            } else if e == 'u' {
                match parse_u_escape(s, i + 2) {
                    Some(p) => {
                        if i < p.1 && p.1 <= s.len() {
                            prepend(p.0, parse_str_body(s, p.1))
                        } else {
                            None
                        }
                    },
                    None => None,
                }
            } else {
                None
            }
        } else {
            None
        }
    } else if (s[i] as u32) < 32 {
        None
    } else {
        prepend(s[i], parse_str_body(s, i + 1))
    }
}

/// A decimal digit.
pub open spec fn is_dec_digit(c: char) -> bool {
    ('0' as u32) <= (c as u32) && (c as u32) <= ('9' as u32)
}

/// The value of a decimal digit character.
pub open spec fn dec_val(c: char) -> int {
    (c as u32) - ('0' as u32)
}

/// Consumes the digit run starting at `i`, folding it onto `acc`.
pub open spec fn parse_digits(s: Seq<char>, i: int, acc: int) -> (int, int)
    decreases s.len() - i,
{
    if 0 <= i && i < s.len() && is_dec_digit(s[i]) {
        parse_digits(s, i + 1, acc * 10 + dec_val(s[i]))
    } else {
        (acc, i)
    }
}

pub open spec fn pow10(k: nat) -> int
    decreases k,
{
    if k == 0 {
        1
    } else {
        10 * pow10((k - 1) as nat)
    }
}

pub proof fn lemma_pow10_pos(k: nat)
    ensures
        pow10(k) >= 1,
    decreases k,
{
    if k > 0 {
        lemma_pow10_pos((k - 1) as nat);
    }
}

pub proof fn lemma_pow10_mono(a: nat, b: nat)
    requires
        a <= b,
    ensures
        pow10(a) <= pow10(b),
    decreases b,
{
    if a < b {
        lemma_pow10_mono(a, (b - 1) as nat);
        lemma_pow10_pos((b - 1) as nat);
    }
}

pub proof fn lemma_pow10_18()
    ensures
        pow10(18) == 1000000000000000000,
{
    reveal_with_fuel(pow10, 20);
}

#[verifier::rlimit(40)]
pub proof fn lemma_parse_digits(s: Seq<char>, i: int, acc: int)
    requires
        0 <= i <= s.len(),
        acc >= 0,
    ensures
        ({
            let (v, j) = parse_digits(s, i, acc);
            i <= j <= s.len() && acc * pow10((j - i) as nat) <= v && v < (acc + 1) * pow10(
                (j - i) as nat,
            )
        }),
    decreases s.len() - i,
{
    if i < s.len() && is_dec_digit(s[i]) {
        let d = dec_val(s[i]);
        lemma_parse_digits(s, i + 1, acc * 10 + d);
        let (v, j) = parse_digits(s, i + 1, acc * 10 + d);
        assert(parse_digits(s, i, acc) == parse_digits(s, i + 1, acc * 10 + d));
        assert(i + 1 <= j <= s.len());
        assert((acc * 10 + d) * pow10((j - i - 1) as nat) <= v);
        assert(v < (acc * 10 + d + 1) * pow10((j - i - 1) as nat));
        lemma_pow10_pos((j - i - 1) as nat);
        assert(pow10((j - i) as nat) == 10 * pow10((j - i - 1) as nat));
        assert((acc * 10 + d + 1) * pow10((j - i - 1) as nat) <= (acc + 1) * pow10(
            (j - i) as nat,
        )) by (nonlinear_arith)
            requires
                0 <= d <= 9,
                acc >= 0,
                pow10((j - i - 1) as nat) >= 1,
                pow10((j - i) as nat) == 10 * pow10((j - i - 1) as nat);
        assert(acc * pow10((j - i) as nat) <= (acc * 10 + d) * pow10(
            (j - i - 1) as nat,
        )) by (nonlinear_arith)
            requires
                0 <= d,
                acc >= 0,
                pow10((j - i - 1) as nat) >= 1,
                pow10((j - i) as nat) == 10 * pow10((j - i - 1) as nat);
        assert(v < (acc + 1) * pow10((j - i) as nat));
        assert(({
            let (v2, j2) = parse_digits(s, i, acc);
            i <= j2 <= s.len() && acc * pow10((j2 - i) as nat) <= v2 && v2 < (acc + 1) * pow10(
                (j2 - i) as nat,
            )
        }));
    } else {
        assert(parse_digits(s, i, acc) == (acc, i));
        assert(pow10(0) == 1);
        assert((acc + 1) * pow10(0) == acc + 1) by (nonlinear_arith)
            requires
                pow10(0) == 1;
        assert(acc * pow10(0) == acc) by (nonlinear_arith)
            requires
                pow10(0) == 1;
        assert(({
            let (v2, j2) = parse_digits(s, i, acc);
            i <= j2 <= s.len() && acc * pow10((j2 - i) as nat) <= v2 && v2 < (acc + 1) * pow10(
                (j2 - i) as nat,
            )
        }));
    }
}

/// Parses an optionally signed integer of at most eighteen digits.
pub open spec fn parse_int(s: Seq<char>, i: int) -> Option<(int, int)> {
    let neg = 0 <= i && i < s.len() && s[i] == '-';
    let start = if neg {
        i + 1
    } else {
        i
    };
    if 0 <= start && start < s.len() && is_dec_digit(s[start]) {
        let (v, j) = parse_digits(s, start, 0);
        if j - start <= 18 {
            Some((
                if neg {
                    -v
                } else {
                    v
                },
                j,
            ))
        } else {
            None
        }
    } else {
        None
    }
}

/// The literal `null` stands at `i`.
pub open spec fn has_null_at(s: Seq<char>, i: int) -> bool {
    &&& 0 <= i
    &&& i + 4 <= s.len()
    &&& s[i] == 'n'
    &&& s[i + 1] == 'u'
    &&& s[i + 2] == 'l'
    &&& s[i + 3] == 'l'
}

/// A quoted JSON string starting at `i`.
pub open spec fn parse_quoted(s: Seq<char>, i: int) -> Option<(Seq<char>, int)> {
    if 0 <= i && i < s.len() && s[i] == '"' {
        parse_str_body(s, i + 1)
    } else {
        None
    }
}

/// The members of a `system_info` object seen so far.
pub ghost struct SiFields {
    pub pwd: Option<Seq<char>>,
    pub user: Option<Seq<char>>,
    pub hostname: Option<Seq<char>>,
    pub shell: Option<Seq<char>>,
}

pub open spec fn empty_si_fields() -> SiFields {
    SiFields { pwd: None, user: None, hostname: None, shell: None }
}

/// Records one `system_info` member; refuses duplicates and unknown keys.
pub open spec fn si_set_field(acc: SiFields, key: Seq<char>, t: Seq<char>) -> Option<SiFields> {
    if key == key_pwd() {
        if acc.pwd is Some {
            None
        } else {
            Some(SiFields { pwd: Some(t), user: acc.user, hostname: acc.hostname, shell: acc.shell })
        }
    } else if key == key_user() {
        if acc.user is Some {
            None
        } else {
            Some(SiFields { pwd: acc.pwd, user: Some(t), hostname: acc.hostname, shell: acc.shell })
        }
    } else if key == key_hostname() {
        if acc.hostname is Some {
            None
        } else {
            Some(SiFields { pwd: acc.pwd, user: acc.user, hostname: Some(t), shell: acc.shell })
        }
    } else if key == key_shell() {
        if acc.shell is Some {
            None
        } else {
            Some(SiFields { pwd: acc.pwd, user: acc.user, hostname: acc.hostname, shell: Some(t) })
        }
    } else {
        None
    }
}

/// Parses `system_info` members from just after the opening brace to just
/// after the closing brace.
pub open spec fn parse_si_members(s: Seq<char>, i: int, acc: SiFields) -> Option<(SiFields, int)>
    decreases s.len() - i,
{
    let i1 = skip_ws(s, i);
    if 0 <= i1 && i1 < s.len() && s[i1] == '"' {
        match parse_str_body(s, i1 + 1) {
            Some(kp) => {
                let j1 = skip_ws(s, kp.1);
                if 0 <= j1 && j1 < s.len() && s[j1] == ':' {
                    let j2 = skip_ws(s, j1 + 1);
                    match parse_quoted(s, j2) {
                        Some(tp) => match si_set_field(acc, kp.0, tp.0) {
                            Some(acc2) => {
                                let j3 = skip_ws(s, tp.1);
                                if 0 <= j3 && j3 < s.len() && s[j3] == ',' {
                                    if i < j3 + 1 && j3 + 1 <= s.len() {
                                        parse_si_members(s, j3 + 1, acc2)
                                    } else {
                                        None
                                    }
                                } else if 0 <= j3 && j3 < s.len() && s[j3] == '}' {
                                    Some((acc2, j3 + 1))
                                } else {
                                    None
                                }
                            },
                            None => None,
                        },
                        None => None,
                    }
                } else {
                    None
                }
            },
            None => None,
        }
    } else {
        None
    }
}

/// Parses the value of the `system_info` member: `null` or an object with
/// exactly the four fields.
pub open spec fn parse_si_value(s: Seq<char>, i: int) -> Option<(Option<SystemInfoView>, int)> {
    if has_null_at(s, i) {
        Some((None, i + 4))
    } else if 0 <= i && i < s.len() && s[i] == '{' {
        match parse_si_members(s, i + 1, empty_si_fields()) {
            Some(fp) => match (fp.0.pwd, fp.0.user, fp.0.hostname, fp.0.shell) {
                (Some(p), Some(u), Some(h), Some(sh)) => Some(
                    (Some(SystemInfoView { pwd: p, user: u, hostname: h, shell: sh }), fp.1),
                ),
                _ => None,
            },
            None => None,
        }
    } else {
        None
    }
}

/// The envelope members seen so far.
pub ghost struct EnvFields {
    pub ty: Option<Seq<char>>,
    pub data: Option<Seq<char>>,
    pub ts: Option<int>,
    pub si: Option<Option<SystemInfoView>>,
}

pub open spec fn empty_env_fields() -> EnvFields {
    EnvFields { ty: None, data: None, ts: None, si: None }
}

/// Parses the value of one envelope member, dispatching on the key;
/// refuses duplicates and unknown keys.
pub open spec fn parse_env_member_value(s: Seq<char>, i: int, key: Seq<char>, acc: EnvFields) -> Option<
    (EnvFields, int),
> {
    if key == key_type() {
        if acc.ty is Some {
            None
        } else {
            match parse_quoted(s, i) {
                Some(tp) => Some(
                    (EnvFields { ty: Some(tp.0), data: acc.data, ts: acc.ts, si: acc.si }, tp.1),
                ),
                None => None,
            }
        }
    } else if key == key_data() {
        if acc.data is Some {
            None
        } else {
            match parse_quoted(s, i) {
                Some(tp) => Some(
                    (EnvFields { ty: acc.ty, data: Some(tp.0), ts: acc.ts, si: acc.si }, tp.1),
                ),
                None => None,
            }
        }
    } else if key == key_timestamp() {
        if acc.ts is Some {
            None
        } else {
            match parse_int(s, i) {
                Some(vp) => Some(
                    (EnvFields { ty: acc.ty, data: acc.data, ts: Some(vp.0), si: acc.si }, vp.1),
                ),
                None => None,
            }
        }
    } else if key == key_system_info() {
        if acc.si is Some {
            None
        } else {
            match parse_si_value(s, i) {
                Some(sp) => Some(
                    (EnvFields { ty: acc.ty, data: acc.data, ts: acc.ts, si: Some(sp.0) }, sp.1),
                ),
                None => None,
            }
        }
    } else {
        None
    }
}

/// Parses envelope members from just after the opening brace to just after
/// the closing brace.
pub open spec fn parse_env_members(s: Seq<char>, i: int, acc: EnvFields) -> Option<(EnvFields, int)>
    decreases s.len() - i,
{
    let i1 = skip_ws(s, i);
    if 0 <= i1 && i1 < s.len() && s[i1] == '"' {
        match parse_str_body(s, i1 + 1) {
            Some(kp) => {
                let j1 = skip_ws(s, kp.1);
                if 0 <= j1 && j1 < s.len() && s[j1] == ':' {
                    let j2 = skip_ws(s, j1 + 1);
                    match parse_env_member_value(s, j2, kp.0, acc) {
                        Some(vp) => {
                            let j3 = skip_ws(s, vp.1);
                            if 0 <= j3 && j3 < s.len() && s[j3] == ',' {
                                if i < j3 + 1 && j3 + 1 <= s.len() {
                                    parse_env_members(s, j3 + 1, vp.0)
                                } else {
                                    None
                                }
                            } else if 0 <= j3 && j3 < s.len() && s[j3] == '}' {
                                Some((vp.0, j3 + 1))
                            } else {
                                None
                            }
                        },
                        None => None,
                    }
                } else {
                    None
                }
            },
            None => None,
        }
    } else {
        None
    }
}

/// The envelope denoted by `s`, if `s` is decodable.
pub open spec fn spec_decode(s: Seq<char>) -> Option<TerminalMessageView> {
    let i = skip_ws(s, 0);
    if 0 <= i && i < s.len() && s[i] == '{' {
        match parse_env_members(s, i + 1, empty_env_fields()) {
            Some(fp) => {
                if skip_ws(s, fp.1) == s.len() {
                    match (fp.0.ty, fp.0.data) {
                        (Some(t), Some(d)) => Some(
                            TerminalMessageView {
                                msg_type: t,
                                data: d,
                                timestamp: match fp.0.ts {
                                    Some(ts) => ts as i64,
                                    None => 0,
                                },
                                system_info: match fp.0.si {
                                    Some(x) => x,
                                    None => None,
                                },
                            },
                        ),
                        _ => None,
                    }
                } else {
                    None
                }
            },
            None => None,
        }
    } else {
        None
    }
}

/// Decides `is_json_ws`.
fn check_json_ws(c: char) -> (r: bool)
    ensures
        r == is_json_ws(c),
{
    c == ' ' || c == '\t' || c == '\n' || c == '\r'
}

/// Decides `is_dec_digit`.
pub fn check_dec_digit(c: char) -> (r: bool)
    ensures
        r == is_dec_digit(c),
{
    let u = c as u32;
    u >= '0' as u32 && u <= '9' as u32
}

fn exec_skip_ws(s: &Vec<char>, i: usize) -> (r: usize)
    requires
        i <= s@.len(),
    ensures
        i <= r <= s@.len(),
        r as int == skip_ws(s@, i as int),
{
    let n = s.len();
    let mut j = i;
    while j < n && check_json_ws(s[j])
        invariant
            i <= j <= n,
            n == s@.len(),
            skip_ws(s@, i as int) == skip_ws(s@, j as int),
        decreases n - j,
    {
        j = j + 1;
    }
    j
}

/// Compares two character vectors.
fn chars_eq(a: &Vec<char>, b: &Vec<char>) -> (r: bool)
    ensures
        r == (a@ == b@),
{
    let n = a.len();
    if n != b.len() {
        proof {
            assert(a@ != b@) by {
                if a@ == b@ {
                    assert(a@.len() == b@.len());
                }
            }
        }
        return false;
    }
    let mut i: usize = 0;
    while i < n
        invariant
            n == a@.len() == b@.len(),
            i <= n,
            forall|k: int| 0 <= k < i ==> a@[k] == b@[k],
        decreases n - i,
    {
        if a[i] != b[i] {
            proof {
                assert(a@ != b@) by {
                    if a@ == b@ {
                        assert(a@[i as int] == b@[i as int]);
                    }
                }
            }
            return false;
        }
        i = i + 1;
    }
    proof {
        assert(a@ =~= b@);
    }
    true
}

/// Compares a parsed key against a literal key.
fn key_is(key: &Vec<char>, lit: &str) -> (r: bool)
    ensures
        r == (key@ == lit@),
{
    let l = str_to_chars(lit);
    chars_eq(key, &l)
}

/// Relies on `char::from_u32`: `Some` exactly for Unicode scalar values
/// (below the surrogate range, or from `U+E000` up to `U+10FFFF`), and
/// the character returned is the one with that code point.
#[verifier::external_body]
fn char_from_u32(v: u32) -> (r: Option<char>)
    ensures
        (v < 0xD800 || (0xE000 <= v && v <= 0x10FFFF)) ==> r == Some((v as u32) as char),
        !(v < 0xD800 || (0xE000 <= v && v <= 0x10FFFF)) ==> r is None,
{
    char::from_u32(v)
}

fn exec_hex_val(c: char) -> (r: Option<u32>)
    ensures
        match r {
            Some(v) => hex_val(c) == Some(v as int) && v < 16,
            None => hex_val(c) is None,
        },
{
    let u = c as u32;
    if u >= '0' as u32 && u <= '9' as u32 {
        Some(u - '0' as u32)
    } else if u >= 'a' as u32 && u <= 'f' as u32 {
        Some(10 + (u - 'a' as u32))
    } else if u >= 'A' as u32 && u <= 'F' as u32 {
        Some(10 + (u - 'A' as u32))
    } else {
        None
    }
}

/// Puts an already-decoded prefix in front of a string-parse result.
pub open spec fn prepend_all(p: Seq<char>, r: Option<(Seq<char>, int)>) -> Option<(Seq<char>, int)> {
    match r {
        Some(q) => Some((p + q.0, q.1)),
        None => None,
    }
}

proof fn lemma_prepend_all_empty(r: Option<(Seq<char>, int)>)
    ensures
        prepend_all(Seq::empty(), r) == r,
{
    match r {
        Some(q) => {
            assert(Seq::<char>::empty() + q.0 =~= q.0);
        },
        None => {},
    }
}

proof fn lemma_prepend_all_push(p: Seq<char>, c: char, r: Option<(Seq<char>, int)>)
    ensures
        prepend_all(p.push(c), r) == prepend_all(p, prepend(c, r)),
{
    match r {
        Some(q) => {
            assert(p.push(c) + q.0 =~= p + (seq![c] + q.0));
        },
        None => {},
    }
}

fn exec_parse_u_escape(s: &Vec<char>, i: usize) -> (r: Option<(char, usize)>)
    requires
        i <= s@.len(),
    ensures
        match r {
            Some(p) => parse_u_escape(s@, i as int) == Some((p.0, p.1 as int)) && i < p.1
                <= s@.len(),
            None => parse_u_escape(s@, i as int) is None,
        },
{
    let n = s.len();
    if n - i < 4 {
        return None;
    }
    let h3 = match exec_hex_val(s[i]) {
        Some(h) => h,
        None => {
            return None;
        },
    };
    let h2 = match exec_hex_val(s[i + 1]) {
        Some(h) => h,
        None => {
            return None;
        },
    };
    let h1 = match exec_hex_val(s[i + 2]) {
        Some(h) => h,
        None => {
            return None;
        },
    };
    let h0 = match exec_hex_val(s[i + 3]) {
        Some(h) => h,
        None => {
            return None;
        },
    };
    let u = h3 * 4096 + h2 * 256 + h1 * 16 + h0;
    if u < 0xD800 || u >= 0xE000 {
        match char_from_u32(u) {
            Some(dc) => Some((dc, i + 4)),
            None => {
                proof {
                    assert(false);
                }
                None
            },
        }
    } else if u < 0xDC00 {
        if n - i < 10 {
            return None;
        }
        if !(s[i + 4] == '\\' && s[i + 5] == 'u') {
            return None;
        }
        let g3 = match exec_hex_val(s[i + 6]) {
            Some(h) => h,
            None => {
                return None;
            },
        };
        let g2 = match exec_hex_val(s[i + 7]) {
            Some(h) => h,
            None => {
                return None;
            },
        };
        let g1 = match exec_hex_val(s[i + 8]) {
            Some(h) => h,
            None => {
                return None;
            },
        };
        let g0 = match exec_hex_val(s[i + 9]) {
            Some(h) => h,
            None => {
                return None;
            },
        };
        let w = g3 * 4096 + g2 * 256 + g1 * 16 + g0;
        if !(0xDC00 <= w && w < 0xE000) {
            return None;
        }
        let cp = 0x10000 + (u - 0xD800) * 0x400 + (w - 0xDC00);
        match char_from_u32(cp) {
            Some(dc) => Some((dc, i + 10)),
            None => {
                proof {
                    assert(false);
                }
                None
            },
        }
    } else {
        None
    }
}

fn exec_parse_str_body(s: &Vec<char>, i: usize) -> (r: Option<(Vec<char>, usize)>)
    requires
        i <= s@.len(),
    ensures
        match r {
            Some(p) => parse_str_body(s@, i as int) == Some((p.0@, p.1 as int)) && i < p.1
                <= s@.len(),
            None => parse_str_body(s@, i as int) is None,
        },
{
    let n = s.len();
    let mut acc: Vec<char> = Vec::new();
    let mut j = i;
    proof {
        lemma_prepend_all_empty(parse_str_body(s@, i as int));
    }
    loop
        invariant
            i <= j <= n,
            n == s@.len(),
            prepend_all(acc@, parse_str_body(s@, j as int)) == parse_str_body(s@, i as int),
        decreases n - j,
    {
        if j >= n {
            return None;
        }
        let c = s[j];
        if c == '"' {
            proof {
                assert(acc@ + Seq::<char>::empty() =~= acc@);
            }
            return Some((acc, j + 1));
        } else if c == '\\' {
            if j + 1 >= n {
                return None;
            }
            let e = s[j + 1];
            if e == '"' || e == '\\' || e == '/' {
                proof {
                    lemma_prepend_all_push(acc@, e, parse_str_body(s@, j + 2));
                }
                acc.push(e);
                j = j + 2;
            } else if e == 'n' {
                proof {
                    lemma_prepend_all_push(acc@, '\n', parse_str_body(s@, j + 2));
                }
                acc.push('\n');
                j = j + 2;
            } else if e == 'r' {
                proof {
                    lemma_prepend_all_push(acc@, '\r', parse_str_body(s@, j + 2));
                }
                acc.push('\r');
                j = j + 2;
            } else if e == 't' {
                proof {
                    lemma_prepend_all_push(acc@, '\t', parse_str_body(s@, j + 2));
                }
                acc.push('\t');
                j = j + 2;
            } else if e == 'b' {
                proof {
                    lemma_prepend_all_push(acc@, '\u{8}', parse_str_body(s@, j + 2));
                }
                acc.push('\u{8}');
                j = j + 2;
            } else if e == 'f' {
                proof {
                    lemma_prepend_all_push(acc@, '\u{c}', parse_str_body(s@, j + 2));
                }
                acc.push('\u{c}');
                j = j + 2;
            } else if e == 'u' {
                match exec_parse_u_escape(s, j + 2) {
                    Some(p) => {
                        proof {
                            lemma_prepend_all_push(acc@, p.0, parse_str_body(s@, p.1 as int));
                        }
                        acc.push(p.0);
                        j = p.1;
                    },
                    None => {
                        return None;
                    },
                }
            } else {
                return None;
            }
        } else if (c as u32) < 32 {
            return None;
        } else {
            proof {
                lemma_prepend_all_push(acc@, c, parse_str_body(s@, j + 1));
            }
            acc.push(c);
            j = j + 1;
        }
    }
}

fn exec_parse_quoted(s: &Vec<char>, i: usize) -> (r: Option<(Vec<char>, usize)>)
    requires
        i <= s@.len(),
    ensures
        match r {
            Some(p) => parse_quoted(s@, i as int) == Some((p.0@, p.1 as int)) && i < p.1
                <= s@.len(),
            None => parse_quoted(s@, i as int) is None,
        },
{
    let n = s.len();
    if i < n && s[i] == '"' {
        exec_parse_str_body(s, i + 1)
    } else {
        None
    }
}

fn exec_parse_int(s: &Vec<char>, i: usize) -> (r: Option<(i64, usize)>)
    requires
        i <= s@.len(),
    ensures
        match r {
            Some(p) => parse_int(s@, i as int) == Some((p.0 as int, p.1 as int)) && i < p.1
                <= s@.len(),
            None => parse_int(s@, i as int) is None,
        },
{
    let n = s.len();
    let neg = i < n && s[i] == '-';
    let start = if neg {
        i + 1
    } else {
        i
    };
    if !(start < n && check_dec_digit(s[start])) {
        return None;
    }
    let mut j = start;
    let mut acc: u64 = 0;
    proof {
        lemma_pow10_18();
    }
    while j < n && check_dec_digit(s[j])
        invariant
            i <= start <= j <= n,
            n == s@.len(),
            start < n && is_dec_digit(s@[start as int]),
            neg == (0 <= i && (i as int) < s@.len() && s@[i as int] == '-'),
            start as int == if neg { i + 1 } else { i as int },
            parse_digits(s@, start as int, 0) == parse_digits(s@, j as int, acc as int),
            j - start <= 18,
            (acc as int) < pow10((j - start) as nat),
            pow10(18) == 1000000000000000000,
        decreases n - j,
    {
        if j - start == 18 {
            proof {
                lemma_parse_digits(s@, j as int + 1, acc as int * 10 + dec_val(s@[j as int]));
                assert(parse_digits(s@, j as int, acc as int) == parse_digits(
                    s@,
                    j as int + 1,
                    acc as int * 10 + dec_val(s@[j as int]),
                ));
                assert(parse_digits(s@, start as int, 0).1 >= j + 1);
            }
            return None;
        }
        let d: u64 = (s[j] as u32 - '0' as u32) as u64;
        proof {
            assert(pow10((j + 1 - start) as nat) == 10 * pow10((j - start) as nat));
            lemma_pow10_mono((j + 1 - start) as nat, 18);
        }
        acc = acc * 10 + d;
        j = j + 1;
    }
    proof {
        assert(parse_digits(s@, j as int, acc as int) == (acc as int, j as int));
        lemma_pow10_mono((j - start) as nat, 18);
    }
    let v: i64 = if neg {
        -(acc as i64)
    } else {
        acc as i64
    };
    Some((v, j))
}

/// The `system_info` members gathered while parsing.
pub struct SiFieldsExec {
    pub pwd: Option<Vec<char>>,
    pub user: Option<Vec<char>>,
    pub hostname: Option<Vec<char>>,
    pub shell: Option<Vec<char>>,
}

impl View for SiFieldsExec {
    type V = SiFields;

    open spec fn view(&self) -> SiFields {
        SiFields {
            pwd: match self.pwd {
                Some(t) => Some(t@),
                None => None,
            },
            user: match self.user {
                Some(t) => Some(t@),
                None => None,
            },
            hostname: match self.hostname {
                Some(t) => Some(t@),
                None => None,
            },
            shell: match self.shell {
                Some(t) => Some(t@),
                None => None,
            },
        }
    }
}

fn exec_si_set_field(acc: SiFieldsExec, key: &Vec<char>, t: Vec<char>) -> (r: Option<SiFieldsExec>)
    ensures
        match r {
            Some(a2) => si_set_field(acc@, key@, t@) == Some(a2@),
            None => si_set_field(acc@, key@, t@) is None,
        },
{
    if key_is(key, "pwd") {
        if acc.pwd.is_some() {
            None
        } else {
            Some(SiFieldsExec { pwd: Some(t), user: acc.user, hostname: acc.hostname, shell: acc.shell })
        }
    } else if key_is(key, "user") {
        if acc.user.is_some() {
            None
        } else {
            Some(SiFieldsExec { pwd: acc.pwd, user: Some(t), hostname: acc.hostname, shell: acc.shell })
        }
    } else if key_is(key, "hostname") {
        if acc.hostname.is_some() {
            None
        } else {
            Some(SiFieldsExec { pwd: acc.pwd, user: acc.user, hostname: Some(t), shell: acc.shell })
        }
    } else if key_is(key, "shell") {
        if acc.shell.is_some() {
            None
        } else {
            Some(SiFieldsExec { pwd: acc.pwd, user: acc.user, hostname: acc.hostname, shell: Some(t) })
        }
    } else {
        None
    }
}

fn exec_parse_si_members(s: &Vec<char>, i0: usize) -> (r: Option<(SiFieldsExec, usize)>)
    requires
        i0 <= s@.len(),
    ensures
        match r {
            Some(p) => parse_si_members(s@, i0 as int, empty_si_fields()) == Some(
                (p.0@, p.1 as int),
            ) && i0 < p.1 <= s@.len(),
            None => parse_si_members(s@, i0 as int, empty_si_fields()) is None,
        },
{
    let n = s.len();
    let mut i = i0;
    let mut acc = SiFieldsExec { pwd: None, user: None, hostname: None, shell: None };
    loop
        invariant
            i0 <= i <= n,
            n == s@.len(),
            parse_si_members(s@, i0 as int, empty_si_fields()) == parse_si_members(
                s@,
                i as int,
                acc@,
            ),
        decreases n - i,
    {
        let i1 = exec_skip_ws(s, i);
        if !(i1 < n) {
            return None;
        }
        if s[i1] != '"' {
            return None;
        }
        match exec_parse_str_body(s, i1 + 1) {
            None => {
                return None;
            },
            Some(kp) => {
                let j1 = exec_skip_ws(s, kp.1);
                if !(j1 < n) {
                    return None;
                }
                if s[j1] != ':' {
                    return None;
                }
                let j2 = exec_skip_ws(s, j1 + 1);
                match exec_parse_quoted(s, j2) {
                    None => {
                        return None;
                    },
                    Some(tp) => {
                        match exec_si_set_field(acc, &kp.0, tp.0) {
                            None => {
                                return None;
                            },
                            Some(acc2) => {
                                let j3 = exec_skip_ws(s, tp.1);
                                if j3 < n && s[j3] == ',' {
                                    acc = acc2;
                                    i = j3 + 1;
                                } else if j3 < n && s[j3] == '}' {
                                    return Some((acc2, j3 + 1));
                                } else {
                                    return None;
                                }
                            },
                        }
                    },
                }
            },
        }
    }
}

fn exec_parse_si_value(s: &Vec<char>, i: usize) -> (r: Option<(Option<SystemInfo>, usize)>)
    requires
        i <= s@.len(),
    ensures
        match r {
            Some(p) => parse_si_value(s@, i as int) == Some(
                (
                    match p.0 {
                        Some(si) => Some(si@),
                        None => None,
                    },
                    p.1 as int,
                ),
            ) && i < p.1 <= s@.len(),
            None => parse_si_value(s@, i as int) is None,
        },
{
    let n = s.len();
    if n - i >= 4 && s[i] == 'n' && s[i + 1] == 'u' && s[i + 2] == 'l' && s[i + 3] == 'l' {
        return Some((None, i + 4));
    }
    if i < n && s[i] == '{' {
        match exec_parse_si_members(s, i + 1) {
            None => None,
            Some(fp) => {
                let end = fp.1;
                match (fp.0.pwd, fp.0.user, fp.0.hostname, fp.0.shell) {
                    (Some(p), Some(u), Some(h), Some(sh)) => {
                        let si = SystemInfo {
                            pwd: chars_to_string(p),
                            user: chars_to_string(u),
                            hostname: chars_to_string(h),
                            shell: chars_to_string(sh),
                        };
                        Some((Some(si), end))
                    },
                    _ => None,
                }
            },
        }
    } else {
        None
    }
}

/// The envelope members gathered while parsing.
pub struct EnvFieldsExec {
    pub ty: Option<String>,
    pub data: Option<String>,
    pub ts: Option<i64>,
    pub si: Option<Option<SystemInfo>>,
}

impl View for EnvFieldsExec {
    type V = EnvFields;

    open spec fn view(&self) -> EnvFields {
        EnvFields {
            ty: match self.ty {
                Some(t) => Some(t@),
                None => None,
            },
            data: match self.data {
                Some(t) => Some(t@),
                None => None,
            },
            ts: match self.ts {
                Some(x) => Some(x as int),
                None => None,
            },
            si: match self.si {
                Some(Some(si)) => Some(Some(si@)),
                Some(None) => Some(None),
                None => None,
            },
        }
    }
}

fn exec_env_member_value(s: &Vec<char>, i: usize, key: &Vec<char>, acc: EnvFieldsExec) -> (r:
    Option<(EnvFieldsExec, usize)>)
    requires
        i <= s@.len(),
    ensures
        match r {
            Some(p) => parse_env_member_value(s@, i as int, key@, acc@) == Some(
                (p.0@, p.1 as int),
            ) && i < p.1 <= s@.len(),
            None => parse_env_member_value(s@, i as int, key@, acc@) is None,
        },
{
    if key_is(key, "type") {
        if acc.ty.is_some() {
            return None;
        }
        match exec_parse_quoted(s, i) {
            Some(tp) => {
                let text = chars_to_string(tp.0);
                Some((EnvFieldsExec { ty: Some(text), data: acc.data, ts: acc.ts, si: acc.si }, tp.1))
            },
            None => None,
        }
    } else if key_is(key, "data") {
        if acc.data.is_some() {
            return None;
        }
        match exec_parse_quoted(s, i) {
            Some(tp) => {
                let text = chars_to_string(tp.0);
                Some((EnvFieldsExec { ty: acc.ty, data: Some(text), ts: acc.ts, si: acc.si }, tp.1))
            },
            None => None,
        }
    } else if key_is(key, "timestamp") {
        if acc.ts.is_some() {
            return None;
        }
        match exec_parse_int(s, i) {
            Some(vp) => Some(
                (EnvFieldsExec { ty: acc.ty, data: acc.data, ts: Some(vp.0), si: acc.si }, vp.1),
            ),
            None => None,
        }
    } else if key_is(key, "system_info") {
        if acc.si.is_some() {
            return None;
        }
        match exec_parse_si_value(s, i) {
            Some(sp) => Some(
                (EnvFieldsExec { ty: acc.ty, data: acc.data, ts: acc.ts, si: Some(sp.0) }, sp.1),
            ),
            None => None,
        }
    } else {
        None
    }
}

fn exec_parse_env_members(s: &Vec<char>, i0: usize) -> (r: Option<(EnvFieldsExec, usize)>)
    requires
        i0 <= s@.len(),
    ensures
        match r {
            Some(p) => parse_env_members(s@, i0 as int, empty_env_fields()) == Some(
                (p.0@, p.1 as int),
            ) && i0 < p.1 <= s@.len(),
            None => parse_env_members(s@, i0 as int, empty_env_fields()) is None,
        },
{
    let n = s.len();
    let mut i = i0;
    let mut acc = EnvFieldsExec { ty: None, data: None, ts: None, si: None };
    loop
        invariant
            i0 <= i <= n,
            n == s@.len(),
            parse_env_members(s@, i0 as int, empty_env_fields()) == parse_env_members(
                s@,
                i as int,
                acc@,
            ),
        decreases n - i,
    {
        let i1 = exec_skip_ws(s, i);
        if !(i1 < n) {
            return None;
        }
        if s[i1] != '"' {
            return None;
        }
        match exec_parse_str_body(s, i1 + 1) {
            None => {
                return None;
            },
            Some(kp) => {
                let j1 = exec_skip_ws(s, kp.1);
                if !(j1 < n) {
                    return None;
                }
                if s[j1] != ':' {
                    return None;
                }
                let j2 = exec_skip_ws(s, j1 + 1);
                match exec_env_member_value(s, j2, &kp.0, acc) {
                    None => {
                        return None;
                    },
                    Some(vp) => {
                        let j3 = exec_skip_ws(s, vp.1);
                        if j3 < n && s[j3] == ',' {
                            acc = vp.0;
                            i = j3 + 1;
                        } else if j3 < n && s[j3] == '}' {
                            return Some((vp.0, j3 + 1));
                        } else {
                            return None;
                        }
                    },
                }
            },
        }
    }
}

/// Decodes a client frame; `None` for anything outside the envelope
/// grammar, which the caller drops.
pub fn decode_envelope(s: &str) -> (r: Option<TerminalMessage>)
    ensures
        match r {
            Some(m) => spec_decode(s@) == Some(m@),
            None => spec_decode(s@) is None,
        },
{
    let cs = str_to_chars(s);
    let n = cs.len();
    let i = exec_skip_ws(&cs, 0);
    if !(i < n) {
        return None;
    }
    if cs[i] != '{' {
        return None;
    }
    match exec_parse_env_members(&cs, i + 1) {
        None => None,
        Some(fp) => {
            let j2 = exec_skip_ws(&cs, fp.1);
            if j2 != n {
                return None;
            }
            match (fp.0.ty, fp.0.data, fp.0.ts, fp.0.si) {
                (Some(t), Some(d), ts, si) => {
                    let m = TerminalMessage {
                        msg_type: t,
                        data: d,
                        timestamp: match ts {
                            Some(x) => x,
                            None => 0,
                        },
                        system_info: match si {
                            Some(x) => x,
                            None => None,
                        },
                    };
                    Some(m)
                },
                _ => None,
            }
        },
    }
}

proof fn lemma_escape_seq_head(s: Seq<char>)
    requires
        s.len() > 0,
    ensures
        escape_seq(s) == escape_char(s[0]) + escape_seq(s.drop_first()),
    decreases s.len(),
{
    if s.len() == 1 {
        assert(s.drop_last() =~= Seq::<char>::empty());
        assert(s.drop_first() =~= Seq::<char>::empty());
        assert(escape_seq(s) =~= escape_char(s[0]) + escape_seq(s.drop_first()));
    } else {
        let t = s.drop_last();
        lemma_escape_seq_head(t);
        assert(t[0] == s[0]);
        assert(t.drop_first() =~= s.drop_first().drop_last());
        assert(s.drop_first().last() == s.last());
        assert(escape_seq(s.drop_first()) == escape_seq(s.drop_first().drop_last()) + escape_char(
            s.last(),
        ));
        assert(escape_seq(s) =~= escape_char(s[0]) + escape_seq(s.drop_first()));
    }
}

proof fn lemma_hex_val_digit(d: int)
    requires
        0 <= d < 16,
    ensures
        hex_val(hex_digit(d)) == Some(d),
{
}

#[verifier::spinoff_prover]
proof fn lemma_parse_of_escaped(s: Seq<char>, i: int, content: Seq<char>)
    requires
        0 <= i,
        i + escape_seq(content).len() + 1 <= s.len(),
        s.subrange(i, i + escape_seq(content).len() + 1) == escape_seq(content) + seq!['"'],
    ensures
        parse_str_body(s, i) == Some((content, i + escape_seq(content).len() + 1)),
    decreases content.len(),
{
    let esc = escape_seq(content);
    let whole = s.subrange(i, i + esc.len() as int + 1);
    if content.len() == 0 {
        assert(esc =~= Seq::<char>::empty());
        assert(whole[0] == s[i]);
        assert(whole[0] == '"');
    } else {
        let c = content[0];
        let rest = content.drop_first();
        lemma_escape_seq_head(content);
        let e0 = escape_char(c);
        let escr = escape_seq(rest);
        assert(esc == e0 + escr);
        assert forall|m: int| 0 <= m < e0.len() implies s[i + m] == e0[m] by {
            assert(whole[m] == s[i + m]);
            assert(whole[m] == (e0 + escr + seq!['"'])[m]);
        }
        assert forall|m: int| 0 <= m < escr.len() as int + 1 implies s.subrange(
            i + e0.len(),
            i + esc.len() + 1,
        )[m] == (escr + seq!['"'])[m] by {
            assert(whole[e0.len() + m] == s[i + e0.len() + m]);
            assert(whole[e0.len() + m] == (e0 + escr + seq!['"'])[e0.len() + m]);
        }
        assert(s.subrange(i + e0.len(), i + esc.len() + 1) =~= escr + seq!['"']);
        lemma_parse_of_escaped(s, i + e0.len(), rest);
        let end = i + esc.len() + 1;
        assert(seq![c] + rest =~= content);
        if c == '"' || c == '\\' {
            assert(s[i] == '\\');
            assert(s[i + 1] == c);
            assert(parse_str_body(s, i) == prepend(c, parse_str_body(s, i + 2)));
        } else if c == '\n' {
            assert(s[i] == '\\' && s[i + 1] == 'n');
            assert(parse_str_body(s, i) == prepend('\n', parse_str_body(s, i + 2)));
        } else if c == '\r' {
            assert(s[i] == '\\' && s[i + 1] == 'r');
            assert(parse_str_body(s, i) == prepend('\r', parse_str_body(s, i + 2)));
        } else if c == '\t' {
            assert(s[i] == '\\' && s[i + 1] == 't');
            assert(parse_str_body(s, i) == prepend('\t', parse_str_body(s, i + 2)));
        } else if (c as u32) < 32 {
            let u = c as u32;
            assert(s[i] == '\\' && s[i + 1] == 'u' && s[i + 2] == '0' && s[i + 3] == '0');
            assert(s[i + 4] == hex_digit(u as int / 16));
            assert(s[i + 5] == hex_digit(u as int % 16));
            lemma_hex_val_digit(u as int / 16);
            lemma_hex_val_digit(u as int % 16);
            assert(hex_val(s[i + 2]) == Some(0int));
            assert(hex_val(s[i + 3]) == Some(0int));
            assert((u as int / 16) * 16 + (u as int % 16) == u as int);
            vstd::utf8::char_u32_cast(c, u);
            assert((((u as int) as u32) as char) == c);
            assert(parse_u_escape(s, i + 2) == Some((c, i + 6)));
            assert(parse_str_body(s, i) == prepend(c, parse_str_body(s, i + 6)));
        } else {
            assert(s[i] == c);
            assert(parse_str_body(s, i) == prepend(c, parse_str_body(s, i + 1)));
        }
        assert(parse_str_body(s, i) == Some((content, end)));
    }
}

/// Decoding inverts encoding for string bodies: the escaped body the
/// encoder writes, followed by the closing quote and anything after it,
/// parses back to exactly the original text.
pub proof fn lemma_string_encoding_round_trip(content: Seq<char>, tail: Seq<char>)
    ensures
        parse_str_body(escape_seq(content) + seq!['"'] + tail, 0) == Some(
            (content, escape_seq(content).len() as int + 1),
        ),
{
    let s = escape_seq(content) + seq!['"'] + tail;
    assert(s.subrange(0, escape_seq(content).len() as int + 1) =~= escape_seq(content) + seq!['"']);
    lemma_parse_of_escaped(s, 0, content);
}

proof fn lemma_dec_digit_val(d: int)
    requires
        0 <= d < 10,
    ensures
        is_dec_digit(dec_digit(d)),
        dec_val(dec_digit(d)) == d,
{
}

proof fn lemma_dec_of_digits(n: int)
    requires
        n >= 0,
    ensures
        dec_of(n).len() >= 1,
        forall|m: int| 0 <= m < dec_of(n).len() ==> is_dec_digit(dec_of(n)[m]),
    decreases n,
{
    if n < 10 {
        lemma_dec_digit_val(n);
    } else {
        lemma_dec_of_digits(n / 10);
        lemma_dec_digit_val(n % 10);
        assert(forall|m: int| 0 <= m < dec_of(n / 10).len() ==> dec_of(n)[m] == dec_of(n / 10)[m]);
        assert(dec_of(n).last() == dec_digit(n % 10));
    }
}

proof fn lemma_dec_of_len_bound(n: int, k: nat)
    requires
        0 <= n,
        n < pow10(k),
        k >= 1,
    ensures
        dec_of(n).len() <= k,
    decreases n,
{
    if n >= 10 {
        if k < 2 {
            assert(k == 1);
            assert(pow10(k) == 10 * pow10((k - 1) as nat));
            assert(pow10((k - 1) as nat) == 1);
            assert(false);
        }
        assert(pow10(k) == 10 * pow10((k - 1) as nat));
        assert(n / 10 < pow10((k - 1) as nat));
        lemma_dec_of_len_bound(n / 10, (k - 1) as nat);
    }
}

proof fn lemma_parse_digits_of_dec(s: Seq<char>, i: int, n: int, acc: int)
    requires
        0 <= n,
        0 <= i,
        i + dec_of(n).len() <= s.len(),
        s.subrange(i, i + dec_of(n).len() as int) == dec_of(n),
    ensures
        parse_digits(s, i, acc) == parse_digits(
            s,
            i + dec_of(n).len(),
            acc * pow10(dec_of(n).len()) + n,
        ),
    decreases n,
{
    let d = dec_of(n);
    if n < 10 {
        lemma_dec_digit_val(n);
        assert(s.subrange(i, i + 1)[0] == s[i]);
        assert(s[i] == dec_digit(n));
        assert(pow10(1int as nat) == 10 * pow10(0int as nat));
        assert(parse_digits(s, i, acc) == parse_digits(s, i + 1, acc * 10 + n));
    } else {
        let h = dec_of(n / 10);
        let l1 = h.len() as int;
        assert(d == h + seq![dec_digit(n % 10)]);
        lemma_dec_digit_val(n % 10);
        assert forall|m: int| 0 <= m < l1 implies s[i + m] == h[m] by {
            assert(s.subrange(i, i + d.len() as int)[m] == s[i + m]);
            assert((h + seq![dec_digit(n % 10)])[m] == h[m]);
        }
        assert(s.subrange(i, i + l1) =~= h);
        lemma_parse_digits_of_dec(s, i, n / 10, acc);
        assert(s.subrange(i, i + d.len() as int)[l1] == s[i + l1]);
        assert(s[i + l1] == dec_digit(n % 10));
        let mid = acc * pow10(l1 as nat) + n / 10;
        assert(parse_digits(s, i + l1, mid) == parse_digits(s, i + l1 + 1, mid * 10 + n % 10));
        assert(pow10((l1 + 1) as nat) == 10 * pow10(l1 as nat));
        assert((acc * pow10(l1 as nat) + n / 10) * 10 + n % 10 == acc * pow10((l1 + 1) as nat)
            + n) by (nonlinear_arith)
            requires
                pow10((l1 + 1) as nat) == 10 * pow10(l1 as nat),
                n == 10 * (n / 10) + n % 10;
        assert(d.len() == l1 + 1);
    }
}

/// Decoding inverts encoding for integers: the decimal rendering the
/// encoder writes, followed by any text that is neither a digit nor part
/// of the number, parses back to exactly the original value.  (The
/// encoder's eighteen-digit magnitude bound is the decoder's own limit.)
pub proof fn lemma_int_encoding_round_trip(t: int, tail: Seq<char>)
    requires
        -1000000000000000000 < t < 1000000000000000000,
        tail.len() > 0,
        !is_dec_digit(tail[0]),
    ensures
        parse_int(dec_of_signed(t) + tail, 0) == Some((t, dec_of_signed(t).len() as int)),
{
    lemma_pow10_18();
    let s = dec_of_signed(t) + tail;
    if t >= 0 {
        let d = dec_of(t);
        lemma_dec_of_digits(t);
        lemma_dec_of_len_bound(t, 18);
        assert(forall|m: int| 0 <= m < d.len() ==> s[m] == d[m]);
        assert(s.subrange(0, d.len() as int) =~= d);
        lemma_parse_digits_of_dec(s, 0, t, 0);
        assert(s[d.len() as int] == tail[0]);
        assert(parse_digits(s, d.len() as int, 0 * pow10(d.len()) + t) == (
            0 * pow10(d.len()) + t,
            d.len() as int,
        ));
        assert(0 * pow10(d.len()) + t == t) by (nonlinear_arith);
        assert(is_dec_digit(s[0]));
        assert(s[0] != '-');
    } else {
        let mag = -t;
        let d = dec_of(mag);
        assert(dec_of_signed(t) == seq!['-'] + d);
        assert(s[0] == '-');
        lemma_dec_of_digits(mag);
        lemma_dec_of_len_bound(mag, 18);
        assert(forall|m: int| 0 <= m < d.len() ==> s[1 + m] == d[m]);
        assert(s.subrange(1, 1 + d.len() as int) =~= d);
        lemma_parse_digits_of_dec(s, 1, mag, 0);
        assert(s[1 + d.len() as int] == tail[0]);
        assert(parse_digits(s, 1 + d.len() as int, 0 * pow10(d.len()) + mag) == (
            0 * pow10(d.len()) + mag,
            1 + d.len() as int,
        ));
        assert(0 * pow10(d.len()) + mag == mag) by (nonlinear_arith);
        assert(is_dec_digit(s[1]));
    }
}

} // verus!
