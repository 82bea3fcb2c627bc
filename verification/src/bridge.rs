//! The pure decision steps of one session's pumps.
//!
//! A session runs six concurrent tasks (the bridge's inbound and outbound
//! pumps, the adapter's three stdio pumps, and the adapter supervisor);
//! all of their decisions — what to write to the interpreter, what frame
//! to send to the client, when a probe is due, and how a session is torn
//! down — are the plain functions of this module.  The scheduling itself
//! (channels, child process, timers) lives outside the crate and only
//! carries these functions' inputs and outputs around.

use vstd::prelude::*;
use vstd::string::StringExecFns;

use crate::chars::str_to_chars;
use crate::codec::{encode_envelope, spec_decode, spec_encode};
use crate::marker::{exec_scan_to, lemma_scan_to_bounds, output_message, spec_output_message};
use crate::registry::SessionRegistry;

verus! {

/// The shell command that prints one marker line.
pub open spec fn spec_probe_command() -> Seq<char> {
    "echo \"__SYSTEM_INFO__:$(pwd):$(whoami):$(hostname):$SHELL\"\n"@
}

/// The shell command that moves to the session's starting directory.
pub open spec fn spec_cd_command(home: Seq<char>) -> Seq<char> {
    "cd "@ + home + "\n"@
}

/// Builds the probe command sent to the interpreter's stdin.
pub fn probe_command() -> (r: String)
    ensures
        r@ == spec_probe_command(),
{
    String::from_str("echo \"__SYSTEM_INFO__:$(pwd):$(whoami):$(hostname):$SHELL\"\n")
}

/// How many of the given writes are the probe command.
pub open spec fn count_probes(ws: Seq<Seq<char>>) -> nat
    decreases ws.len(),
{
    if ws.len() == 0 {
        0
    } else {
        count_probes(ws.drop_last()) + if ws.last() == spec_probe_command() {
            1nat
        } else {
            0nat
        }
    }
}

/// The two writes issued right after spawn, before any user input: move to
/// the home directory, then one probe.
pub open spec fn spec_priming_writes(home: Seq<char>) -> Seq<Seq<char>> {
    seq![spec_cd_command(home), spec_probe_command()]
}

/// Builds the priming writes for a session whose home directory is `home`.
pub fn priming_writes(home: &str) -> (r: Vec<String>)
    ensures
        r@.len() == 2,
        r@[0]@ == spec_cd_command(home@),
        r@[1]@ == spec_probe_command(),
{
    let mut cd = String::from_str("cd ");
    cd.append(home);
    cd.append("\n");
    let mut v: Vec<String> = Vec::new();
    v.push(cd);
    v.push(probe_command());
    v
}

/// The priming sequence issues exactly one probe, whatever the home
/// directory: the `cd` write is never the probe command.
pub proof fn lemma_priming_probe_count(home: Seq<char>)
    ensures
        count_probes(spec_priming_writes(home)) == 1,
{
    reveal_with_fuel(count_probes, 3);
    reveal_strlit("cd ");
    reveal_strlit("echo \"__SYSTEM_INFO__:$(pwd):$(whoami):$(hostname):$SHELL\"\n");
    assert(spec_cd_command(home)[0] == 'c');
    assert(spec_probe_command()[0] == 'e');
    assert(spec_cd_command(home) != spec_probe_command());
    let ws = spec_priming_writes(home);
    assert(ws.drop_last() =~= seq![spec_cd_command(home)]);
    assert(ws.drop_last().drop_last() =~= Seq::<Seq<char>>::empty());
}

/// `c` occurs in `s`.
pub open spec fn contains_char(s: Seq<char>, c: char) -> bool {
    exists|k: int| 0 <= k < s.len() && s[k] == c
}

/// Decides `contains_char`.
pub fn check_contains_char(s: &Vec<char>, c: char) -> (r: bool)
    ensures
        r == contains_char(s@, c),
{
    let n = s.len();
    let k = exec_scan_to(s, 0, c);
    proof {
        lemma_scan_to_bounds(s@, 0, c);
        if (k as int) < s@.len() {
            assert(s@[k as int] == c);
        }
    }
    k < n
}

/// What the stdin pump writes for one item from the input channel, and
/// whether a probe follows after the settle delay.
pub struct InputPlan {
    pub write: String,
    pub probe_after_settle: bool,
}

/// Plans one stdin-pump step: the payload is written verbatim, and a
/// newline in it schedules exactly one follow-up probe.
pub fn plan_input(input: String) -> (p: InputPlan)
    ensures
        p.write@ == input@,
        p.probe_after_settle == contains_char(input@, '\n'),
{
    let cs = str_to_chars(input.as_str());
    let probe = check_contains_char(&cs, '\n');
    InputPlan { write: input, probe_after_settle: probe }
}

/// The writes that follow one input item after the settle delay.
pub open spec fn spec_followup_writes(input: Seq<char>) -> Seq<Seq<char>> {
    if contains_char(input, '\n') {
        seq![spec_probe_command()]
    } else {
        Seq::empty()
    }
}

/// An input holding a newline triggers exactly one follow-up probe;
/// newline-free input triggers none.
pub proof fn lemma_followup_probe_count(input: Seq<char>)
    ensures
        count_probes(spec_followup_writes(input)) == if contains_char(input, '\n') {
            1nat
        } else {
            0nat
        },
{
    reveal_with_fuel(count_probes, 2);
    if contains_char(input, '\n') {
        let ws = spec_followup_writes(input);
        assert(ws.drop_last() =~= Seq::<Seq<char>>::empty());
    }
}

/// What the inbound pump forwards to the interpreter's input channel for
/// one client frame: the payload of an `input` envelope, the probe command
/// for `request_system_info`, and nothing for unrecognized or undecodable
/// frames (which are dropped).
pub open spec fn spec_inbound_forward(frame: Seq<char>) -> Option<Seq<char>> {
    match spec_decode(frame) {
        Some(m) => {
            if m.msg_type == "input"@ {
                Some(m.data)
            } else if m.msg_type == "request_system_info"@ {
                Some(spec_probe_command())
            } else {
                None
            }
        },
        None => None,
    }
}

/// What the inbound pump does with one client frame.
pub enum InboundAction {
    /// Feed this text to the interpreter's input channel.
    Forward(String),
    /// A decodable envelope of an unrecognized type: ignored.
    Ignore,
    /// An undecodable frame: dropped (and logged by the caller).
    Malformed,
}

/// One inbound-pump step.
pub fn inbound_step(frame: &str) -> (a: InboundAction)
    ensures
        match a {
            InboundAction::Forward(d) => spec_inbound_forward(frame@) == Some(d@),
            InboundAction::Ignore => spec_decode(frame@) is Some && spec_inbound_forward(frame@)
                is None,
            InboundAction::Malformed => spec_decode(frame@) is None,
        },
{
    match crate::codec::decode_envelope(frame) {
        Some(m) => {
            if m.msg_type == String::from_str("input") {
                InboundAction::Forward(m.data)
            } else if m.msg_type == String::from_str("request_system_info") {
                InboundAction::Forward(probe_command())
            } else {
                InboundAction::Ignore
            }
        },
        None => InboundAction::Malformed,
    }
}

/// An item on the outbound channel that already is a complete structured
/// envelope (brace-delimited) is passed through verbatim.
pub open spec fn is_structured(d: Seq<char>) -> bool {
    d.len() >= 1 && d[0] == '{' && d[d.len() - 1] == '}'
}

/// The frame the outbound pump sends for one channel item: structured
/// items pass through verbatim, anything else is wrapped as an `output`
/// envelope stamped with the current time.
pub open spec fn spec_outbound_frame(data: Seq<char>, now: i64) -> Seq<char> {
    if is_structured(data) {
        data
    } else {
        spec_encode(spec_output_message(data, now))
    }
}

/// Builds the frame for one outbound channel item.
pub fn outbound_frame(data: String, now: i64) -> (r: String)
    ensures
        r@ == spec_outbound_frame(data@, now),
{
    let cs = str_to_chars(data.as_str());
    let n = cs.len();
    if n >= 1 && cs[0] == '{' && cs[n - 1] == '}' {
        data
    } else {
        encode_envelope(&output_message(data, now))
    }
}

/// The outbound pump's state: it runs until its channel closes or a client
/// write fails.
pub struct OutboundPump {
    pub running: bool,
}

/// One outbound-pump action.
pub enum OutboundStep {
    Write(String),
    Stop,
}

impl OutboundPump {
    /// A freshly started pump.
    pub fn new() -> (r: Self)
        ensures
            r.running,
    {
        OutboundPump { running: true }
    }

    /// The action for one received channel item.  A stopped pump never
    /// writes again; a closed channel stops the pump.
    pub fn next_action(&self, item: Option<String>, now: i64) -> (a: OutboundStep)
        ensures
            match a {
                OutboundStep::Write(f) => self.running && match item {
                    Some(d) => f@ == spec_outbound_frame(d@, now),
                    None => false,
                },
                OutboundStep::Stop => !self.running || item is None,
            },
    {
        if !self.running {
            return OutboundStep::Stop;
        }
        match item {
            Some(d) => OutboundStep::Write(outbound_frame(d, now)),
            None => OutboundStep::Stop,
        }
    }

    /// Records the outcome of a client write: a failure stops the pump for
    /// good.
    pub fn on_send_result(&mut self, ok: bool)
        ensures
            final(self).running == (old(self).running && ok),
    {
        self.running = self.running && ok;
    }
}

/// One session's teardown bookkeeping: the registry entry is removed
/// exactly once, on the first task to finish.
pub struct SessionLife {
    pub closed: bool,
}

impl SessionLife {
    /// A freshly opened session.
    pub fn new() -> (r: Self)
        ensures
            !r.closed,
    {
        SessionLife { closed: false }
    }
}

/// Ends a session: runs once, on whichever of the session's tasks finishes
/// first, and removes the session's registry entry in the same step.
pub fn end_session<S>(
    life: &mut SessionLife,
    reg: &mut SessionRegistry<S>,
    id: &String,
)
    requires
        old(reg).wf(),
        !old(life).closed,
    ensures
        final(life).closed,
        final(reg).wf(),
        final(reg)@ == old(reg)@.remove(id@),
{
    life.closed = true;
    reg.unregister(id);
}

} // verus!
