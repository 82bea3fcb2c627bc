use monitor::bridge::{
    end_session, inbound_step, outbound_frame, plan_input, priming_writes, probe_command,
    InboundAction, OutboundPump, OutboundStep, SessionLife,
};
use monitor::marker::process_stdout_chunk;
use monitor::registry::SessionRegistry;

const PROBE: &str = "echo \"__SYSTEM_INFO__:$(pwd):$(whoami):$(hostname):$SHELL\"\n";

#[test]
fn priming_issues_exactly_one_probe() {
    let writes = priming_writes("/home/u");
    assert_eq!(writes.len(), 2);
    assert_eq!(writes[0], "cd /home/u\n");
    assert_eq!(writes[1], PROBE);
    let probes = writes.iter().filter(|w| w.as_str() == PROBE).count();
    assert_eq!(probes, 1);
}

#[test]
fn newline_input_schedules_one_followup_probe() {
    let p = plan_input("echo hi\n".to_string());
    assert_eq!(p.write, "echo hi\n");
    assert!(p.probe_after_settle);
}

#[test]
fn newline_free_input_schedules_none() {
    let p = plan_input("echo h".to_string());
    assert_eq!(p.write, "echo h");
    assert!(!p.probe_after_settle);
}

fn forwarded(a: InboundAction) -> Option<String> {
    match a {
        InboundAction::Forward(d) => Some(d),
        _ => None,
    }
}

#[test]
fn inbound_input_forwards_payload() {
    let r = forwarded(inbound_step("{\"type\":\"input\",\"data\":\"ls -l\\n\",\"timestamp\":1}"));
    assert_eq!(r.as_deref(), Some("ls -l\n"));
}

#[test]
fn inbound_request_system_info_forwards_probe() {
    let r = forwarded(inbound_step("{\"type\":\"request_system_info\",\"data\":\"\",\"timestamp\":1}"));
    assert_eq!(r.as_deref(), Some(PROBE));
    assert_eq!(r.unwrap(), probe_command());
}

#[test]
fn inbound_unrecognized_type_is_ignored() {
    let a = inbound_step("{\"type\":\"ping\",\"data\":\"\",\"timestamp\":1}");
    assert!(matches!(a, InboundAction::Ignore));
}

#[test]
fn inbound_malformed_frame_is_dropped() {
    assert!(matches!(inbound_step("not json"), InboundAction::Malformed));
    assert!(matches!(inbound_step("{\"type\":\"input\"}"), InboundAction::Malformed));
}

#[test]
fn outbound_passes_structured_items_verbatim() {
    let item = "{\"type\":\"system\",\"data\":\"d\",\"timestamp\":1,\"system_info\":null}";
    assert_eq!(outbound_frame(item.to_string(), 99), item);
}

#[test]
fn outbound_wraps_raw_text_as_output() {
    assert_eq!(
        outbound_frame("hello".to_string(), 99),
        "{\"type\":\"output\",\"data\":\"hello\",\"timestamp\":99,\"system_info\":null}"
    );
}

#[test]
fn outbound_brace_only_prefix_is_wrapped() {
    let f = outbound_frame("{not closed".to_string(), 1);
    assert!(f.starts_with("{\"type\":\"output\""));
}

#[test]
fn write_failure_removes_registry_entry_and_stops_writes() {
    let mut reg: SessionRegistry<u32> = SessionRegistry::new();
    let id = "session-1".to_string();
    assert!(reg.register_fresh(id.clone(), 7));
    let mut pump = OutboundPump::new();
    let mut life = SessionLife::new();

    // a write is attempted while the pump runs
    match pump.next_action(Some("hi".to_string()), 1) {
        OutboundStep::Write(_) => {},
        OutboundStep::Stop => panic!("running pump must write"),
    }

    // the client write fails: the pump stops and, in the same scheduling
    // step, the session's registry entry is removed
    pump.on_send_result(false);
    end_session(&mut life, &mut reg, &id);
    assert!(!reg.contains(&id));

    // no further write is attempted on that sink
    match pump.next_action(Some("more".to_string()), 2) {
        OutboundStep::Write(_) => panic!("stopped pump must not write"),
        OutboundStep::Stop => {},
    }
}

#[test]
fn end_to_end_input_output_then_system() {
    // client frame arrives: the payload goes to the interpreter
    let sent = forwarded(inbound_step("{\"type\":\"input\",\"data\":\"echo hi\\n\"}")).unwrap();
    assert_eq!(sent, "echo hi\n");

    // the payload holds a newline, so one probe follows after the settle
    let plan = plan_input(sent);
    assert!(plan.probe_after_settle);

    // the command's stdout comes back and reaches the client as output
    let out = process_stdout_chunk("hi\n", 100);
    assert_eq!(out.len(), 1);
    assert_eq!(out[0].msg_type, "output");
    assert!(out[0].data.contains("hi"));

    // the probe's marker line follows with the unchanged directory
    let sys = process_stdout_chunk("__SYSTEM_INFO__:/home/u:u:box:/bin/bash\n", 101);
    assert_eq!(sys.len(), 1);
    assert_eq!(sys[0].msg_type, "system");
    assert_eq!(sys[0].system_info.as_ref().unwrap().pwd, "/home/u");
}
