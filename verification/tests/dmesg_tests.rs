use monitor::dmesg::{
    boot_time_from, parse_dmesg_line, parse_dmesg_output, parse_uptime_millis, DmesgEntry,
    DmesgResponse,
};

#[test]
fn parse_line_basic() {
    let e = parse_dmesg_line("[    4.396920] acpi power operation succeed", 1000).unwrap();
    assert_eq!(e.timestamp, 1000 + 4396);
    assert_eq!(e.level, "info");
    assert_eq!(e.message, "acpi power operation succeed");
}

#[test]
fn parse_line_integer_seconds() {
    let e = parse_dmesg_line("[14] snd_hda_codec loaded", 0).unwrap();
    assert_eq!(e.timestamp, 14000);
}

#[test]
fn parse_line_levels() {
    assert_eq!(parse_dmesg_line("[1.0] disk error detected", 0).unwrap().level, "error");
    assert_eq!(parse_dmesg_line("[1.0] an Error happened", 0).unwrap().level, "error");
    assert_eq!(parse_dmesg_line("[1.0] READ ERROR on sda", 0).unwrap().level, "error");
    assert_eq!(parse_dmesg_line("[1.0] thermal warn level", 0).unwrap().level, "warning");
    assert_eq!(parse_dmesg_line("[1.0] WARN: throttled", 0).unwrap().level, "warning");
    assert_eq!(parse_dmesg_line("[1.0] crit condition", 0).unwrap().level, "critical");
    assert_eq!(parse_dmesg_line("[1.0] CRITICAL temperature", 0).unwrap().level, "critical");
    assert_eq!(parse_dmesg_line("[1.0] all good", 0).unwrap().level, "info");
}

#[test]
fn error_wording_outranks_critical() {
    assert_eq!(parse_dmesg_line("[1.0] critical error", 0).unwrap().level, "error");
}

#[test]
fn parse_line_rejects_malformed() {
    assert_eq!(parse_dmesg_line("no bracket here", 0), None);
    assert_eq!(parse_dmesg_line("[4.5 no closing bracket", 0), None);
    assert_eq!(parse_dmesg_line("[abc] message", 0), None);
    assert_eq!(parse_dmesg_line("", 0), None);
}

#[test]
fn parse_output_skips_blank_and_bad_lines() {
    let text = "[1.0] first\n\n   \nnot a log line\n[2.5] second";
    let entries = parse_dmesg_output(text, 0, None);
    assert_eq!(entries.len(), 2);
    assert_eq!(entries[0].timestamp, 1000);
    assert_eq!(entries[0].message, "first");
    assert_eq!(entries[1].timestamp, 2500);
    assert_eq!(entries[1].message, "second");
}

#[test]
fn parse_output_since_filter_keeps_only_newer() {
    let text = "[1.0] old\n[2.0] edge\n[3.0] new\n";
    let entries = parse_dmesg_output(text, 500, Some(2000));
    assert_eq!(entries.len(), 1);
    assert_eq!(entries[0].message, "new");
}

#[test]
fn uptime_first_field_in_millis() {
    assert_eq!(parse_uptime_millis("2104.43 8400.77\n"), Some(2_104_430));
    assert_eq!(parse_uptime_millis("12"), Some(12_000));
    assert_eq!(parse_uptime_millis(".5 1.0"), Some(500));
    assert_eq!(parse_uptime_millis("4.396920 x"), Some(4_396));
    assert_eq!(parse_uptime_millis("garbage"), None);
    assert_eq!(parse_uptime_millis(""), None);
}

#[test]
fn boot_time_is_now_minus_uptime() {
    assert_eq!(boot_time_from(10_000, 4_000), 6_000);
    assert_eq!(boot_time_from(4_000, 10_000), 0);
}

#[test]
fn response_holds_entries() {
    let entries = vec![DmesgEntry {
        timestamp: 5,
        level: "info".to_string(),
        message: "m".to_string(),
    }];
    let resp = DmesgResponse {
        server_id: "host-12345678".to_string(),
        timestamp: 99,
        entries,
    };
    assert_eq!(resp.entries.len(), 1);
    assert_eq!(resp.entries[0].level, "info");
}
