use monitor::marker::{output_message, process_stdout_chunk, scan_chunk};

#[test]
fn full_marker_line_becomes_system() {
    let chunk = "__SYSTEM_INFO__:/home/u:u:box:/bin/bash\n";
    let msgs = process_stdout_chunk(chunk, 7);
    assert_eq!(msgs.len(), 1);
    let m = &msgs[0];
    assert_eq!(m.msg_type, "system");
    assert_eq!(m.data, "System info updated");
    assert_eq!(m.timestamp, 7);
    let si = m.system_info.as_ref().expect("marker parsed");
    assert_eq!(si.pwd, "/home/u");
    assert_eq!(si.user, "u");
    assert_eq!(si.hostname, "box");
    assert_eq!(si.shell, "/bin/bash");
}

#[test]
fn marker_never_forwarded_as_output() {
    let chunk = "__SYSTEM_INFO__:/home/u:u:box:/bin/bash\n";
    let msgs = process_stdout_chunk(chunk, 0);
    for m in &msgs {
        assert_ne!(m.msg_type, "output");
        assert_ne!(m.data, chunk);
    }
}

#[test]
fn non_marker_text_in_marker_chunk_stays_output() {
    let chunk = "ls out\n__SYSTEM_INFO__:/a:b:c:d\nmore\n";
    let msgs = process_stdout_chunk(chunk, 5);
    assert_eq!(msgs.len(), 2);
    assert_eq!(msgs[0].msg_type, "system");
    assert_eq!(msgs[0].system_info.as_ref().unwrap().pwd, "/a");
    assert_eq!(msgs[1].msg_type, "output");
    // only the marker line itself is suppressed
    assert_eq!(msgs[1].data, "ls out\nmore\n");
    assert!(!msgs[1].data.contains("__SYSTEM_INFO__"));
}

#[test]
fn short_marker_line_stays_output() {
    let chunk = "__SYSTEM_INFO__:/home/u:u\n";
    let msgs = process_stdout_chunk(chunk, 3);
    assert_eq!(msgs.len(), 1);
    assert_eq!(msgs[0].msg_type, "output");
    assert_eq!(msgs[0].data, chunk);
    assert_eq!(msgs[0].system_info, None);
}

#[test]
fn chunk_without_marker_is_output() {
    let msgs = process_stdout_chunk("hello world\n", 1);
    assert_eq!(msgs.len(), 1);
    assert_eq!(msgs[0].msg_type, "output");
    assert_eq!(msgs[0].data, "hello world\n");
}

#[test]
fn marker_found_among_other_lines() {
    let chunk = "make: done\n__SYSTEM_INFO__:/tmp:root:host:/bin/sh\ntrailing";
    let msgs = process_stdout_chunk(chunk, 0);
    assert_eq!(msgs.len(), 2);
    assert_eq!(msgs[0].msg_type, "system");
    assert_eq!(msgs[0].system_info.as_ref().unwrap().pwd, "/tmp");
    assert_eq!(msgs[1].msg_type, "output");
    assert_eq!(msgs[1].data, "make: done\ntrailing");
}

#[test]
fn unicode_blanks_are_trimmed_from_fields() {
    let si = scan_chunk("__SYSTEM_INFO__:\u{a0}/a\u{2003}:b:c:d").unwrap();
    assert_eq!(si.pwd, "/a");
    assert_eq!(si.user, "b");
}

#[test]
fn marker_with_text_before_tag() {
    // the split runs over the whole line, so the first field is the text
    // up to the first colon and the state fields follow unchanged
    let si = scan_chunk("$ __SYSTEM_INFO__:/a:b:c:d").unwrap();
    assert_eq!(si.pwd, "/a");
    assert_eq!(si.user, "b");
}

#[test]
fn extra_colons_truncate_the_shell_field() {
    let si = scan_chunk("__SYSTEM_INFO__:/a:b:c:/bin:bash").unwrap();
    assert_eq!(si.shell, "/bin");
}

#[test]
fn marker_fields_are_trimmed() {
    let si = scan_chunk("__SYSTEM_INFO__: /home/u :\tu : box : /bin/bash \r\n").unwrap();
    assert_eq!(si.pwd, "/home/u");
    assert_eq!(si.user, "u");
    assert_eq!(si.hostname, "box");
    assert_eq!(si.shell, "/bin/bash");
}

#[test]
fn first_marker_line_wins() {
    let chunk = "__SYSTEM_INFO__:/first:a:b:c\n__SYSTEM_INFO__:/second:x:y:z\n";
    let si = scan_chunk(chunk).unwrap();
    assert_eq!(si.pwd, "/first");
}

#[test]
fn output_message_wraps_raw_text() {
    let m = output_message("oops".to_string(), 9);
    assert_eq!(m.msg_type, "output");
    assert_eq!(m.data, "oops");
    assert_eq!(m.timestamp, 9);
    assert_eq!(m.system_info, None);
}
