use monitor::codec::{decode_envelope, encode_envelope, SystemInfo, TerminalMessage};

fn msg(ty: &str, data: &str, ts: i64, si: Option<SystemInfo>) -> TerminalMessage {
    TerminalMessage {
        msg_type: ty.to_string(),
        data: data.to_string(),
        timestamp: ts,
        system_info: si,
    }
}

fn sample_si() -> SystemInfo {
    SystemInfo {
        pwd: "/home/u".to_string(),
        user: "u".to_string(),
        hostname: "box".to_string(),
        shell: "/bin/bash".to_string(),
    }
}

#[test]
fn encode_basic() {
    let m = msg("output", "hi", 42, None);
    assert_eq!(
        encode_envelope(&m),
        "{\"type\":\"output\",\"data\":\"hi\",\"timestamp\":42,\"system_info\":null}"
    );
}

#[test]
fn encode_negative_timestamp() {
    let m = msg("output", "", -5, None);
    assert_eq!(
        encode_envelope(&m),
        "{\"type\":\"output\",\"data\":\"\",\"timestamp\":-5,\"system_info\":null}"
    );
}

#[test]
fn encode_escapes() {
    let m = msg("output", "a\"b\\c\nd\te\rf\u{1}", 0, None);
    assert_eq!(
        encode_envelope(&m),
        "{\"type\":\"output\",\"data\":\"a\\\"b\\\\c\\nd\\te\\rf\\u0001\",\"timestamp\":0,\"system_info\":null}"
    );
}

#[test]
fn encode_with_system_info() {
    let m = msg("system", "System info updated", 7, Some(sample_si()));
    assert_eq!(
        encode_envelope(&m),
        "{\"type\":\"system\",\"data\":\"System info updated\",\"timestamp\":7,\"system_info\":{\"pwd\":\"/home/u\",\"user\":\"u\",\"hostname\":\"box\",\"shell\":\"/bin/bash\"}}"
    );
}

#[test]
fn encode_agrees_with_serde_json() {
    let m = msg("output", "a\"b\\c\nd", 3, None);
    let encoded = encode_envelope(&m);
    let v: serde_json::Value = serde_json::from_str(&encoded).expect("well-formed JSON");
    assert_eq!(v["type"], "output");
    assert_eq!(v["data"], "a\"b\\c\nd");
    assert_eq!(v["timestamp"], 3);
    assert!(v["system_info"].is_null());
}

#[test]
fn decode_roundtrip_plain() {
    let m = msg("input", "echo hi\n", 1700000000, None);
    assert_eq!(decode_envelope(&encode_envelope(&m)), Some(m));
}

#[test]
fn decode_roundtrip_control_chars() {
    let m = msg("output", "bell\u{7}, back\u{8}, ff\u{c}, esc\u{1b}", -12, None);
    assert_eq!(decode_envelope(&encode_envelope(&m)), Some(m));
}

#[test]
fn decode_roundtrip_non_ascii() {
    let m = msg("output", "héllo wörld — ≤≥", 5, Some(sample_si()));
    assert_eq!(decode_envelope(&encode_envelope(&m)), Some(m));
}

#[test]
fn decode_without_timestamp_reads_zero() {
    let m = decode_envelope("{\"type\":\"input\",\"data\":\"echo hi\\n\"}").unwrap();
    assert_eq!(m.msg_type, "input");
    assert_eq!(m.data, "echo hi\n");
    assert_eq!(m.timestamp, 0);
    assert_eq!(m.system_info, None);
}

#[test]
fn decode_any_key_order_and_whitespace() {
    let m = decode_envelope(
        " { \"timestamp\" : 5 ,\n\t\"data\" : \"x\" , \"type\" : \"output\" } ",
    )
    .unwrap();
    assert_eq!(m.msg_type, "output");
    assert_eq!(m.data, "x");
    assert_eq!(m.timestamp, 5);
}

#[test]
fn decode_null_system_info() {
    let m = decode_envelope(
        "{\"type\":\"output\",\"data\":\"\",\"timestamp\":1,\"system_info\":null}",
    )
    .unwrap();
    assert_eq!(m.system_info, None);
}

#[test]
fn decode_system_info_object() {
    let m = decode_envelope(
        "{\"type\":\"system\",\"data\":\"d\",\"timestamp\":1,\"system_info\":{\"user\":\"u\",\"pwd\":\"/home/u\",\"shell\":\"/bin/bash\",\"hostname\":\"box\"}}",
    )
    .unwrap();
    assert_eq!(m.system_info, Some(sample_si()));
}

#[test]
fn decode_short_escapes_and_unicode() {
    let m = decode_envelope(
        "{\"type\":\"output\",\"data\":\"a\\/b\\u0041\\u00e9\",\"timestamp\":0}",
    )
    .unwrap();
    assert_eq!(m.data, "a/bA\u{e9}");
}

#[test]
fn decode_rejects_missing_type() {
    assert_eq!(decode_envelope("{\"data\":\"x\",\"timestamp\":1}"), None);
}

#[test]
fn decode_rejects_missing_data() {
    assert_eq!(decode_envelope("{\"type\":\"input\",\"timestamp\":1}"), None);
}

#[test]
fn decode_rejects_duplicate_member() {
    assert_eq!(
        decode_envelope("{\"type\":\"a\",\"type\":\"b\",\"data\":\"x\",\"timestamp\":1}"),
        None
    );
}

#[test]
fn decode_rejects_unknown_member() {
    assert_eq!(
        decode_envelope("{\"type\":\"a\",\"data\":\"x\",\"timestamp\":1,\"extra\":\"y\"}"),
        None
    );
}

#[test]
fn decode_rejects_trailing_text() {
    assert_eq!(
        decode_envelope("{\"type\":\"a\",\"data\":\"x\",\"timestamp\":1} tail"),
        None
    );
}

#[test]
fn decode_rejects_bad_escape() {
    assert_eq!(decode_envelope("{\"type\":\"a\",\"data\":\"x\\q\",\"timestamp\":1}"), None);
}

#[test]
fn decode_rejects_unterminated_string() {
    assert_eq!(decode_envelope("{\"type\":\"a\",\"data\":\"x"), None);
}

#[test]
fn decode_rejects_raw_control_char() {
    assert_eq!(decode_envelope("{\"type\":\"a\",\"data\":\"x\u{1}\",\"timestamp\":1}"), None);
}

#[test]
fn decode_wide_unicode_escape() {
    let m = decode_envelope("{\"type\":\"a\",\"data\":\"\\u0101\",\"timestamp\":1}").unwrap();
    assert_eq!(m.data, "\u{101}");
}

#[test]
fn decode_surrogate_pair_escape() {
    let m = decode_envelope("{\"type\":\"a\",\"data\":\"\\ud83d\\ude00!\",\"timestamp\":1}")
        .unwrap();
    assert_eq!(m.data, "\u{1f600}!");
}

#[test]
fn decode_rejects_lone_surrogates() {
    assert_eq!(decode_envelope("{\"type\":\"a\",\"data\":\"\\ud83d\",\"timestamp\":1}"), None);
    assert_eq!(
        decode_envelope("{\"type\":\"a\",\"data\":\"\\ude00x\",\"timestamp\":1}"),
        None
    );
    assert_eq!(
        decode_envelope("{\"type\":\"a\",\"data\":\"\\ud83dxx\",\"timestamp\":1}"),
        None
    );
}

#[test]
fn decode_rejects_nineteen_digit_timestamp() {
    assert_eq!(
        decode_envelope("{\"type\":\"a\",\"data\":\"x\",\"timestamp\":1000000000000000000}"),
        None
    );
}

#[test]
fn decode_accepts_eighteen_digit_timestamp() {
    let m = decode_envelope("{\"type\":\"a\",\"data\":\"x\",\"timestamp\":999999999999999999}")
        .unwrap();
    assert_eq!(m.timestamp, 999_999_999_999_999_999);
}

#[test]
fn decode_rejects_non_object() {
    assert_eq!(decode_envelope(""), None);
    assert_eq!(decode_envelope("[]"), None);
    assert_eq!(decode_envelope("{}"), None);
    assert_eq!(decode_envelope("null"), None);
}
