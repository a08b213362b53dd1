use csswitch_gateway::debug_capture::{append, begin, json, path_for, sanitize, Capture};
use csswitch_gateway::json::Json;

#[test]
fn file_name_parts_cannot_escape_the_capture_dir() {
    assert_eq!(sanitize("2026-09-16T08:26:50.073Z"), "2026-09-16T08_26_50.073Z");
    assert_eq!(sanitize("../../etc/passwd"), ".._.._etc_passwd");
    assert_eq!(sanitize("kimi-for-coding"), "kimi-for-coding");
}

#[test]
fn writes_without_begin_are_dropped() {
    let capture = Capture { enabled: true, prefix: None };
    assert!(append(&capture, "x.sse", b"data".to_vec()).is_none());
    assert!(csswitch_gateway::debug_capture::write(&capture, "x.sse", b"data".to_vec()).is_none());
    assert!(json(&capture, "x.json", &Json::Null).is_none());
}

#[test]
fn a_group_of_captures_shares_its_prefix() {
    let mut capture = Capture { enabled: true, prefix: None };
    begin(&mut capture, 7, "2026-09-16T08:26:50.073Z", "k3/256k");
    let prefix = "0007-2026-09-16T08_26_50.073Z-k3_256k";
    assert_eq!(capture.prefix.as_deref(), Some(prefix));
    let file = csswitch_gateway::debug_capture::write(&capture, "1-science-request.json", vec![1, 2]).unwrap();
    assert_eq!(file.name, format!("{prefix}-1-science-request.json"));
    assert_eq!(file.data, [1, 2]);
    assert!(!file.append);
    let more = append(&capture, "3-upstream-response.sse", vec![3]).unwrap();
    assert!(more.append);
    assert!(append(&capture, "3-upstream-response.sse", vec![]).is_none());
    let tree = Json::parse(r#"{"a":[1]}"#).unwrap();
    let pretty = json(&capture, "2-upstream-request.json", &tree).unwrap();
    assert_eq!(String::from_utf8(pretty.data).unwrap(), "{\n  \"a\": [\n    1\n  ]\n}");
}

#[test]
fn captures_that_are_off_write_nothing() {
    let mut capture = Capture { enabled: false, prefix: None };
    begin(&mut capture, 1, "now", "k3");
    assert!(capture.prefix.is_none());
    assert!(path_for(&capture, "error.txt").is_none());
}
