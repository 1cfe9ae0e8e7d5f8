use radar_core::command::{
    error_json, missing_field, missing_string, ok_json, parse_command, reply, version, version_json,
    Command,
};
use radar_core::error::Error;

fn bad(r: Result<Command, Error>) -> String {
    match r {
        Err(Error::BadSpec(m)) => m,
        other => panic!("expected a spec error, got {other:?}"),
    }
}

#[test]
fn known_commands_decode() {
    assert_eq!(parse_command(Some("set_spec")).unwrap(), Command::SetSpec);
    assert_eq!(parse_command(Some("feed")).unwrap(), Command::Feed);
    assert_eq!(parse_command(Some("feed_batch")).unwrap(), Command::FeedBatch);
    assert_eq!(parse_command(Some("scan")).unwrap(), Command::Scan);
    assert_eq!(parse_command(Some("alerts")).unwrap(), Command::Alerts);
    assert_eq!(parse_command(Some("reset")).unwrap(), Command::Reset);
    assert_eq!(parse_command(Some("version")).unwrap(), Command::Version);
}

#[test]
fn unknown_command_yields_error_json() {
    let m = bad(parse_command(Some("nope")));
    assert_eq!(m, "unknown cmd: nope");
    let out = reply(parse_command(Some("nope")).map(|_| String::new()));
    assert!(out.contains(r#""ok":false"#));
    assert!(out.contains("unknown cmd"));
}

#[test]
fn missing_cmd_is_an_error() {
    assert_eq!(bad(parse_command(None)), "missing \"cmd\"");
}

#[test]
fn field_errors_name_the_field() {
    match missing_field("event") {
        Error::BadSpec(m) => assert_eq!(m, "missing \"event\""),
        other => panic!("unexpected {other:?}"),
    }
    match missing_string("symbol") {
        Error::BadSpec(m) => assert_eq!(m, "missing string \"symbol\""),
        other => panic!("unexpected {other:?}"),
    }
}

#[test]
fn envelopes_are_compact_json() {
    assert_eq!(ok_json(), r#"{"ok":true}"#);
    assert_eq!(error_json("boom"), r#"{"error":"boom","ok":false}"#);
    assert_eq!(error_json("a\"b\\c\nd"), r#"{"error":"a\"b\\c\nd","ok":false}"#);
    assert_eq!(error_json("\u{1}\u{8}\u{1f}\t\r\u{c}é"), r#"{"error":"\u0001\b\u001f\t\r\fé","ok":false}"#);
}

#[test]
fn version_command() {
    assert_eq!(version(), "0.1.4");
    assert_eq!(version_json(), format!(r#"{{"version":"{}"}}"#, radar_core::Radar::<f64>::version()));
    assert_eq!(version_json(), r#"{"version":"0.1.4"}"#);
}

#[test]
fn reply_passes_success_through() {
    assert_eq!(reply(Ok("{\"x\":1}".to_string())), "{\"x\":1}");
    assert_eq!(
        reply(Err(Error::BadSpec("limit must be greater than zero".to_string()))),
        r#"{"error":"invalid spec: limit must be greater than zero","ok":false}"#
    );
}
