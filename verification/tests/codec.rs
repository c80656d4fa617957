use mpdeps::json::{parse_manifest, serialize_manifest};
use mpdeps::manifest::{build_manifest, trim_trailing, Dependency};

fn dep(folder: &str, cmd: &str) -> Dependency {
    Dependency { folder_name: folder.to_string(), install_command: cmd.to_string() }
}

#[test]
fn serialize_empty_manifest() {
    let deps: Vec<Dependency> = Vec::new();
    assert_eq!(serialize_manifest(&deps), "[]");
}

#[test]
fn serialize_one_record() {
    let deps = vec![dep("foo", "make install")];
    assert_eq!(
        serialize_manifest(&deps),
        "[{\"folder_name\":\"foo\",\"install_command\":\"make install\"}]"
    );
}

#[test]
fn serialize_two_records() {
    let deps = vec![dep("foo", "make install"), dep("bar", "npm ci")];
    assert_eq!(
        serialize_manifest(&deps),
        "[{\"folder_name\":\"foo\",\"install_command\":\"make install\"},{\"folder_name\":\"bar\",\"install_command\":\"npm ci\"}]"
    );
}

#[test]
fn serialize_escapes_quotes_backslashes_and_controls() {
    let deps = vec![dep("a\"b", "c\\d\ne\tf\r\u{8}\u{c}\u{b}\u{1f}")];
    assert_eq!(
        serialize_manifest(&deps),
        "[{\"folder_name\":\"a\\\"b\",\"install_command\":\"c\\\\d\\ne\\tf\\r\\b\\f\\u000b\\u001f\"}]"
    );
}

#[test]
fn parse_empty_manifest() {
    let r = parse_manifest("[]").unwrap();
    assert_eq!(r.len(), 0);
}

#[test]
fn parse_one_record() {
    let r = parse_manifest("[{\"folder_name\":\"foo\",\"install_command\":\"make install\"}]")
        .unwrap();
    assert_eq!(r.len(), 1);
    assert_eq!(r[0].folder_name, "foo");
    assert_eq!(r[0].install_command, "make install");
}

#[test]
fn parse_decodes_escapes() {
    let r = parse_manifest(
        "[{\"folder_name\":\"a\\\"b\",\"install_command\":\"c\\\\d\\ne\\tf\\r\\b\\f\\u000b\\u001f\\/\\u0041\"}]",
    )
    .unwrap();
    assert_eq!(r[0].folder_name, "a\"b");
    assert_eq!(r[0].install_command, "c\\d\ne\tf\r\u{8}\u{c}\u{b}\u{1f}/A");
}

#[test]
fn round_trip_keeps_records_in_order() {
    let deps = vec![
        dep("foo", "make install"),
        dep("bar", "npm ci"),
        dep("quo\"te", "echo \"hi\" \\ done"),
        dep("ctrl", "a\u{1}b\u{b}c"),
        dep("", ""),
        dep("unicode", "café ✓"),
        dep("foo", "duplicate names are kept"),
    ];
    let text = serialize_manifest(&deps);
    let back = parse_manifest(&text).unwrap();
    assert_eq!(back.len(), deps.len());
    for (a, b) in deps.iter().zip(back.iter()) {
        assert_eq!(a.folder_name, b.folder_name);
        assert_eq!(a.install_command, b.install_command);
    }
}

#[test]
fn parse_rejects_malformed_text() {
    assert!(parse_manifest("").is_none());
    assert!(parse_manifest("{").is_none());
    assert!(parse_manifest("[").is_none());
    assert!(parse_manifest("[]x").is_none());
    assert!(parse_manifest("[{\"folder_name\":\"a\"}]").is_none());
    assert!(parse_manifest("[{\"folder_name\":\"a\",\"install_command\":\"b\"}").is_none());
    assert!(parse_manifest("[{\"folder_name\":\"a\",\"install_command\":\"b\"}]]").is_none());
    // a key that is neither member name, and the same member twice
    assert!(parse_manifest("[{\"folder\":\"a\",\"install_command\":\"b\"}]").is_none());
    assert!(parse_manifest("[{\"folder_name\":\"a\",\"folder_name\":\"b\"}]").is_none());
    // an escape the format does not define, an unterminated string, a bare
    // control character
    assert!(parse_manifest("[{\"folder_name\":\"\\x\",\"install_command\":\"b\"}]").is_none());
    assert!(parse_manifest("[{\"folder_name\":\"a,\"install_command\":\"b\"}]").is_none());
    assert!(parse_manifest("[{\"folder_name\":\"a\nb\",\"install_command\":\"c\"}]").is_none());
    // a lone surrogate escape names no character
    assert!(parse_manifest("[{\"folder_name\":\"\\ud800\",\"install_command\":\"b\"}]").is_none());
    assert!(parse_manifest("[{\"folder_name\":\"\\udc00\",\"install_command\":\"b\"}]").is_none());
    assert!(
        parse_manifest("[{\"folder_name\":\"\\ud83d x\",\"install_command\":\"b\"}]").is_none()
    );
}

#[test]
fn parse_accepts_whitespace_between_tokens() {
    let r = parse_manifest("[ ]").unwrap();
    assert_eq!(r.len(), 0);
    let r = parse_manifest(" [ ] \n").unwrap();
    assert_eq!(r.len(), 0);
    let text = " [ { \"folder_name\" : \"foo\" ,\n\t\"install_command\" : \"make install\" } ,\n\
                 { \"folder_name\" : \"bar\" , \"install_command\" : \"npm ci\" } ]\n";
    let r = parse_manifest(text).unwrap();
    assert_eq!(r.len(), 2);
    assert_eq!(r[0].folder_name, "foo");
    assert_eq!(r[0].install_command, "make install");
    assert_eq!(r[1].folder_name, "bar");
    assert_eq!(r[1].install_command, "npm ci");
    // a trailing newline after the canonical text
    let r = parse_manifest("[{\"folder_name\":\"a\",\"install_command\":\"b\"}]\n").unwrap();
    assert_eq!(r[0].folder_name, "a");
}

#[test]
fn parse_accepts_either_member_order() {
    let r = parse_manifest("[{\"install_command\":\"b\",\"folder_name\":\"a\"}]").unwrap();
    assert_eq!(r.len(), 1);
    assert_eq!(r[0].folder_name, "a");
    assert_eq!(r[0].install_command, "b");
}

#[test]
fn parse_decodes_four_hex_digit_escapes() {
    let r = parse_manifest(
        "[{\"folder_name\":\"\\u0041\\u263A\",\"install_command\":\"\\uD83D\\uDE00\"}]",
    )
    .unwrap();
    assert_eq!(r[0].folder_name, "A\u{263a}");
    assert_eq!(r[0].install_command, "\u{1f600}");
}

#[test]
fn written_manifest_is_json_serde_agrees() {
    let deps = vec![dep("fo\"o", "make \\ install\n"), dep("bar", "npm ci")];
    let text = serialize_manifest(&deps);
    let v: serde_json::Value = serde_json::from_str(&text).unwrap();
    let arr = v.as_array().unwrap();
    assert_eq!(arr.len(), 2);
    assert_eq!(arr[0]["folder_name"].as_str().unwrap(), "fo\"o");
    assert_eq!(arr[0]["install_command"].as_str().unwrap(), "make \\ install\n");
    assert_eq!(arr[1]["folder_name"].as_str().unwrap(), "bar");
    assert_eq!(arr[1]["install_command"].as_str().unwrap(), "npm ci");
}

fn record_value(folder: &str, cmd: &str) -> serde_json::Value {
    let mut m = serde_json::Map::new();
    m.insert("folder_name".to_string(), serde_json::Value::String(folder.to_string()));
    m.insert("install_command".to_string(), serde_json::Value::String(cmd.to_string()));
    serde_json::Value::Object(m)
}

#[test]
fn reads_what_serde_writes_compactly() {
    let arr = serde_json::Value::Array(vec![
        record_value("foo", "make install"),
        record_value("bar", "npm ci"),
    ]);
    let text = serde_json::to_string(&arr).unwrap();
    let r = parse_manifest(&text).unwrap();
    assert_eq!(r.len(), 2);
    assert_eq!(r[0].folder_name, "foo");
    assert_eq!(r[1].install_command, "npm ci");
    // and the pretty form, with its newlines and indentation
    let pretty = serde_json::to_string_pretty(&arr).unwrap();
    let r = parse_manifest(&pretty).unwrap();
    assert_eq!(r.len(), 2);
    assert_eq!(r[0].folder_name, "foo");
    assert_eq!(r[0].install_command, "make install");
    assert_eq!(r[1].folder_name, "bar");
    assert_eq!(r[1].install_command, "npm ci");
}

#[test]
fn trim_trailing_removes_line_ends_only_at_the_tail() {
    assert_eq!(trim_trailing("make install\n"), "make install");
    assert_eq!(trim_trailing("npm ci \t\r\n"), "npm ci");
    assert_eq!(trim_trailing("  keep leading  "), "  keep leading");
    assert_eq!(trim_trailing(""), "");
    assert_eq!(trim_trailing(" \n\t"), "");
    assert_eq!(trim_trailing("a b"), "a b");
}

#[test]
fn build_manifest_pairs_folders_with_trimmed_answers() {
    let folders = vec!["foo".to_string(), "bar".to_string()];
    let answers = vec!["make install\n".to_string(), "npm ci\n".to_string()];
    let deps = build_manifest(&folders, &answers);
    assert_eq!(deps.len(), 2);
    assert_eq!(deps[0].folder_name, "foo");
    assert_eq!(deps[0].install_command, "make install");
    assert_eq!(deps[1].folder_name, "bar");
    assert_eq!(deps[1].install_command, "npm ci");
}

#[test]
fn rinstall_session_produces_the_expected_manifest() {
    // cache holds `foo` and `bar`; the operator answers `make install`
    // and `npm ci`; the file must deserialize to those two records in
    // enumeration order
    let folders = vec!["foo".to_string(), "bar".to_string()];
    let answers = vec!["make install\n".to_string(), "npm ci\n".to_string()];
    let deps = build_manifest(&folders, &answers);
    let text = serialize_manifest(&deps);
    let back = parse_manifest(&text).unwrap();
    assert_eq!(back.len(), 2);
    assert_eq!(back[0].folder_name, "foo");
    assert_eq!(back[0].install_command, "make install");
    assert_eq!(back[1].folder_name, "bar");
    assert_eq!(back[1].install_command, "npm ci");
    // and serde_json reads the same two records from the same file text
    let v: serde_json::Value = serde_json::from_str(&text).unwrap();
    assert_eq!(v[0]["folder_name"].as_str().unwrap(), "foo");
    assert_eq!(v[0]["install_command"].as_str().unwrap(), "make install");
    assert_eq!(v[1]["folder_name"].as_str().unwrap(), "bar");
    assert_eq!(v[1]["install_command"].as_str().unwrap(), "npm ci");
}
