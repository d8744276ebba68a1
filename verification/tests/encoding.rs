use mcp_project_trust::config::{stable_map, McpConfig, McpServerConfig};
use mcp_project_trust::fingerprint::{
    encode_config, fingerprint, fingerprint_of_digest, map_json, server_json,
};
use mcp_project_trust::json::{
    flag_json, list_json, null_json, number_json, object_json, text_json,
};
use mcp_project_trust::maps::{OrderedMap, UnorderedMap};
use mcp_project_trust::text::{decimal_text, is_before};

fn command(text: &str) -> McpServerConfig {
    McpServerConfig {
        command: text.to_string(),
        args: vec![],
        env: UnorderedMap::new(),
        shared: true,
        transport: None,
        url: None,
        headers: UnorderedMap::new(),
        enabled: None,
        disabled: None,
        timeout_secs: None,
        stdio: true,
    }
}

fn config(servers: Vec<(&str, McpServerConfig)>) -> McpConfig {
    let mut map = UnorderedMap::new();
    for (name, server) in servers {
        map.insert(name.to_string(), server);
    }
    McpConfig { servers: map }
}

fn full() -> McpServerConfig {
    let mut server = command("run\t\"it\"");
    server.args = vec!["-v".to_string(), "a\\b".to_string()];
    server.env.insert("Z".to_string(), "last".to_string());
    server.env.insert("A".to_string(), "first\n".to_string());
    server.shared = false;
    server.transport = Some("stdio".to_string());
    server.url = Some("https://example.invalid/\u{e9}".to_string());
    server.headers.insert("h".to_string(), "\u{1}\u{1f}".to_string());
    server.enabled = Some(true);
    server.disabled = Some(false);
    server.timeout_secs = Some(30);
    server
}

const FULL: &str = "{\"command\":\"run\\t\\\"it\\\"\",\"args\":[\"-v\",\"a\\\\b\"],\"env\":{\"A\":\"first\\n\",\"Z\":\"last\"},\"shared\":false,\"transport\":\"stdio\",\"url\":\"https://example.invalid/\u{e9}\",\"headers\":{\"h\":\"\\u0001\\u001f\"},\"enabled\":true,\"disabled\":false,\"timeout_secs\":30}";

const FIRST: &str = "{\"command\":\"first-command\",\"args\":[],\"env\":{},\"shared\":true,\"transport\":null,\"url\":null,\"headers\":{},\"enabled\":null,\"disabled\":null,\"timeout_secs\":null}";

#[test]
fn texts_are_written_as_json_strings() {
    assert_eq!(text_json(""), "\"\"");
    assert_eq!(
        text_json("a\"b\\c\u{8}\t\n\u{c}\r\u{0}\u{1b}\u{7f}/\u{e9}\u{1f600}"),
        "\"a\\\"b\\\\c\\b\\t\\n\\f\\r\\u0000\\u001b\u{7f}/\u{e9}\u{1f600}\""
    );
    for code in 0..0x300 {
        let text = char::from_u32(code).unwrap().to_string();
        let written = text_json(&text);
        let expected = match code {
            0x22 => "\\\"".to_string(),
            0x5c => "\\\\".to_string(),
            0x08 => "\\b".to_string(),
            0x09 => "\\t".to_string(),
            0x0a => "\\n".to_string(),
            0x0c => "\\f".to_string(),
            0x0d => "\\r".to_string(),
            0x00..=0x1f => format!("\\u{code:04x}"),
            _ => text.clone(),
        };
        assert_eq!(written, format!("\"{expected}\""));
        assert_eq!(serde_json::from_str::<String>(&written).unwrap(), text);
    }
}

#[test]
fn scalars_are_written_as_json() {
    assert_eq!(number_json(0), "0");
    assert_eq!(number_json(10), "10");
    assert_eq!(number_json(u64::MAX), "18446744073709551615");
    assert_eq!(flag_json(true), "true");
    assert_eq!(flag_json(false), "false");
    assert_eq!(null_json(), "null");
}

#[test]
fn lists_and_objects_are_framed_without_white_space() {
    assert_eq!(list_json(&vec![]), "[]");
    assert_eq!(list_json(&vec!["a".to_string(), "b".to_string(), "".to_string()]), "[\"a\",\"b\",\"\"]");
    assert_eq!(object_json(&vec![]), "{}");
    assert_eq!(
        object_json(&vec![
            ("b".to_string(), "1".to_string()),
            ("a\"".to_string(), "[]".to_string()),
        ]),
        "{\"b\":1,\"a\\\"\":[]}"
    );
    let mut map = OrderedMap::new();
    map.insert("b".to_string(), "2".to_string());
    map.insert("a".to_string(), "1".to_string());
    assert_eq!(map_json(&map), "{\"a\":\"1\",\"b\":\"2\"}");
}

#[test]
fn a_server_is_written_with_every_setting() {
    assert_eq!(server_json(&full()), FULL);
    assert_eq!(server_json(&command("first-command")), FIRST);
    let parsed: serde_json::Value = serde_json::from_str(&server_json(&full())).unwrap();
    assert_eq!(parsed["command"], "run\t\"it\"");
    assert_eq!(parsed["env"]["Z"], "last");
    assert_eq!(parsed["timeout_secs"], 30);
}

#[test]
fn a_configuration_is_written_in_order_of_the_names() {
    let servers = config(vec![("z", command("first-command")), ("\u{e9}", full()), ("a", full())]);
    assert_eq!(
        encode_config(&servers),
        format!("{{\"a\":{FULL},\"z\":{FIRST},\"\u{e9}\":{FULL}}}")
    );
    assert_eq!(encode_config(&config(vec![])), "{}");
}

#[test]
fn fingerprints_are_sha256_in_hexadecimal() {
    assert_eq!(
        fingerprint(&config(vec![])),
        "44136fa355b3678a1146ad16f7e8649e94fb4fc21fe77e8310c060f61caaff8a"
    );
    assert_eq!(
        fingerprint(&config(vec![("repo-tool", command("first-command"))])),
        "8dec4d2fd554e411b0088873fc1f221a71aeb540fa13ea21d0dc220f7d945fb3"
    );
    let mut digest = [0u8; 32];
    digest[0] = 0xf9;
    digest[1] = 0x0a;
    digest[31] = 0xb4;
    let text = fingerprint_of_digest(&digest);
    assert_eq!(text.len(), 64);
    assert!(text.starts_with("f90a00"));
    assert!(text.ends_with("00b4"));
}

#[test]
fn fingerprints_do_not_depend_on_the_order_of_entry() {
    let mut other = full();
    other.env = UnorderedMap::new();
    other.env.insert("A".to_string(), "first\n".to_string());
    other.env.insert("Z".to_string(), "last".to_string());
    let a = config(vec![("one", full()), ("two", command("c"))]);
    let b = config(vec![("two", command("c")), ("one", other)]);
    assert_eq!(fingerprint(&a), fingerprint(&b));
}

#[test]
fn fingerprints_depend_on_every_setting() {
    let base = fingerprint(&config(vec![("s", full())]));
    let change: Vec<fn(&mut McpServerConfig)> = vec![
        |server| server.command = "other".to_string(),
        |server| server.args.push("x".to_string()),
        |server| server.env.insert("A".to_string(), "first".to_string()),
        |server| server.shared = true,
        |server| server.transport = None,
        |server| server.url = None,
        |server| server.headers.insert("i".to_string(), "".to_string()),
        |server| server.enabled = None,
        |server| server.disabled = Some(true),
        |server| server.timeout_secs = Some(31),
    ];
    for apply in change {
        let mut server = full();
        apply(&mut server);
        assert_ne!(fingerprint(&config(vec![("s", server)])), base);
    }
    assert_ne!(fingerprint(&config(vec![("t", full())])), base);
    let mut remote = full();
    remote.stdio = false;
    assert_eq!(fingerprint(&config(vec![("s", remote)])), base);
}

#[test]
fn maps_keep_one_value_for_a_key() {
    let mut unordered = UnorderedMap::new();
    assert!(unordered.is_empty());
    unordered.insert("k".to_string(), "1".to_string());
    unordered.insert("j".to_string(), "2".to_string());
    unordered.insert("k".to_string(), "3".to_string());
    assert_eq!(unordered.len(), 2);
    let mut stable = stable_map(&unordered);
    assert_eq!(stable.len(), 2);
    assert_eq!(stable.key_at(0), "j");
    assert_eq!(stable.value_at(1), "3");
    assert_eq!(stable.get("k").map(String::as_str), Some("3"));
    assert_eq!(stable.get("l"), None);
    let copy = stable.clone();
    assert!(stable.remove("j"));
    assert!(!stable.remove("j"));
    assert_eq!(stable.len(), 1);
    assert!(!stable.is_empty());
    assert_eq!(copy.into_values(), vec!["2", "3"]);
    assert!(unordered.pop().is_some());
    assert!(unordered.pop().is_some());
    assert!(unordered.pop().is_none());
}

#[test]
fn texts_are_ordered_like_strings() {
    let texts = ["", "A", "a", "a\0", "aa", "ab", "b", "\u{7f}", "\u{80}", "\u{ffff}", "\u{10000}"];
    for a in texts {
        for b in texts {
            assert_eq!(is_before(a, b), a < b);
        }
    }
}

#[test]
fn numbers_are_written_in_decimal() {
    for number in [0, 9, 10, 99, 100, 1234567890, usize::MAX] {
        assert_eq!(decimal_text(number), number.to_string());
    }
}
