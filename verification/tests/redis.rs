use open_db_viewer::api::ConnectionConfig;
use open_db_viewer::redis::{
    fetch_command, fetch_for_type, finish_key_value, parse_server_info, redis_connection_url,
    render_hash, render_string_list, scan_command, set_command, ttl_from_reply, KeyFetch,
};

fn config(password: Option<&str>) -> ConnectionConfig {
    ConnectionConfig {
        id: "r".into(),
        host: "cache.local".into(),
        port: 6379,
        user: None,
        db_name: None,
        password: password.map(|p| p.to_string()),
    }
}

#[test]
fn urls() {
    assert_eq!(redis_connection_url(&config(None)), "redis://cache.local:6379/");
    assert_eq!(redis_connection_url(&config(Some(""))), "redis://cache.local:6379/");
    assert_eq!(redis_connection_url(&config(Some("pw"))), "redis://:pw@cache.local:6379/");
}

#[test]
fn commands() {
    assert_eq!(scan_command("", 0, 0), vec!["SCAN", "0"]);
    assert_eq!(scan_command("users:*", 17, 100), vec!["SCAN", "17", "MATCH", "users:*", "COUNT", "100"]);
    assert_eq!(set_command("k", "v", None), vec!["SET", "k", "v"]);
    assert_eq!(set_command("k", "v", Some(0)), vec!["SET", "k", "v"]);
    assert_eq!(set_command("k", "v", Some(60)), vec!["SET", "k", "v", "EX", "60"]);
    assert_eq!(ttl_from_reply(-1), None);
    assert_eq!(ttl_from_reply(-2), None);
    assert_eq!(ttl_from_reply(0), Some(0));
}

#[test]
fn key_types() {
    assert_eq!(fetch_for_type("none"), KeyFetch::Missing);
    assert_eq!(fetch_for_type("string"), KeyFetch::Get);
    assert_eq!(fetch_for_type("stream"), KeyFetch::Unsupported);
    assert_eq!(fetch_command(KeyFetch::ListRange, "l"), Some(vec!["LRANGE".to_string(), "l".into(), "0".into(), "-1".into()]));
    assert_eq!(
        fetch_command(KeyFetch::SortedRangeWithScores, "z"),
        Some(vec!["ZRANGE".to_string(), "z".into(), "0".into(), "-1".into(), "WITHSCORES".into()])
    );
    assert_eq!(fetch_command(KeyFetch::Unsupported, "x"), None);
    assert_eq!(fetch_command(KeyFetch::Missing, "x"), None);
}

#[test]
fn rendering() {
    assert_eq!(render_string_list(&vec!["a".to_string(), "b\"".to_string()]), "[\n  \"a\",\n  \"b\\\"\"\n]");
    assert_eq!(render_string_list(&vec![]), "[]");
    assert_eq!(render_hash(&vec![("f".to_string(), "1".to_string())]), "{\n  \"f\": \"1\"\n}");
    assert_eq!(render_hash(&vec![]), "{}");
}

#[test]
fn key_values() {
    let missing = finish_key_value("k", "none".into(), -2, String::new());
    assert_eq!(missing.unwrap_err(), "Key does not exist");
    let kv = finish_key_value("k", "string".into(), 30, "v".into()).unwrap();
    assert_eq!((kv.key.as_str(), kv.value.as_str(), kv.value_type.as_str(), kv.ttl), ("k", "v", "string", Some(30)));
    let odd = finish_key_value("k", "stream".into(), -1, "ignored".into()).unwrap();
    assert_eq!(odd.value, "(Unsupported key type: stream)");
    assert_eq!(odd.ttl, None);
}

#[test]
fn info_parsing() {
    let report = "# Server\r\nredis_version:7.2.4\r\nuptime_in_seconds: 42 \r\n\r\n# Clients\r\nconnected_clients:1\r\nweird line\r\nurl:redis://x:1\r\nconnected_clients:2";
    let info = parse_server_info(report);
    assert_eq!(info.stats.get("redis_version").map(|s| s.as_str()), Some("7.2.4"));
    assert_eq!(info.stats.get("uptime_in_seconds").map(|s| s.as_str()), Some("42"));
    assert_eq!(info.stats.get("connected_clients").map(|s| s.as_str()), Some("2"));
    assert_eq!(info.stats.get("url").map(|s| s.as_str()), Some("redis://x:1"));
    assert_eq!(info.stats.len(), 4);
    assert_eq!(parse_server_info("").stats.len(), 0);
}

#[test]
fn rendering_escapes_json_strings() {
    let items = vec!["x\u{1}\t\\/é".to_string(), "\u{1f}\u{8}\u{c}\r\n".to_string()];
    assert_eq!(
        render_string_list(&items),
        "[\n  \"x\\u0001\\t\\\\/é\",\n  \"\\u001f\\b\\f\\r\\n\"\n]"
    );
}

#[test]
fn rendering_hash_sorts_keys_and_keeps_last_value() {
    let fields = vec![
        ("b".to_string(), "2".to_string()),
        ("a\"".to_string(), "x\ny".to_string()),
        ("ab".to_string(), "3".to_string()),
        ("b".to_string(), "4".to_string()),
        ("é".to_string(), "5".to_string()),
    ];
    assert_eq!(
        render_hash(&fields),
        "{\n  \"a\\\"\": \"x\\ny\",\n  \"ab\": \"3\",\n  \"b\": \"4\",\n  \"é\": \"5\"\n}"
    );
}
