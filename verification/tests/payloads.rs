use reminder_engine::backup::{normalize_base, WebDavSettings};
use reminder_engine::dispatch::{build_snapshot, webhook_payload};
use reminder_engine::greet;

#[test]
fn greet_formats_name() {
    assert_eq!(greet("World"), "Hello, World! You've been greeted from Rust!");
}

#[test]
fn webhook_payload_exact_shape() {
    let p = webhook_payload("任务提醒", "任务: 浇花");
    assert_eq!(
        p,
        "{\"msgtype\":\"text\",\"text\":{\"content\":\"任务提醒\\n\\n任务: 浇花\"}}"
    );
}

#[test]
fn webhook_payload_matches_serde_json_serialization() {
    // The payload the library frames byte for byte equals what serde_json
    // produces for the same message value.
    let title = "task \"quoted\" with \\ and tab\t";
    let content = "line one\nline two\u{1}";
    let text = format!("{}\n\n{}", title, content);

    let mut inner = serde_json::Map::new();
    inner.insert("content".to_string(), serde_json::Value::String(text));
    let mut root = serde_json::Map::new();
    root.insert("msgtype".to_string(), serde_json::Value::String("text".to_string()));
    root.insert("text".to_string(), serde_json::Value::Object(inner));
    let expected = serde_json::Value::Object(root).to_string();

    assert_eq!(webhook_payload(title, content), expected);
}

#[test]
fn webhook_payload_escapes_controls() {
    let p = webhook_payload("a", "b\u{2}");
    assert_eq!(
        p,
        "{\"msgtype\":\"text\",\"text\":{\"content\":\"a\\n\\nb\\u0002\"}}"
    );
}

#[test]
fn snapshot_carries_normalized_date_and_repeat() {
    // 1705284000 is 2024-01-15T02:00:00 UTC.
    let s = build_snapshot(1_705_284_000, "daily");
    assert_eq!(s, "{\"date\":\"2024-01-15T02:00:00+00:00\",\"repeat\":\"daily\"}");
}

#[test]
fn snapshot_matches_serde_json_serialization() {
    let t = 1_700_000_123_i64;
    let date = chrono::DateTime::from_timestamp(t, 0).unwrap().to_rfc3339();
    let mut obj = serde_json::Map::new();
    obj.insert("date".to_string(), serde_json::Value::String(date));
    obj.insert("repeat".to_string(), serde_json::Value::String("none".to_string()));
    let expected = serde_json::Value::Object(obj).to_string();
    assert_eq!(build_snapshot(t, "none"), expected);
}

#[test]
fn normalize_base_joins_with_single_slashes() {
    assert_eq!(
        normalize_base("https://dav.example.com/dav/", "/backups"),
        "https://dav.example.com/dav/backups/"
    );
    assert_eq!(
        normalize_base("https://dav.example.com/dav", "backups"),
        "https://dav.example.com/dav/backups/"
    );
    assert_eq!(
        normalize_base("https://dav.example.com/dav///", "///backups/"),
        "https://dav.example.com/dav/backups/"
    );
}

#[test]
fn normalize_base_empty_path() {
    assert_eq!(normalize_base("https://dav.example.com/dav", ""), "https://dav.example.com/dav/");
    assert_eq!(normalize_base("", ""), "/");
}

#[test]
fn normalize_base_keeps_inner_slashes() {
    assert_eq!(
        normalize_base("https://x.example.com", "a/b/c"),
        "https://x.example.com/a/b/c/"
    );
}

#[test]
fn webdav_settings_normalize() {
    let settings = WebDavSettings {
        enabled: true,
        url: "https://dav.jianguoyun.com/dav/".to_string(),
        username: "user".to_string(),
        password: "pw".to_string(),
        base_path: "/my-todo-backups".to_string(),
        auto_backup: false,
        max_backups: Some(5),
        simple_mode: true,
    };
    assert_eq!(
        normalize_base(&settings.url, &settings.base_path),
        "https://dav.jianguoyun.com/dav/my-todo-backups/"
    );
}
