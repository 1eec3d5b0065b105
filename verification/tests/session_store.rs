use conga_core::jsonl::LineDecode;
use conga_core::storage::{encode_lines, scan_jsonl_buffer, EventStorage, JsonlStorage, StorageError};
use conga_core::session_id::is_valid_session_id;

/// Rows are JSON objects tagged by `type`; only `turn_start` and `user` are
/// known.
fn decode(line: &[u8]) -> LineDecode<String> {
    match serde_json::from_slice::<serde_json::Value>(line) {
        Err(e) => LineDecode::Malformed(e.to_string()),
        Ok(v) => match v.get("type").and_then(|t| t.as_str()) {
            Some(t) if t == "turn_start" || t == "user" => LineDecode::Row(t.to_string()),
            Some(t) => LineDecode::Unrecognized(format!("unknown variant `{t}`")),
            None => LineDecode::Unrecognized("missing field `type`".to_string()),
        },
    }
}

#[test]
fn event_sync_append_rejects_bad_id_and_empty_batch() {
    let store = EventStorage::new("/tmp/store".to_string());
    assert!(store.append_event_sync("../evil", "{\"type\":\"turn_start\"}").is_err());
    assert!(store.append_events_sync("s1", &Vec::new()).unwrap().is_none());
}

#[test]
fn append_plans_name_the_session_file() {
    let store = EventStorage::new("/tmp/store".to_string());
    let p = store.append_event_sync("s1", "{\"type\":\"user\"}").unwrap();
    assert_eq!(p.path, "/tmp/store/s1/events.jsonl");
    assert_eq!(p.payload, "{\"type\":\"user\"}\n");
    assert_eq!(store.meta_path("s1"), "/tmp/store/s1/meta.json");
    assert_eq!(store.messages_path("s1"), "/tmp/store/s1/messages.jsonl");
    assert!(store.has_events("s1", true));
    assert!(!store.has_events("../x", true));
    assert!(!store.has_events("s1", false));
    let batch = store
        .append_events_sync("s1", &vec!["a".to_string(), "b".to_string()])
        .unwrap()
        .unwrap();
    assert_eq!(batch.payload, "a\nb\n");
    let atomic = store.append_events_atomic("s1", &vec!["a".to_string()]).unwrap().unwrap();
    assert_eq!(atomic.tmp, "/tmp/store/s1/events.jsonl.tmp");
    assert_eq!(atomic.dest, "/tmp/store/s1/events.jsonl");
    let legacy = JsonlStorage::default_root("/h/.conga");
    assert_eq!(legacy.base_dir_clone(), "/h/.conga/sessions");
    assert_eq!(legacy.messages_path("s2"), "/h/.conga/sessions/s2/messages.jsonl");
}

#[test]
fn session_ids_are_flat_and_bounded() {
    assert!(is_valid_session_id("abc-DEF_123"));
    assert!(!is_valid_session_id(""));
    assert!(!is_valid_session_id("a/b"));
    assert!(!is_valid_session_id(".."));
    assert!(!is_valid_session_id("中"));
    assert!(is_valid_session_id(&"a".repeat(128)));
    assert!(!is_valid_session_id(&"a".repeat(129)));
}

#[test]
fn appended_lines_load_back_in_order() {
    let lines = vec!["{\"type\":\"turn_start\"}".to_string(), "{\"type\":\"user\"}".to_string()];
    let payload = encode_lines(&lines);
    let store = EventStorage::new("/r".to_string());
    let out = store.load_events_sync("s", Some(payload.as_bytes()), decode);
    let out = match out {
        Ok(o) => o,
        Err(e) => panic!("{}", e.message()),
    };
    assert_eq!(out.rows, vec!["turn_start".to_string(), "user".to_string()]);
    assert_eq!(out.truncate_at, None);
}

#[test]
fn torn_tail_is_dropped_with_its_offset() {
    let good = "{\"type\":\"user\"}";
    let buf = format!("{good}\n{{\"type\":\"us");
    let (rows, torn) = match scan_jsonl_buffer(buf.as_bytes(), "p", false, decode) {
        Ok(x) => x,
        Err(e) => panic!("{}", e.message()),
    };
    assert_eq!(rows, vec!["user".to_string()]);
    let torn = torn.expect("torn tail");
    assert_eq!(torn.line_no, 2);
    assert_eq!(torn.start, good.len() + 1);
    let store = EventStorage::new("/r".to_string());
    match store.load_events_sync("s", Some(buf.as_bytes()), decode) {
        Ok(o) => {
            assert_eq!(o.rows.len(), 1);
            assert_eq!(o.truncate_at, Some(good.len() + 1));
        }
        Err(e) => panic!("{}", e.message()),
    }
}

#[test]
fn mid_file_damage_fails_naming_the_line() {
    let buf = "{\"type\":\"user\"}\nnot json\n{\"type\":\"user\"}\n";
    let err = scan_jsonl_buffer(buf.as_bytes(), "/r/s/events.jsonl", false, decode).err().unwrap();
    let msg = err.message();
    assert!(msg.starts_with("invalid line 2 in /r/s/events.jsonl: "), "{msg}");
    assert!(matches!(err, StorageError::Transcript(_)));
}

#[test]
fn unknown_row_fails_the_event_log_even_at_the_tail() {
    let buf = "{\"type\":\"turn_start\"}\n{\"type\":\"from_the_future\"}\n";
    let store = EventStorage::new("/r".to_string());
    let err = store.load_events_sync("s", Some(buf.as_bytes()), decode).err().unwrap();
    assert!(err.message().contains("from_the_future"));
    // The legacy message log heals an unknown last row as a torn tail.
    let legacy = JsonlStorage::new("/r".to_string());
    match legacy.load_messages("s", Some(buf.as_bytes()), decode) {
        Ok(o) => assert_eq!(o.rows, vec!["turn_start".to_string()]),
        Err(e) => panic!("{}", e.message()),
    }
}

#[test]
fn missing_log_is_an_empty_session_and_bad_ids_fail() {
    let store = EventStorage::new("/r".to_string());
    match store.load_events_sync("s", None, decode) {
        Ok(o) => assert!(o.rows.is_empty() && o.truncate_at.is_none()),
        Err(e) => panic!("{}", e.message()),
    }
    let err = store.load_events_sync("../x", None, decode).err().unwrap();
    assert_eq!(err.message(), "invalid session id: ../x");
}

#[test]
fn remove_session_reports_existence_and_refuses_bad_ids() {
    let store = EventStorage::new("/r".to_string());
    assert_eq!(store.remove_session("s1", true).unwrap().as_deref(), Some("/r/s1"));
    assert!(store.remove_session("s1", false).unwrap().is_none());
    match store.remove_session("../evil", true) {
        Err(StorageError::InvalidSessionId(id)) => assert_eq!(id, "../evil"),
        other => panic!("{other:?}"),
    }
}

#[test]
fn repaired_log_rescans_clean() {
    let buf = "{\"type\":\"turn_start\"}\n\n{\"type\":\"user\"}\n{\"type\":\"us";
    let (rows, torn) = match scan_jsonl_buffer(buf.as_bytes(), "p", true, decode) {
        Ok(x) => x,
        Err(e) => panic!("{}", e.message()),
    };
    let torn = torn.expect("torn tail");
    let repaired = &buf.as_bytes()[..torn.start];
    match scan_jsonl_buffer(repaired, "p", true, decode) {
        Ok((again, none)) => {
            assert_eq!(again, rows);
            assert!(none.is_none());
        }
        Err(e) => panic!("{}", e.message()),
    }
}
