use conga_core::embed::{
    backoff_delay, batch_ranges, check_embeddings, default_retry, effective_batch, embeddings_url,
    http_error, jitter_from, next_retry, order_by_index, rand_jitter, throttle_before,
    truncate_chars, EmbedError, RetryPolicy,
};
use conga_core::ingest::{
    content_hash, edge_dir, embedding_slices, failed_outright, hex, hit_path, missing_docs,
    source_selected, stats_line, step_by_hash, store_files, unchanged_mtime, DocRow, FileStep,
    IngestStats,
};
use conga_core::rag_config::{RagConfig, SourceConfig};

#[test]
fn backoff_doubles_and_caps() {
    let p = default_retry();
    assert_eq!(backoff_delay(&p, 0), 1000);
    assert_eq!(backoff_delay(&p, 1), 2000);
    assert_eq!(backoff_delay(&p, 4), 16000);
    assert_eq!(backoff_delay(&p, 5), 30000);
    let huge = RetryPolicy { max_retries: 3, initial_delay_ms: u64::MAX / 2, max_delay_ms: u64::MAX, jitter: false };
    assert_eq!(backoff_delay(&huge, 3), u64::MAX);
}

#[test]
fn retry_on_429_then_give_up_after_the_budget() {
    let p = default_retry();
    let e = http_error(429, " slow down ");
    assert!(e.is_retryable());
    assert_eq!(next_retry(&p, 0, e.is_retryable(), 100), Some(1100));
    assert_eq!(next_retry(&p, 7, true, 0), None);
    let bad = http_error(400, "bad");
    assert!(!bad.is_retryable());
    assert_eq!(next_retry(&p, 0, bad.is_retryable(), 0), None);
    let no_jitter = RetryPolicy { jitter: false, ..p };
    assert_eq!(next_retry(&no_jitter, 1, true, 500), Some(2000));
}

#[test]
fn jitter_lies_between_a_quarter_and_a_half() {
    assert_eq!(jitter_from(1000, 0), 250);
    assert_eq!(jitter_from(1000, 251), 250);
    assert_eq!(jitter_from(1000, 250), 500);
    for _ in 0..10 {
        let j = rand_jitter(4000);
        assert!((1000..=2000).contains(&j));
    }
}

#[test]
fn http_error_body_is_surfaced() {
    let e = http_error(503, &format!("  {}  ", "x".repeat(500)));
    match &e {
        EmbedError::Http { status, retryable, detail } => {
            assert_eq!(*status, 503);
            assert!(*retryable);
            assert_eq!(detail.chars().count(), 401);
            assert!(detail.ends_with('…'));
        }
        _ => panic!("expected an HTTP error"),
    }
    assert!(e.message().starts_with("embeddings API HTTP 503: xxx"));
    assert_eq!(EmbedError::Network("reset".to_string()).message(), "网络错误: reset");
    assert!(EmbedError::Network("x".to_string()).is_retryable());
}

#[test]
fn batches_are_split_by_config() {
    assert_eq!(batch_ranges(5, 2), vec![(0, 2), (2, 4), (4, 5)]);
    assert_eq!(batch_ranges(4, 2), vec![(0, 2), (2, 4)]);
    assert!(batch_ranges(0, 3).is_empty());
    assert_eq!(effective_batch(0), 1);
    assert_eq!(effective_batch(8), 8);
    assert!(!throttle_before(0, 1500));
    assert!(throttle_before(1, 1500));
    assert!(!throttle_before(1, 0));
}

#[test]
fn embeddings_are_checked_and_ordered() {
    assert!(check_embeddings(2, &vec![3, 3]).is_ok());
    let count = check_embeddings(3, &vec![3, 3]).unwrap_err();
    assert_eq!(count.message(), "embedding 响应条数不符:期望 3,实得 2");
    let dim = check_embeddings(3, &vec![3, 3, 4]).unwrap_err();
    assert_eq!(dim.message(), "embedding 维度不一致:首批 3,第 2 条为 4");
    assert_eq!(order_by_index(&vec![2, 0, 1]), vec![1, 2, 0]);
    assert_eq!(embeddings_url("https://x/v1//"), "https://x/v1/embeddings");
    assert_eq!(truncate_chars("中文字", 2), "中文…");
    assert_eq!(truncate_chars("中文", 2), "中文");
}

#[test]
fn ingest_steps_by_time_then_hash() {
    let prev = DocRow { path: "a.md".to_string(), mtime: 10, content_hash: "h1".to_string() };
    assert!(unchanged_mtime(Some(&prev), 10));
    assert!(!unchanged_mtime(Some(&prev), 11));
    assert!(!unchanged_mtime(None, 10));
    assert_eq!(step_by_hash(Some(&prev), "h1"), FileStep::Touch);
    assert_eq!(step_by_hash(Some(&prev), "h2"), FileStep::Embed { existed: true });
    assert_eq!(step_by_hash(None, "h2"), FileStep::Embed { existed: false });
    assert!(source_selected(None, "notes"));
    assert!(source_selected(Some("notes"), "notes"));
    assert!(!source_selected(Some("docs"), "notes"));
}

#[test]
fn ingest_is_idempotent_and_removes_deleted() {
    let stored = vec!["a.md".to_string(), "b.md".to_string(), "c.md".to_string()];
    let live = vec!["c.md".to_string(), "a.md".to_string()];
    assert_eq!(missing_docs(&stored, &live), vec!["b.md".to_string()]);
    assert!(missing_docs(&live, &stored).is_empty());
}

#[test]
fn ingest_stats_count_and_render() {
    let mut s = IngestStats::new();
    s.record_upsert(false, 3);
    s.record_upsert(true, 2);
    assert_eq!((s.added, s.updated, s.chunks), (1, 1, 5));
    assert_eq!(stats_line(&s), "scanned=0 added=1 updated=1 removed=0 skipped=0 failed=0 chunks=5");
    let failed = IngestStats { failed: 2, ..IngestStats::new() };
    assert!(failed_outright(&failed));
    assert!(!failed_outright(&s));
    assert_eq!(embedding_slices(&vec![2, 0, 3]), vec![(0, 2), (2, 2), (2, 5)]);
}

#[test]
fn rebuild_removes_wal_sidecars() {
    assert_eq!(store_files("/d/index.db"), vec!["/d/index.db", "/d/index.db-wal", "/d/index.db-shm"]);
    assert_eq!(edge_dir("/d/index.db"), "/d/index.db.edge");
}

#[test]
fn content_hash_is_sha256_hex() {
    assert_eq!(content_hash(""), "e3b0c44298fc1c149afbf4c8996fb92427ae41e4649b934ca495991b7852b855");
    assert_eq!(content_hash("abc"), "ba7816bf8f01cfea414140de5dae2223b00361a396177a9cb410ff61f20015ad");
    assert_eq!(hex(&[0x00, 0xab, 0x10]), "00ab10");
}

#[test]
fn hit_paths_are_shown_relative_to_their_source() {
    let mut cfg = RagConfig::default();
    let mut src = SourceConfig::default();
    src.path = "/notes".to_string();
    cfg.sources.insert("notes".to_string(), src);
    assert_eq!(hit_path(&cfg, "notes", "/notes/a/b.md"), "a/b.md");
    assert_eq!(hit_path(&cfg, "notes", "/other/b.md"), "/other/b.md");
    assert_eq!(hit_path(&cfg, "docs", "/notes/a.md"), "/notes/a.md");
}
