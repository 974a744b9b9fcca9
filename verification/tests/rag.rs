use tool_executor::rag::{
    check_embeddings, check_query_embedding, content_hash, effective_batch_size, embedding_order,
    is_retryable_status, normalize_text, retry_delay, RequestFailure, prepare_query, should_skip, stable_chunk_id,
    to_indexable_chunks, RagError, RagSourceMessage, EMBEDDING_DIM,
};

#[test]
fn to_indexable_chunks_normalizes_whitespace_and_hashes() {
    let source = RagSourceMessage {
        session_id: "session-1".to_string(),
        source_event_id: 9,
        ts_ms: 123,
        tool_name: Some("event_msg".to_string()),
        kind: "user".to_string(),
        text: "hello   world\n\nfrom   tx".to_string(),
    };

    let chunks = to_indexable_chunks(&source);
    assert_eq!(chunks.len(), 1);
    assert_eq!(chunks[0].text, "hello world from tx");
    assert!(chunks[0].embedding_text.contains("kind: user"));
    assert!(chunks[0].embedding_text.contains("tool: event_msg"));
    assert!(!chunks[0].content_hash.is_empty());
}

#[test]
fn to_indexable_chunks_skips_empty_text() {
    let source = RagSourceMessage {
        session_id: "session-1".to_string(),
        source_event_id: 1,
        ts_ms: 1,
        tool_name: None,
        kind: "assistant".to_string(),
        text: " \n\t ".to_string(),
    };

    let chunks = to_indexable_chunks(&source);
    assert!(chunks.is_empty());
}

#[test]
fn to_indexable_chunks_without_tool_uses_kind_and_text_only() {
    let source = RagSourceMessage {
        session_id: "session-2".to_string(),
        source_event_id: 42,
        ts_ms: 5,
        tool_name: None,
        kind: "tool_result".to_string(),
        text: "  output   text ".to_string(),
    };

    let chunks = to_indexable_chunks(&source);
    assert_eq!(chunks.len(), 1);
    assert!(!chunks[0].embedding_text.contains("tool:"));
    assert!(chunks[0].embedding_text.contains("kind: tool_result"));
    assert!(chunks[0].embedding_text.contains("text: output text"));
}

#[test]
fn to_indexable_chunks_keeps_identity_fields() {
    let source = RagSourceMessage {
        session_id: "session-3".to_string(),
        source_event_id: 7,
        ts_ms: 99,
        tool_name: None,
        kind: "user".to_string(),
        text: "hi".to_string(),
    };
    let chunks = to_indexable_chunks(&source);
    assert_eq!(chunks[0].session_id, "session-3");
    assert_eq!(chunks[0].ts_ms, 99);
    assert_eq!(chunks[0].source_event_id, 7);
    assert_eq!(chunks[0].chunk_id, stable_chunk_id("session-3", 7, 0));
    assert_eq!(chunks[0].content_hash, content_hash("hi"));
}

#[test]
fn content_hash_is_blake3_hex() {
    assert_eq!(
        content_hash(""),
        "af1349b9f5f9a1a6a0404dea36dcc9499bcb25c9adc112b7cc9a93cae41f3262"
    );
    assert_eq!(content_hash("abc").len(), 64);
    assert_ne!(content_hash("abc"), content_hash("abd"));
}

#[test]
fn stable_chunk_id_is_deterministic_and_non_negative() {
    let a = stable_chunk_id("session-1", 9, 0);
    let b = stable_chunk_id("session-1", 9, 0);
    assert_eq!(a, b);
    assert!(a >= 0);
    assert_ne!(a, stable_chunk_id("session-1", 10, 0));
    assert_ne!(a, stable_chunk_id("session-2", 9, 0));
}

#[test]
fn normalize_text_collapses_whitespace() {
    assert_eq!(normalize_text("  a \t b\n\nc  "), "a b c");
    assert_eq!(normalize_text("   "), "");
}

#[test]
fn search_history_rejects_empty_queries() {
    let err = prepare_query("   ").expect_err("blank query should fail");
    assert!(err.message().contains("must not be empty"));
    assert_eq!(prepare_query("  find bug ").unwrap(), "find bug");
}

#[test]
fn index_history_rejects_embedding_count_mismatch() {
    let err = check_embeddings("missing-vectors", 1, &vec![]).expect_err("count mismatch");
    assert!(err
        .message()
        .contains("embedding provider returned 0 vectors for 1 inputs"));
}

#[test]
fn index_history_rejects_embedding_dimension_mismatch() {
    let err = check_embeddings("wrong-dim", 1, &vec![8]).expect_err("dimension mismatch");
    assert!(err.message().contains("embedding dimension mismatch"));
    assert!(matches!(err, RagError::Dimension { got: 8, .. }));
    assert!(check_embeddings("ok", 2, &vec![EMBEDDING_DIM, EMBEDDING_DIM]).is_ok());
}

#[test]
fn search_history_rejects_missing_query_embedding() {
    let err = check_query_embedding("missing-vectors", None).expect_err("no vector");
    assert!(err
        .message()
        .contains("embedding provider returned no vectors for query"));
}

#[test]
fn search_history_rejects_query_embedding_dimension_mismatch() {
    let err = check_query_embedding("wrong-dim", Some(8)).expect_err("wrong dimension");
    assert!(err.message().contains("query embedding dimension mismatch"));
    assert!(check_query_embedding("ok", Some(EMBEDDING_DIM)).is_ok());
}

#[test]
fn should_skip_only_unchanged_chunks_without_reindex() {
    let source = RagSourceMessage {
        session_id: "s".to_string(),
        source_event_id: 1,
        ts_ms: 1,
        tool_name: None,
        kind: "user".to_string(),
        text: "hello".to_string(),
    };
    let chunk = &to_indexable_chunks(&source)[0];
    let same = Some(chunk.content_hash.clone());
    assert!(should_skip(false, &same, chunk));
    assert!(!should_skip(true, &same, chunk));
    assert!(!should_skip(false, &Some("other".to_string()), chunk));
    assert!(!should_skip(false, &None, chunk));
}

#[test]
fn effective_batch_size_is_at_least_one() {
    assert_eq!(effective_batch_size(0), 1);
    assert_eq!(effective_batch_size(32), 32);
}

#[test]
fn retryable_statuses() {
    assert!(is_retryable_status(429));
    assert!(is_retryable_status(503));
    assert!(!is_retryable_status(400));
    assert!(!is_retryable_status(200));
}

#[test]
fn retry_delay_doubles_and_gives_up() {
    assert_eq!(retry_delay(0, RequestFailure::Status(429)), Some(200));
    assert_eq!(retry_delay(1, RequestFailure::Transport), Some(400));
    assert_eq!(retry_delay(2, RequestFailure::Status(503)), Some(800));
    assert_eq!(retry_delay(3, RequestFailure::Status(503)), None);
    assert_eq!(retry_delay(0, RequestFailure::Status(400)), None);
    assert_eq!(retry_delay(3, RequestFailure::Transport), None);
}

#[test]
fn chunk_content_hash_is_lowercase_hex() {
    let source = RagSourceMessage {
        session_id: "s".to_string(),
        source_event_id: 1,
        ts_ms: 0,
        tool_name: None,
        kind: "assistant".to_string(),
        text: "  some  text ".to_string(),
    };
    let chunks = to_indexable_chunks(&source);
    assert_eq!(chunks[0].content_hash.len(), 64);
    assert!(chunks[0].content_hash.chars().all(|c| c.is_ascii_digit() || ('a'..='f').contains(&c)));
    assert_eq!(chunks[0].content_hash, content_hash("some text"));
}

#[test]
fn embedding_order_sorts_by_index_stably() {
    assert_eq!(embedding_order(4, &vec![2, 0, 3, 0]), Some(vec![1, 3, 0, 2]));
    assert_eq!(embedding_order(2, &vec![1, 0]), Some(vec![1, 0]));
    assert_eq!(embedding_order(3, &vec![0, 1]), None);
    assert_eq!(embedding_order(0, &vec![]), Some(vec![]));
}
