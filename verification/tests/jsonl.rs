use ccstatusline_rs::context::jsonl::{
    cache_file_name, entry_to_store, probe_session_tokens_cached, tally_transcript, transcript_fits, CacheEntry, MessageNode,
    SessionTokens, TokenLookup, TranscriptLine, Usage,
};

fn usage(input: Option<u64>, output: Option<u64>, creation: Option<u64>, read: Option<u64>) -> Usage {
    Usage {
        input_tokens: input,
        output_tokens: output,
        cache_creation_input_tokens: creation,
        cache_read_input_tokens: read,
    }
}

fn line(u: Usage, stop: bool) -> TranscriptLine {
    TranscriptLine { message: Some(MessageNode { usage: Some(u), has_stop_reason: stop }), is_api_error: None }
}

#[test]
fn missing_file_yields_none() {
    assert_eq!(probe_session_tokens_cached(None, None), TokenLookup::NoTranscript);
}

#[test]
fn empty_file_yields_none() {
    assert_eq!(tally_transcript(&[]), None);
}

#[test]
fn sums_input_output_and_cached_across_entries() {
    let lines = [
        line(usage(Some(10), Some(5), None, Some(2)), true),
        line(usage(Some(7), Some(3), Some(4), None), true),
    ];
    let s = tally_transcript(&lines).unwrap();
    assert_eq!(s.input, 17);
    assert_eq!(s.output, 8);
    assert_eq!(s.cached, 6);
    assert_eq!(s.total(), 31);
}

#[test]
fn skips_streaming_partial_when_terminal_present() {
    let lines = [line(usage(Some(1), Some(1), None, None), false), line(usage(Some(10), Some(5), None, None), true)];
    let s = tally_transcript(&lines).unwrap();
    assert_eq!(s.input, 10);
    assert_eq!(s.output, 5);
}

#[test]
fn counts_live_final_turn_with_null_stop_reason() {
    let lines = [line(usage(Some(10), Some(5), None, None), true), line(usage(Some(7), Some(2), None, None), false)];
    let s = tally_transcript(&lines).unwrap();
    assert_eq!(s.input, 17);
    assert_eq!(s.output, 7);
}

#[test]
fn legacy_transcript_without_stop_reason_keeps_last_entry() {
    let lines = [line(usage(Some(3), Some(1), None, None), false), line(usage(Some(5), Some(2), None, None), false)];
    let s = tally_transcript(&lines).unwrap();
    assert_eq!(s.input, 5);
    assert_eq!(s.output, 2);
}

#[test]
fn skips_api_error_entries() {
    let mut bad = line(usage(Some(100), Some(50), None, None), true);
    bad.is_api_error = Some(true);
    let lines = [bad, line(usage(Some(3), Some(1), None, None), true)];
    let s = tally_transcript(&lines).unwrap();
    assert_eq!(s.input, 3);
    assert_eq!(s.output, 1);
}

#[test]
fn skips_malformed_lines() {
    // Lines that do not parse never become transcript lines; a line that
    // parses without `message.usage` is skipped the same way.
    let no_usage = TranscriptLine { message: Some(MessageNode { usage: None, has_stop_reason: true }), is_api_error: None };
    let no_message = TranscriptLine { message: None, is_api_error: Some(false) };
    let lines = [no_message, line(usage(Some(5), Some(2), None, None), true), no_usage];
    let s = tally_transcript(&lines).unwrap();
    assert_eq!(s.input, 5);
    assert_eq!(s.output, 2);
}

#[test]
fn usage_free_lines_change_nothing() {
    let base = [line(usage(Some(4), Some(1), None, None), true), line(usage(Some(2), None, Some(1), Some(1)), false)];
    let noise = TranscriptLine { message: None, is_api_error: None };
    let with_noise = [base[0], noise, base[1], noise];
    assert_eq!(tally_transcript(&base), tally_transcript(&with_noise));
    assert_eq!(tally_transcript(&base), Some(SessionTokens { input: 6, output: 1, cached: 2 }));
}

#[test]
fn overflowing_transcripts_are_detected() {
    let lines = [line(usage(Some(u64::MAX), None, None, None), true), line(usage(Some(1), None, None, None), true)];
    assert!(!transcript_fits(&lines));
    let ok = [line(usage(Some(u64::MAX), None, None, None), true)];
    assert!(transcript_fits(&ok));
}

#[test]
fn cache_hit_returns_same_result_without_filesystem_change() {
    let tokens = SessionTokens { input: 42, output: 0, cached: 0 };
    let entry = CacheEntry { mtime_ns: 7, size: 100, tokens };
    let first = probe_session_tokens_cached(Some((7, 100)), Some(entry));
    let second = probe_session_tokens_cached(Some((7, 100)), Some(entry));
    assert_eq!(first, second);
    assert_eq!(first, TokenLookup::Cached(tokens));
}

#[test]
fn cache_misses_on_changed_metadata() {
    let entry = CacheEntry { mtime_ns: 7, size: 100, tokens: SessionTokens::default() };
    assert_eq!(probe_session_tokens_cached(Some((7, 101)), Some(entry)), TokenLookup::Reparse);
    assert_eq!(probe_session_tokens_cached(Some((8, 100)), Some(entry)), TokenLookup::Reparse);
    assert_eq!(probe_session_tokens_cached(Some((7, 100)), None), TokenLookup::Reparse);
}

#[test]
fn cache_file_name_is_xxh3_hex() {
    let name = cache_file_name("/tmp/session.jsonl");
    let expected = format!("{:016x}.json", xxhash_rust::xxh3::xxh3_64(b"/tmp/session.jsonl"));
    assert_eq!(name, expected);
    assert_ne!(cache_file_name("/tmp/a.jsonl"), cache_file_name("/tmp/b.jsonl"));
    assert_eq!(name.len(), 21);
}

#[test]
fn resized_transcript_is_parsed_again_then_cached() {
    let first = SessionTokens { input: 10, output: 5, cached: 0 };
    let second = SessionTokens { input: 30, output: 9, cached: 2 };
    // Empty cache: parse, then store under the metadata.
    assert_eq!(probe_session_tokens_cached(Some((100, 50)), None), TokenLookup::Reparse);
    let e1 = entry_to_store(Some((100, 50)), Some(first)).unwrap();
    assert_eq!(e1, CacheEntry { mtime_ns: 100, size: 50, tokens: first });
    // Unchanged: a hit.
    assert_eq!(probe_session_tokens_cached(Some((100, 50)), Some(e1)), TokenLookup::Cached(first));
    // Grown: parse again.
    assert_eq!(probe_session_tokens_cached(Some((200, 80)), Some(e1)), TokenLookup::Reparse);
    let e2 = entry_to_store(Some((200, 80)), Some(second)).unwrap();
    assert_eq!(probe_session_tokens_cached(Some((200, 80)), Some(e2)), TokenLookup::Cached(second));
}

#[test]
fn nothing_is_stored_without_metadata_or_total() {
    let t = SessionTokens { input: 1, output: 1, cached: 1 };
    assert_eq!(entry_to_store(None, Some(t)), None);
    assert_eq!(entry_to_store(Some((1, 2)), None), None);
}

#[test]
fn cache_hit_equals_fresh_parse_of_same_content() {
    let lines = vec![line(usage(Some(100), Some(20), Some(5), Some(7)), true)];
    let fresh = tally_transcript(&lines);
    let stored = entry_to_store(Some((9, 42)), fresh).unwrap();
    match probe_session_tokens_cached(Some((9, 42)), Some(stored)) {
        TokenLookup::Cached(t) => assert_eq!(Some(t), fresh),
        other => panic!("expected a hit, got {other:?}"),
    }
    assert_eq!(probe_session_tokens_cached(None, Some(stored)), TokenLookup::NoTranscript);
}
