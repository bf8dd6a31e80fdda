use brochat::llm::sse::{extract_delta, SseParser};

#[test]
fn whole_event() {
    let mut p = SseParser::new();
    let ev = p.push(b"data: {\"a\":1}\n\n");
    assert_eq!(ev, vec![r#"{"a":1}"#]);
}

#[test]
fn chunk_split_mid_line() {
    let mut p = SseParser::new();
    assert!(p.push(b"data: {\"a").is_empty());
    assert!(p.push(b"\":1}\n").is_empty());
    let ev = p.push(b"\n");
    assert_eq!(ev, vec![r#"{"a":1}"#]);
}

#[test]
fn crlf_handled() {
    let mut p = SseParser::new();
    let ev = p.push(b"data: hello\r\n\r\n");
    assert_eq!(ev, vec!["hello"]);
}

#[test]
fn ignores_comments_and_other_fields() {
    let mut p = SseParser::new();
    let ev = p.push(b": keepalive\nid: 1\nevent: message\ndata: hi\n\n");
    assert_eq!(ev, vec!["hi"]);
}

#[test]
fn multi_line_data_joined() {
    let mut p = SseParser::new();
    let ev = p.push(b"data: {\"a\":\ndata: 1}\n\n");
    assert_eq!(ev, vec![r#"{"a":
1}"#]);
}

#[test]
fn multiple_events_in_one_push() {
    let mut p = SseParser::new();
    let ev = p.push(b"data: one\n\ndata: two\n\n");
    assert_eq!(ev, vec!["one", "two"]);
}

#[test]
fn done_sentinel() {
    let mut p = SseParser::new();
    let ev = p.push(b"data: [DONE]\n\n");
    assert_eq!(ev, vec!["[DONE]"]);
}

#[test]
fn garbage_bytes_tolerated() {
    let mut p = SseParser::new();
    let ev = p.push(b"\x00\xffgarbage\n\n");
    assert!(ev.is_empty() || ev.len() == 1);
}

#[test]
fn finish_flushes_without_blank_line() {
    let mut p = SseParser::new();
    assert!(p.push(b"data: tail").is_empty());
    let ev = p.finish();
    assert_eq!(ev, vec!["tail"]);
}

#[test]
fn empty_delta_from_role_chunk() {
    let payload = r#"{"choices":[{"delta":{"role":"assistant"}}]}"#;
    assert_eq!(extract_delta(payload), None);
    let payload = r#"{"choices":[{"delta":{"content":"你好"}}]}"#;
    assert_eq!(extract_delta(payload), Some("你好".to_string()));
    let payload = r#"{"choices":[{"finish_reason":"stop"}]}"#;
    assert_eq!(extract_delta(payload), None);
    assert_eq!(extract_delta("[DONE]"), None);
    assert_eq!(extract_delta("not json"), None);
}

#[test]
fn data_without_space_and_empty_data_lines() {
    let mut p = SseParser::new();
    assert_eq!(p.push(b"data:x\n\n"), vec!["x"]);
    // an event with no data line yields nothing
    assert!(p.push(b"event: ping\n\n").is_empty());
}

#[test]
fn split_push_matches_whole_push() {
    let bytes: &[u8] = b"data: one\r\n\r\ndata: tw";
    let rest: &[u8] = b"o\n\n: c\ndata: three\n";
    let mut whole = SseParser::new();
    let mut all = bytes.to_vec();
    all.extend_from_slice(rest);
    let mut a = whole.push(&all);
    a.extend(whole.finish());
    let mut split = SseParser::new();
    let mut b = split.push(bytes);
    b.extend(split.push(rest));
    b.extend(split.finish());
    assert_eq!(a, b);
    assert_eq!(a, vec!["one", "two", "three"]);
}

#[test]
fn finish_twice_is_empty() {
    let mut p = SseParser::new();
    p.push(b"data: x");
    assert_eq!(p.finish(), vec!["x"]);
    assert!(p.finish().is_empty());
}

#[test]
fn invalid_utf8_in_data_becomes_replacement_char() {
    let mut p = SseParser::new();
    let ev = p.push(b"data: a\xffb\n\n");
    assert_eq!(ev, vec!["a\u{FFFD}b"]);
}

#[test]
fn split_inside_a_character_matches_whole_push() {
    let all = "data: 你好\n\ndata: 世界\n\n".as_bytes().to_vec();
    for cut in 0..=all.len() {
        let mut whole = SseParser::new();
        let mut a = whole.push(&all);
        a.extend(whole.finish());
        let mut split = SseParser::new();
        let mut b = split.push(&all[..cut]);
        b.extend(split.push(&all[cut..]));
        b.extend(split.finish());
        assert_eq!(a, b, "cut at {cut}");
        assert_eq!(a, vec!["你好", "世界"]);
    }
}
