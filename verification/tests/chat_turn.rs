use brochat::chat::{
    auto_title, busy_message, finish_event, is_active_request, partial_saved, prepare_message,
    regenerate_target, should_auto_title, should_save_reply, ChatEvent,
};
use brochat::llm::stream::{
    client_error_message, failed_result, http_error_message, request_error_message, truncate, ChatStream,
    StreamResult,
};
use brochat::models::Message;

fn result(text: &str, error: Option<&str>, cancelled: bool) -> StreamResult {
    StreamResult { text: text.into(), error: error.map(|e| e.to_string()), cancelled }
}

fn message(role: &str) -> Message {
    Message {
        id: "m".into(),
        conversation_id: "c".into(),
        role: role.into(),
        content: "x".into(),
        seq: 1,
        created_at: String::new(),
    }
}

#[test]
fn sent_message_is_trimmed_and_not_empty() {
    assert_eq!(prepare_message("  你好  ").unwrap(), "你好");
    assert_eq!(prepare_message(" \n ").unwrap_err(), "消息不能为空");
    assert_eq!(busy_message(), "已有生成中的回复，请先停止");
}

#[test]
fn title_from_first_user_message() {
    assert!(should_auto_title(1));
    assert!(!should_auto_title(2));
    assert_eq!(auto_title("短标题"), "短标题");
    let long = "一二三四五六七八九十一二三四五六七八九十一二三四五";
    assert_eq!(auto_title(long), "一二三四五六七八九十一二三四五六七八九十一二三四…");
    assert_eq!(auto_title(&long[..long.len() - 3]), &long[..long.len() - 3]);
}

#[test]
fn truncate_marks_cuts() {
    assert_eq!(truncate("abc", 3), "abc");
    assert_eq!(truncate("abcd", 3), "abc…");
    assert_eq!(truncate("", 0), "");
    assert_eq!(truncate("a", 0), "…");
}

#[test]
fn error_messages() {
    assert_eq!(client_error_message("x"), "HTTP 客户端初始化失败: x");
    assert_eq!(request_error_message("y"), "请求失败: y");
    let body = "e".repeat(301);
    let m = http_error_message("401 Unauthorized", &body);
    assert_eq!(m, format!("HTTP 401 Unauthorized: {}…", "e".repeat(300)));
    let f = failed_result("z".into());
    assert!(f.text.is_empty() && f.error.as_deref() == Some("z") && !f.cancelled);
}

#[test]
fn regenerate_removes_last_assistant_only() {
    assert_eq!(regenerate_target(&[message("user"), message("assistant")]), Some(1));
    assert_eq!(regenerate_target(&[message("assistant"), message("user")]), None);
    assert_eq!(regenerate_target(&[]), None);
}

#[test]
fn active_request_matching() {
    assert!(is_active_request(Some("r1"), "r1"));
    assert!(!is_active_request(Some("r1"), "r2"));
    assert!(!is_active_request(None, "r1"));
}

#[test]
fn saving_and_reporting_outcomes() {
    let ok_empty = result("", None, false);
    assert!(should_save_reply(&ok_empty));
    assert!(!partial_saved(&ok_empty));
    assert_eq!(finish_event(&ok_empty, Some("m1".into())), ChatEvent::Done { message_id: "m1".into() });
    assert_eq!(
        finish_event(&ok_empty, None),
        ChatEvent::Error { message: "回复保存失败".into(), partial_saved: false }
    );

    let cancelled = result("部分", None, true);
    assert!(should_save_reply(&cancelled));
    assert_eq!(finish_event(&cancelled, Some("m".into())), ChatEvent::Cancelled { partial_saved: true });

    let failed_empty = result("", Some("网络中断: x"), false);
    assert!(!should_save_reply(&failed_empty));
    assert_eq!(
        finish_event(&failed_empty, None),
        ChatEvent::Error { message: "网络中断: x".into(), partial_saved: false }
    );
}

fn delta(content: &str) -> String {
    format!("data: {{\"choices\":[{{\"delta\":{{\"content\":\"{content}\"}}}}]}}\r\n\r\n")
}

#[test]
fn stream_collects_deltas_until_done() {
    let mut s = ChatStream::new();
    let mut first = delta("你好").into_bytes();
    first.extend_from_slice(b"data: {\"choices\":[{\"delta\":{\"role\":\"assistant\"}}]}\n\n");
    let split = first.len() - 3;
    assert_eq!(s.on_bytes(&first[..split]), vec!["你好"]);
    assert!(s.on_bytes(&first[split..]).is_empty());
    let mut tail = delta("世界").into_bytes();
    tail.extend_from_slice(b"data: [DONE]\n\n");
    tail.extend_from_slice(delta("dropped").as_bytes());
    assert_eq!(s.on_bytes(&tail), vec!["世界"]);
    assert!(s.is_done());
    let (rest, r) = s.finish();
    assert!(rest.is_empty());
    assert_eq!(r.text, "你好世界");
    assert!(r.error.is_none() && !r.cancelled);
}

#[test]
fn stream_error_cancel_and_eof() {
    let mut s = ChatStream::new();
    s.on_bytes(delta("部分").as_bytes());
    s.on_error("connection reset");
    assert!(s.is_done());
    let (_, r) = s.finish();
    assert_eq!(r.text, "部分");
    assert_eq!(r.error.as_deref(), Some("网络中断: connection reset"));

    let mut s = ChatStream::new();
    s.on_cancel();
    let (_, r) = s.finish();
    assert!(r.cancelled && r.text.is_empty());

    // the last event without its blank line is still read at the end
    let mut s = ChatStream::new();
    let d = delta("尾");
    s.on_bytes(d.trim_end().as_bytes());
    s.on_eof();
    let (rest, r) = s.finish();
    assert_eq!(rest, vec!["尾"]);
    assert_eq!(r.text, "尾");
}

#[test]
fn empty_deltas_are_not_passed_on() {
    let mut s = ChatStream::new();
    let mut bytes = delta("").into_bytes();
    bytes.extend_from_slice(delta("a").as_bytes());
    assert_eq!(s.on_bytes(&bytes), vec!["a"]);
    assert!(s.on_bytes(delta("").as_bytes()).is_empty());
    s.on_bytes(b"data: {\"choices\":[{\"delta\":{\"content\":\"\"}}]}");
    let (rest, r) = s.finish();
    assert!(rest.is_empty());
    assert_eq!(r.text, "a");
}
