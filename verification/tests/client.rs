use brochat::json::{parse_json_text, Json};
use brochat::llm::client::{build_body, build_request_messages, chat_url, model_ids, models_url};
use brochat::llm::context::Msg;
use brochat::llm::lorebook::LoreInjection;
use brochat::models::{Character, Message};

fn temperature() -> Json {
    parse_json_text("0.8").unwrap()
}

fn character(name: &str, system_prompt: Option<&str>) -> Character {
    Character {
        id: "c1".into(),
        name: name.into(),
        description: "毒舌".into(),
        personality: "冷静".into(),
        scenario: "咖啡馆".into(),
        first_messages: vec![],
        example_messages: "{{char}}：示例对话".into(),
        system_prompt: system_prompt.map(|s| s.to_string()),
        tags: vec![],
        nsfw: false,
        avatar: None,
        extensions: None,
        created_at: String::new(),
        updated_at: String::new(),
    }
}

fn message(id: &str, role: &str, content: &str, seq: i64) -> Message {
    Message {
        id: id.into(),
        conversation_id: "c".into(),
        role: role.into(),
        content: content.into(),
        seq,
        created_at: String::new(),
    }
}

#[test]
fn url_normalization() {
    assert_eq!(chat_url("https://api.deepseek.com"), "https://api.deepseek.com/v1/chat/completions");
    assert_eq!(chat_url("https://api.deepseek.com/v1/"), "https://api.deepseek.com/v1/chat/completions");
    assert_eq!(chat_url("http://localhost:11434/v1"), "http://localhost:11434/v1/chat/completions");
}

#[test]
fn url_normalization_trims_and_strips_slashes() {
    assert_eq!(chat_url("  http://h/v1//  "), "http://h/v1/chat/completions");
    assert_eq!(models_url("http://h"), "http://h/v1/models");
    assert_eq!(models_url("http://h/v1/"), "http://h/v1/models");
}

#[test]
fn body_uses_max_tokens_for_common_models() {
    let body = build_body("deepseek-chat", 1024, &temperature(), &[]);
    assert!(body.get("max_tokens").is_some());
    assert!(body.get("max_completion_tokens").is_none());
}

#[test]
fn body_uses_max_completion_tokens_for_new_openai_models() {
    let body = build_body("gpt-5-mini", 1024, &temperature(), &[]);
    assert!(body.get("max_completion_tokens").is_some());
    assert!(body.get("max_tokens").is_none());

    let body = build_body("o4-mini", 1024, &temperature(), &[]);
    assert!(body.get("max_completion_tokens").is_some());
}

#[test]
fn body_layout_and_values() {
    let msgs = vec![Msg::new("user", "hi")];
    let body = build_body("GPT-5", 77, &temperature(), &msgs);
    let text = brochat::json::to_compact_string(&body);
    assert_eq!(
        text,
        r#"{"model":"GPT-5","messages":[{"role":"user","content":"hi"}],"stream":true,"temperature":0.8,"max_completion_tokens":77}"#
    );
    assert_eq!(body.get("stream").unwrap().as_bool(), Some(true));
}

#[test]
fn request_messages_include_system_and_substitute_tokens() {
    let c = character("林晓", None);
    let history = vec![
        message("1", "assistant", "{{char}}：欢迎光临", 1),
        message("2", "user", "{{user}}：你好", 2),
    ];
    let msgs = build_request_messages(&c, "", 8192, &history, &LoreInjection::default());
    assert_eq!(msgs[0].role, "system");
    let sys = &msgs[0].content;
    assert!(sys.contains("林晓：示例对话"), "示例对话应替换 {{char}}");
    assert!(sys.contains("毒舌"));
    assert!(msgs.iter().any(|m| m.content == "林晓：欢迎光临"));
    assert!(msgs.iter().any(|m| m.content == "用户：你好"));
}

#[test]
fn system_message_layout() {
    let c = character("林晓", Some("  自定义  "));
    let lore = LoreInjection { before_char: vec!["前".into(), "  ".into()], after_char: vec![" 后 ".into()] };
    let msgs = build_request_messages(&c, "默认", 8192, &[], &lore);
    assert_eq!(msgs.len(), 1);
    assert_eq!(
        msgs[0].content,
        "自定义\n\n前\n\n【角色设定·描述】\n毒舌\n\n【角色设定·性格】\n冷静\n\n【角色设定·场景】\n咖啡馆\n\n后\n\n【示例对话】\n林晓：示例对话"
    );
    // a blank own prompt falls back to the default one
    let c = character("林晓", Some("   "));
    let msgs = build_request_messages(&c, "默认", 8192, &[], &LoreInjection::default());
    assert!(msgs[0].content.starts_with("默认\n\n【角色设定·描述】"));
}

#[test]
fn no_system_message_without_parts() {
    let mut c = character("x", None);
    c.description = String::new();
    c.personality = " ".into();
    c.scenario = String::new();
    c.example_messages = String::new();
    let history = vec![message("1", "user", "hi", 1)];
    let msgs = build_request_messages(&c, "", 100, &history, &LoreInjection::default());
    assert_eq!(msgs.len(), 1);
    assert_eq!(msgs[0].role, "user");
}

#[test]
fn model_ids_read_data_array() {
    let v = parse_json_text(r#"{"data":[{"id":"deepseek-chat"},{"x":1},{"id":5},{"id":"deepseek-reasoner"}]}"#).unwrap();
    assert_eq!(model_ids(&v), vec!["deepseek-chat", "deepseek-reasoner"]);
    let v = parse_json_text(r#"{"models":[]}"#).unwrap();
    assert!(model_ids(&v).is_empty());
}
