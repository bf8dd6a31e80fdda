use brochat::llm::client::build_request_messages;
use brochat::llm::context::estimate_tokens;
use brochat::llm::lorebook::LoreInjection;
use brochat::models::{Character, Message};

fn character() -> Character {
    Character {
        id: "c".into(),
        name: "长对话测试".into(),
        description: "测试描述".into(),
        personality: "耐心".into(),
        scenario: "会议室".into(),
        first_messages: vec![],
        example_messages: String::new(),
        system_prompt: Some("你是会议记录助手".into()),
        tags: vec![],
        nsfw: false,
        avatar: None,
        extensions: None,
        created_at: String::new(),
        updated_at: String::new(),
    }
}

/// A conversation as the store lists it: seq from 1, in order.
struct History(Vec<Message>);

impl History {
    fn new() -> Self {
        History(Vec::new())
    }
    fn insert(&mut self, role: &str, content: &str) {
        let seq = self.0.len() as i64 + 1;
        self.0.push(Message {
            id: format!("m{seq}"),
            conversation_id: "conv".into(),
            role: role.into(),
            content: content.into(),
            seq,
            created_at: String::new(),
        });
    }
}

fn build(history: &[Message], max_context_tokens: i64) -> Vec<brochat::llm::context::Msg> {
    // the default settings have an empty system prompt
    build_request_messages(&character(), "", max_context_tokens, history, &LoreInjection::default())
}

#[test]
fn three_hundred_messages_stay_within_budget() {
    let mut h = History::new();
    for i in 0..150 {
        h.insert("user", &format!("这是第 {i} 轮的用户问题，内容带有一些上下文信息以便模拟真实对话长度。"));
        h.insert("assistant", &format!("这是第 {i} 轮的助手回复，内容同样带有一定的长度来模拟真实流式回复的场景。"));
    }
    h.insert("user", "第 150 轮，这是最新的一条用户消息。");
    let history = h.0;
    assert_eq!(history.len(), 301);

    let msgs = build(&history, 800);

    assert!(msgs.iter().any(|m| m.role == "system"));
    let sys = msgs.iter().find(|m| m.role == "system").unwrap();
    assert!(sys.content.contains("会议记录助手"));
    assert!(sys.content.contains("测试描述"));

    let last = msgs.last().unwrap();
    assert_eq!(last.role, "user");
    assert!(last.content.contains("最新的一条用户消息"), "最新消息应保留: {}", last.content);

    assert!(msgs.len() < 300, "应裁剪旧消息: {}", msgs.len());

    let history_cost: usize = msgs
        .iter()
        .filter(|m| m.role != "system")
        .map(|m| estimate_tokens(&m.content) + 4)
        .sum();
    let last_cost = estimate_tokens(&last.content) + 4;
    assert!(history_cost <= 800 + last_cost, "历史 {history_cost} 超出预算 800 + 最新消息 {last_cost}");
}

#[test]
fn big_budget_keeps_everything() {
    let mut h = History::new();
    for i in 0..150 {
        h.insert("user", &format!("问题 {i}"));
        h.insert("assistant", &format!("回答 {i}"));
    }
    let msgs = build(&h.0, 10_000_000);
    assert_eq!(msgs.len(), 301);
}

#[test]
fn empty_history_only_system() {
    let msgs = build(&[], 8192);
    assert_eq!(msgs.len(), 1);
    assert_eq!(msgs[0].role, "system");
}

#[test]
fn zero_budget_keeps_newest_user_only() {
    let mut h = History::new();
    h.insert("user", "旧问题");
    h.insert("assistant", "旧回答");
    h.insert("user", "新问题");
    let msgs = build(&h.0, 0);
    assert_eq!(msgs.len(), 2);
    assert_eq!(msgs[1].content, "新问题");
}

#[test]
fn negative_budget_reads_as_huge() {
    let mut h = History::new();
    h.insert("user", "a");
    h.insert("assistant", "b");
    // a negative setting is taken as an unsigned size, so nothing is cut
    let msgs = build(&h.0, -1);
    assert_eq!(msgs.len(), 3);
}
