use brochat::llm::context::{estimate_tokens, substitute_tokens, trim_history, Msg};

fn msg(role: &str, content: &str) -> Msg {
    Msg::new(role, content)
}

#[test]
fn cjk_tokens_heavier_than_ascii() {
    assert_eq!(estimate_tokens("你好世界你好世界"), 8);
    assert_eq!(estimate_tokens("abcdefghijklmnopqrstuvwxyz123456"), 8);
    assert_eq!(estimate_tokens("你好 world"), 4);
}

#[test]
fn substitute_both_tokens() {
    let text = "{{char}}：你好 {{user}}，我是{{char}}";
    assert_eq!(substitute_tokens(text, "林晓"), "林晓：你好 用户，我是林晓");
}

#[test]
fn trim_keeps_short_history() {
    let msgs = vec![msg("assistant", "嗨"), msg("user", "你好")];
    let out = trim_history(&msgs, 8192);
    assert_eq!(out.len(), 2);
}

#[test]
fn trim_drops_pairs_from_front() {
    let msgs = vec![
        msg("user", "aaaaaaaaaaaaaaaaaaaaaaaaaaaaaaaa"),
        msg("assistant", "bbbbbbbbbbbbbbbbbbbbbbbbbbbbbbbb"),
        msg("user", "cccccccccccccccccccccccccccccccc"),
        msg("assistant", "dddddddddddddddddddddddddddddddd"),
    ];
    let out = trim_history(&msgs, 30);
    assert_eq!(out.len(), 2);
    assert_eq!(out[0].content, "cccccccccccccccccccccccccccccccc");
    assert_eq!(out[1].content, "dddddddddddddddddddddddddddddddd");
}

#[test]
fn trim_never_drops_newest_user() {
    let msgs = vec![
        msg("assistant", "开场白"),
        msg("user", "第一条"),
        msg("assistant", "回复一"),
        msg("user", "最新的一条消息"),
    ];
    let out = trim_history(&msgs, 2);
    assert_eq!(out.len(), 1);
    assert_eq!(out[0].content, "最新的一条消息");
}

#[test]
fn trim_zero_budget() {
    let msgs = vec![msg("assistant", "开场白"), msg("user", "你好")];
    let out = trim_history(&msgs, 0);
    assert_eq!(out.len(), 1);
    assert_eq!(out[0].content, "你好");

    let out = trim_history(&[msg("assistant", "只有我")], 0);
    assert_eq!(out.len(), 1);

    let out = trim_history(&[], 0);
    assert!(out.is_empty());
}

#[test]
fn trim_greeting_first_works() {
    let msgs = vec![
        msg("assistant", "欢迎光临"),
        msg("user", "来杯咖啡"),
        msg("assistant", "好的"),
        msg("user", "谢谢"),
    ];
    let out = trim_history(&msgs, 10);
    assert_eq!(out.len(), 1);
    assert_eq!(out[0].content, "谢谢");
    let out = trim_history(&msgs, 20);
    assert_eq!(out.len(), 2);
    assert_eq!(out[0].content, "好的");
    assert_eq!(out[1].content, "谢谢");
}

#[test]
fn token_estimate_rounds_up_and_counts_cjk_punctuation() {
    assert_eq!(estimate_tokens(""), 0);
    assert_eq!(estimate_tokens("a"), 1);
    assert_eq!(estimate_tokens("abcde"), 2);
    // full-width punctuation and kana are CJK
    assert_eq!(estimate_tokens("，。カ"), 3);
}

#[test]
fn substitution_leaves_other_braces() {
    assert_eq!(substitute_tokens("{{chars}} {{User}}", "x"), "{{chars}} {{User}}");
    assert_eq!(substitute_tokens("{{char}}{{char}}", ""), "");
}

#[test]
fn trim_result_is_a_suffix_within_budget() {
    let msgs = vec![
        msg("user", "一二三四五六七八九十"),
        msg("assistant", "一二三四五六七八九十"),
        msg("user", "一二三四五六七八九十"),
        msg("assistant", "一二三四五六七八九十"),
        msg("user", "一二三四五六七八九十"),
    ];
    // each costs 14; dropping one pair leaves 42, within a budget of 45
    let out = trim_history(&msgs, 45);
    assert_eq!(out.len(), 3);
    let total: usize = out.iter().map(|m| estimate_tokens(&m.content) + 4).sum();
    assert!(total <= 45);
    // with 30, pairs go while more than two remain, leaving the newest alone
    assert_eq!(trim_history(&msgs, 30).len(), 1);
    assert_eq!(out.last().unwrap().role, "user");
    // a budget that fits everything keeps everything
    assert_eq!(trim_history(&msgs, 70).len(), 5);
}
