use brochat::llm::lorebook::{build_lore_injection, lore_for_book, scan_text_from};
use brochat::models::{LoreEntry, Lorebook, Message};

fn entry(keys: &[&str], content: &str, constant: bool, order: i64) -> LoreEntry {
    LoreEntry {
        id: String::new(),
        keys: keys.iter().map(|s| s.to_string()).collect(),
        secondary_keys: vec![],
        comment: String::new(),
        content: content.to_string(),
        constant,
        selective: false,
        insertion_order: order,
        enabled: true,
        position: "before_char".into(),
        created_at: String::new(),
        updated_at: String::new(),
    }
}

fn message(id: &str, role: &str, content: &str, seq: i64) -> Message {
    Message {
        id: id.into(),
        conversation_id: "c".into(),
        role: role.into(),
        content: content.into(),
        seq,
        created_at: String::new(),
    }
}

#[test]
fn constant_always_injected() {
    let e = entry(&[], "常驻条目", true, 0);
    let out = build_lore_injection(&[e], "", 1000);
    assert_eq!(out.before_char, vec!["常驻条目"]);
}

#[test]
fn keyword_activation() {
    let e = entry(&["咖啡馆", "咖啡"], "咖啡相关的设定", false, 0);
    let out = build_lore_injection(&[e.clone()], "我们去咖啡馆吧", 1000);
    assert_eq!(out.before_char, vec!["咖啡相关的设定"]);
    let out = build_lore_injection(&[e], "我们去公园吧", 1000);
    assert!(out.is_empty());
}

#[test]
fn disabled_and_empty_skipped() {
    let mut e = entry(&["x"], "内容", false, 0);
    e.enabled = false;
    let out = build_lore_injection(&[e], "x", 1000);
    assert!(out.is_empty());

    let e = entry(&["x"], "   ", false, 0);
    let out = build_lore_injection(&[e], "x", 1000);
    assert!(out.is_empty());
}

#[test]
fn selective_needs_secondary_key() {
    let mut e = entry(&["林晓"], "林晓的店", false, 0);
    e.selective = true;
    e.secondary_keys = vec!["吧台".into()];
    let out = build_lore_injection(&[e.clone()], "林晓在吗", 1000);
    assert!(out.is_empty());
    let out = build_lore_injection(&[e], "林晓在吧台后面", 1000);
    assert_eq!(out.before_char, vec!["林晓的店"]);
}

#[test]
fn budget_stops_by_insertion_order() {
    let e1 = entry(&["a"], &"甲".repeat(26), false, 0);
    let e2 = entry(&["b"], &"乙".repeat(26), false, 1);
    let out = build_lore_injection(&[e1, e2], "a b", 40);
    assert_eq!(out.before_char.len(), 1);
    assert!(out.before_char[0].starts_with("甲"));
}

#[test]
fn insertion_order_sorting() {
    let e1 = entry(&["a"], "第一", false, 5);
    let e2 = entry(&["b"], "第二", false, 1);
    let out = build_lore_injection(&[e1, e2], "a b", 1000);
    assert_eq!(out.before_char, vec!["第二", "第一"]);
}

#[test]
fn position_grouping() {
    let mut e1 = entry(&["a"], "前部条目", false, 0);
    e1.position = "before_char".into();
    let mut e2 = entry(&["b"], "后部条目", false, 1);
    e2.position = "after_char".into();
    let out = build_lore_injection(&[e1, e2], "a b", 1000);
    assert_eq!(out.before_char, vec!["前部条目"]);
    assert_eq!(out.after_char, vec!["后部条目"]);
}

#[test]
fn scan_text_takes_last_n() {
    let msgs = vec![
        message("1", "user", "第一条", 1),
        message("2", "assistant", "第二条", 2),
        message("3", "user", "第三条", 3),
    ];
    let text = scan_text_from(&msgs, 2);
    assert!(text.contains("第二条"));
    assert!(text.contains("第三条"));
    assert!(!text.contains("第一条"));
}

#[test]
fn scan_text_newest_first_joined_by_newline() {
    let msgs = vec![message("1", "user", "甲", 1), message("2", "assistant", "乙", 2)];
    assert_eq!(scan_text_from(&msgs, 5), "乙\n甲");
    assert_eq!(scan_text_from(&msgs, 0), "");
}

#[test]
fn keys_match_case_insensitively_after_trimming() {
    let e = entry(&["  Coffee  "], "设定", false, 0);
    let out = build_lore_injection(&[e], "I LIKE COFFEE", 1000);
    assert_eq!(out.before_char, vec!["设定"]);
    // a blank key never matches
    let e = entry(&["   "], "设定", false, 0);
    assert!(build_lore_injection(&[e], "anything", 1000).is_empty());
}

#[test]
fn equal_insertion_order_keeps_list_order() {
    let e1 = entry(&["a"], "先", false, 3);
    let e2 = entry(&["a"], "后", false, 3);
    let out = build_lore_injection(&[e1, e2], "a", 1000);
    assert_eq!(out.before_char, vec!["先", "后"]);
}

#[test]
fn lore_for_book_needs_enabled_book_with_entries() {
    let history = vec![message("1", "user", "来杯咖啡", 1)];
    let mut book = Lorebook {
        id: "b".into(),
        character_id: "c".into(),
        name: "书".into(),
        description: String::new(),
        scan_depth: 4,
        token_budget: 500,
        recursive_scanning: false,
        enabled: false,
        entries: vec![entry(&["咖啡"], "秘鲁豆子", false, 0)],
        created_at: String::new(),
        updated_at: String::new(),
    };
    assert!(lore_for_book(Some(&book), &history).is_empty());
    book.enabled = true;
    assert_eq!(lore_for_book(Some(&book), &history).before_char, vec!["秘鲁豆子"]);
    book.entries.clear();
    assert!(lore_for_book(Some(&book), &history).is_empty());
    assert!(lore_for_book(None, &history).is_empty());
}
