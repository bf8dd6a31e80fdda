use brochat::cards::spec;
use brochat::json::parse_json_text;
use brochat::llm::client::build_request_messages;
use brochat::llm::lorebook::{build_lore_injection, scan_text_from};
use brochat::models::{Character, LoreEntry, LoreEntryInput, Lorebook, LorebookInput, Message};
use brochat::records::pick_greeting;

fn char_input_character() -> Character {
    Character {
        id: "c".into(),
        name: "林晓".into(),
        description: "咖啡馆店长".into(),
        personality: "冷静".into(),
        scenario: "深夜咖啡馆".into(),
        first_messages: vec!["开场一".into(), "开场二".into()],
        example_messages: String::new(),
        system_prompt: None,
        tags: vec![],
        nsfw: false,
        avatar: None,
        extensions: None,
        created_at: String::new(),
        updated_at: String::new(),
    }
}

fn lore_input() -> LorebookInput {
    LorebookInput {
        name: "咖啡馆世界观".into(),
        description: "测试世界书".into(),
        scan_depth: 4,
        token_budget: 500,
        recursive_scanning: false,
        enabled: true,
        entries: vec![
            LoreEntryInput {
                keys: vec!["咖啡".into()],
                secondary_keys: vec![],
                comment: "豆子".into(),
                content: "店里只用秘鲁的咖啡豆。".into(),
                constant: false,
                selective: false,
                insertion_order: 1,
                enabled: true,
                position: "before_char".into(),
            },
            LoreEntryInput {
                keys: vec![],
                secondary_keys: vec![],
                comment: "常驻".into(),
                content: "角落里有一台老唱片机。".into(),
                constant: true,
                selective: false,
                insertion_order: 2,
                enabled: true,
                position: "after_char".into(),
            },
        ],
    }
}

/// What saving a world book and reading it back gives.
fn saved(character_id: &str, input: &LorebookInput) -> Lorebook {
    let mut entries: Vec<LoreEntry> = input
        .entries
        .iter()
        .enumerate()
        .map(|(i, e)| LoreEntry {
            id: format!("e{i}"),
            keys: e.keys.clone(),
            secondary_keys: e.secondary_keys.clone(),
            comment: e.comment.clone(),
            content: e.content.clone(),
            constant: e.constant,
            selective: e.selective,
            insertion_order: e.insertion_order,
            enabled: e.enabled,
            position: e.position.clone(),
            created_at: String::new(),
            updated_at: String::new(),
        })
        .collect();
    entries.sort_by_key(|e| e.insertion_order);
    Lorebook {
        id: "b".into(),
        character_id: character_id.into(),
        name: input.name.clone(),
        description: input.description.clone(),
        scan_depth: input.scan_depth,
        token_budget: input.token_budget,
        recursive_scanning: input.recursive_scanning,
        enabled: input.enabled,
        entries,
        created_at: String::new(),
        updated_at: String::new(),
    }
}

#[test]
fn character_book_roundtrip_via_spec() {
    let st_book = parse_json_text(
        r#"{"name":"w1","description":"d","scan_depth":6,"token_budget":800,"recursive_scanning":false,"extensions":{},"entries":[{"keys":["钥匙","key"],"secondary_keys":["门"],"comment":"重要条目","content":"金色钥匙能打开地下室的门。","constant":false,"selective":true,"insertion_order":3,"enabled":true,"position":"after_char","extensions":{}}]}"#,
    )
    .unwrap();

    let input = spec::character_book_to_lore_input(&st_book).unwrap();
    assert_eq!(input.name, "w1");
    assert_eq!(input.scan_depth, 6);
    assert_eq!(input.entries.len(), 1);
    assert_eq!(input.entries[0].keys, vec!["钥匙", "key"]);
    assert!(input.entries[0].selective);
    assert_eq!(input.entries[0].position, "after_char");

    let book = saved("c", &input);
    let back = spec::lorebook_to_character_book(&book);
    assert_eq!(back.get("name").unwrap().as_str().unwrap(), "w1");
    assert_eq!(back.get("scan_depth").unwrap().as_i64(), Some(6));
    let entries = back.get("entries").unwrap().as_array().unwrap();
    assert_eq!(entries[0].get("keys").unwrap(), &parse_json_text(r#"["钥匙","key"]"#).unwrap());
    assert_eq!(entries[0].get("position").unwrap().as_str().unwrap(), "after_char");
}

#[test]
fn lore_injected_into_request_messages() {
    let c = char_input_character();
    let book = saved(&c.id, &lore_input());
    let history = vec![Message {
        id: "1".into(),
        conversation_id: "conv".into(),
        role: "user".into(),
        content: "来杯咖啡".into(),
        seq: 1,
        created_at: String::new(),
    }];

    let scan = scan_text_from(&history, book.scan_depth as usize);
    let lore = build_lore_injection(&book.entries, &scan, book.token_budget as usize);
    let msgs = build_request_messages(&c, "", 8192, &history, &lore);

    let sys = msgs.iter().find(|m| m.role == "system").unwrap();
    let content = &sys.content;
    assert!(content.contains("秘鲁"), "关键词条目应注入: {content}");
    assert!(content.contains("唱片机"));
    let desc_pos = content.find("【角色设定·描述】").unwrap();
    let lore_pos = content.find("秘鲁").unwrap();
    assert!(lore_pos < desc_pos, "before_char 条目应排在角色设定前");
    let scene_pos = content.find("【角色设定·场景】").unwrap();
    let after_pos = content.find("唱片机").unwrap();
    assert!(after_pos > scene_pos, "after_char 条目应排在角色设定后");
}

#[test]
fn greeting_index_selects_specific_greeting() {
    let c = char_input_character();
    assert_eq!(pick_greeting(&c.first_messages, Some(1)).unwrap(), "开场二");
    assert_eq!(pick_greeting(&c.first_messages, Some(99)).unwrap(), "开场一");
    assert_eq!(pick_greeting(&c.first_messages, None).unwrap(), "开场一");
}

#[test]
fn greeting_blank_or_missing_gives_none() {
    assert!(pick_greeting(&vec![], None).is_none());
    assert!(pick_greeting(&vec!["  ".to_string()], Some(0)).is_none());
}

#[test]
fn character_book_defaults() {
    let v = parse_json_text(r#"{"entries":[{"keys":["a",1],"insertion_order":"x"}]}"#).unwrap();
    let b = spec::character_book_to_lore_input(&v).unwrap();
    assert_eq!(b.name, "世界书");
    assert_eq!(b.scan_depth, 4);
    assert_eq!(b.token_budget, 500);
    assert!(b.enabled);
    let e = &b.entries[0];
    assert_eq!(e.keys, vec!["a"]);
    assert_eq!(e.insertion_order, 0);
    assert!(e.enabled);
    assert_eq!(e.position, "before_char");
    assert!(spec::character_book_to_lore_input(&parse_json_text(r#"{"entries":{}}"#).unwrap()).is_none());
    assert!(spec::character_book_to_lore_input(&parse_json_text("[]").unwrap()).is_none());
}

#[test]
fn exported_book_reads_back() {
    let book = saved("c", &lore_input());
    let back = spec::lorebook_to_character_book(&book);
    let input = spec::character_book_to_lore_input(&back).unwrap();
    assert_eq!(input.name, book.name);
    assert_eq!(input.description, book.description);
    assert_eq!(input.scan_depth, book.scan_depth);
    assert_eq!(input.token_budget, book.token_budget);
    assert_eq!(input.entries.len(), book.entries.len());
    for (a, b) in input.entries.iter().zip(book.entries.iter()) {
        assert_eq!(a.keys, b.keys);
        assert_eq!(a.content, b.content);
        assert_eq!(a.constant, b.constant);
        assert_eq!(a.insertion_order, b.insertion_order);
        assert_eq!(a.position, b.position);
    }
}

#[test]
fn worldbook_file_text() {
    let input = spec::worldbook_from_text(r#"{"data":{"name":"包装","entries":[]}}"#).unwrap();
    assert_eq!(input.name, "包装");
    assert_eq!(spec::worldbook_from_text(r#"{"name":"x"}"#).unwrap_err(), "不是有效的世界书文件（缺少 entries）");
    assert!(spec::worldbook_from_text("{").unwrap_err().starts_with("JSON 解析失败: "));
}
