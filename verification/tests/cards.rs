use brochat::avatar;
use brochat::cards::io::{extension, card_file_contents, card_from_json_text, card_from_png, import_format, CardFormat};
use brochat::cards::png_chunks::{build_chunk, embed_chara};
use brochat::cards::spec::{self, CharaData, V2Card};
use brochat::error::AppError;
use brochat::json::{parse_json_text, to_compact_string};
use brochat::models::{Character, CharacterInput};
use brochat::records::{extensions_from_text, parse_string_array, string_array_text};

/// What storing an input and reading it back gives (lists and extensions go
/// through their stored text, the avatar through its bytes).
fn stored(input: &CharacterInput) -> Character {
    let avatar = avatar::decode(input.avatar.as_deref()).unwrap().map(|b| avatar::encode(&b));
    let ext_text = input.extensions.as_ref().map(to_compact_string);
    Character {
        id: "id-1".into(),
        name: input.name.clone(),
        description: input.description.clone(),
        personality: input.personality.clone(),
        scenario: input.scenario.clone(),
        first_messages: parse_string_array(&string_array_text(&input.first_messages)),
        example_messages: input.example_messages.clone(),
        system_prompt: input.system_prompt.clone(),
        tags: parse_string_array(&string_array_text(&input.tags)),
        nsfw: input.nsfw,
        avatar,
        extensions: extensions_from_text(ext_text.as_deref()),
        created_at: "t".into(),
        updated_at: "t".into(),
    }
}

fn fixture_png() -> Vec<u8> {
    let mut png = Vec::new();
    png.extend_from_slice(&[0x89, 0x50, 0x4E, 0x47, 0x0D, 0x0A, 0x1A, 0x0A]);
    let mut ihdr = Vec::new();
    ihdr.extend_from_slice(&1u32.to_be_bytes());
    ihdr.extend_from_slice(&1u32.to_be_bytes());
    ihdr.extend_from_slice(&[8, 6, 0, 0, 0]);
    png.extend_from_slice(&build_chunk(b"IHDR", &ihdr));
    png.extend_from_slice(&build_chunk(b"IDAT", &[0x78, 0x9C, 0x63, 0x00]));
    png.extend_from_slice(&build_chunk(b"IEND", &[]));
    png
}

fn full_card_json() -> String {
    r#"{"spec":"chara_card_v2","spec_version":"2.0","data":{"name":"林晓","description":"咖啡馆的常客，话少但观察力强。","personality":"冷静、毒舌、嘴硬心软","scenario":"你走进一家深夜还亮着灯的咖啡馆。","first_mes":"这么晚了还来？只剩吧台的位置了。","mes_example":"<START>\n{{user}}：这么晚还营业？\n{{char}}：你这不是还坐着吗。","creator_notes":"原创角色，欢迎使用","system_prompt":"你是林晓，一家深夜咖啡馆的店长。","post_history_instructions":"保持简短回复。","alternate_greetings":["欢迎光临，喝点什么？","今天打烊了——开个玩笑，坐吧。"],"character_book":{"name":"咖啡馆世界观","entries":[]},"tags":["咖啡馆","毒舌"],"creator":"BakkaBlue","character_version":"1.0","extensions":{"world":{"book":{"name":"深夜咖啡馆","is_embedding":true}},"talkativeness":"0.6"}}}"#.to_string()
}

fn export(c: &Character, ext: &str) -> Result<Vec<u8>, AppError> {
    card_file_contents(ext, c, None)
}

#[test]
fn v2_card_roundtrip_through_db() {
    let parsed = spec::parse_json(&full_card_json()).unwrap();
    let input = spec::card_to_input(&parsed);
    assert_eq!(input.first_messages.len(), 3);
    assert_eq!(input.first_messages[0], "这么晚了还来？只剩吧台的位置了。");
    assert_eq!(input.system_prompt.as_deref(), Some("你是林晓，一家深夜咖啡馆的店长。"));
    assert_eq!(input.tags, vec!["咖啡馆", "毒舌"]);
    let ext = input.extensions.as_ref().unwrap();
    assert!(ext.get("_v2_extra").is_some());
    assert!(ext.get("world").is_some());
    assert!(ext.get("talkativeness").is_some());

    let fetched = stored(&input);
    let mut data = CharaData::default();
    spec::apply_to_card(&fetched, &mut data, None);
    let re_parsed = spec::parse_json(&spec::serialize_v2(&data)).unwrap();
    assert_eq!(re_parsed, parsed);
}

#[test]
fn v1_card_import() {
    let v1 = r#"{"name":"老角色","description":"v1 描述","personality":"温和","scenario":"雨夜","first_mes":"下雨了，进来躲躲吧。","mes_example":"{{user}}：你好\n{{char}}：你好","tags":["v1"]}"#;
    let parsed = spec::parse_json(v1).unwrap();
    assert_eq!(parsed.name, "老角色");
    let input = spec::card_to_input(&parsed);
    assert_eq!(input.first_messages, vec!["下雨了，进来躲躲吧。"]);
    assert_eq!(input.tags, vec!["v1"]);
    assert!(input.extensions.is_none());
}

#[test]
fn first_messages_roundtrip_with_alternates() {
    let parsed = spec::parse_json(&full_card_json()).unwrap();
    let input = spec::card_to_input(&parsed);
    let fetched = stored(&input);
    let mut data = CharaData::default();
    spec::apply_to_card(&fetched, &mut data, None);
    assert_eq!(data.first_mes, "这么晚了还来？只剩吧台的位置了。");
    assert_eq!(data.alternate_greetings, vec!["欢迎光临，喝点什么？", "今天打烊了——开个玩笑，坐吧。"]);
}

#[test]
fn png_card_import_export_roundtrip() {
    let avatar_png = fixture_png();
    let parsed = spec::parse_json(&full_card_json()).unwrap();
    let embedded = embed_chara(&avatar_png, &spec::serialize_v2(&parsed)).unwrap();
    assert_eq!(import_format("png"), Ok(CardFormat::Png));

    let (data, avatar_bytes) = card_from_png(embedded.clone()).unwrap();
    let imported_avatar = avatar_bytes.unwrap();
    assert_eq!(imported_avatar, embedded);
    assert_eq!(data.name, "林晓");

    let mut input = spec::card_to_input(&data);
    input.avatar = Some(avatar::encode(&imported_avatar));
    let fetched = stored(&input);
    let exported = export(&fetched, "png").unwrap();

    let (data2, avatar2) = card_from_png(exported).unwrap();
    assert_eq!(data2, data);
    assert_eq!(avatar2.unwrap(), imported_avatar);
}

#[test]
fn json_card_write_and_read() {
    let parsed = spec::parse_json(&full_card_json()).unwrap();
    let input = spec::card_to_input(&parsed);
    let fetched = stored(&input);
    let bytes = export(&fetched, "json").unwrap();
    let (data, avatar) = card_from_json_text(&String::from_utf8(bytes).unwrap()).unwrap();
    assert!(avatar.is_none());
    assert_eq!(data, parsed);
}

#[test]
fn rejects_bad_files() {
    assert!(card_from_png(b"definitely not a png".to_vec()).is_err());
    assert_eq!(card_from_png(fixture_png()).unwrap_err(), AppError::NoChara);
    assert!(import_format("txt").is_err());
    assert!(card_from_json_text("{not json").is_err());
}

#[test]
fn export_png_requires_png_avatar() {
    let mut input = spec::card_to_input(&spec::parse_json(&full_card_json()).unwrap());
    input.avatar = Some(avatar::encode(&[0xFF, 0xD8, 0xFF, 0xE0]));
    let fetched = stored(&input);
    assert_eq!(export(&fetched, "png").unwrap_err(), AppError::NoPngAvatar);
    export(&fetched, "json").unwrap();
}

#[test]
fn unsupported_formats_and_messages() {
    let e = import_format("txt").unwrap_err();
    assert_eq!(e.message(), "不支持的文件格式: txt（仅支持 .png / .json）");
    let input = spec::card_to_input(&spec::parse_json(r#"{"name":"a"}"#).unwrap());
    let e = export(&stored(&input), "gif").unwrap_err();
    assert_eq!(e, AppError::UnsupportedExport("gif".into()));
    assert_eq!(e.message(), "不支持的导出格式: gif（仅支持 .png / .json）");
    // no avatar at all
    assert_eq!(export(&stored(&input), "png").unwrap_err(), AppError::NoPngAvatar);
}

#[test]
fn card_json_errors() {
    assert!(matches!(card_from_json_text("{}"), Err(AppError::CardJson(m)) if m == "missing field `name`"));
    assert!(matches!(spec::parse_json(r#"{"name":1}"#), Err(m) if m == "invalid type: integer `1`, expected a string"));
    assert!(matches!(spec::parse_json(r#"{"name":"a","tags":"x"}"#), Err(m) if m == "invalid type: string \"x\", expected a sequence"));
    assert!(matches!(spec::parse_json(r#"{"name":"a","tags":["x",2]}"#), Err(m) if m == "invalid type: integer `2`, expected a string"));
    assert!(matches!(spec::parse_json(r#"{"data":{"name":"a"}}"#), Err(m) if m == "missing field `spec`"));
    assert!(matches!(spec::parse_json(r#"{"spec":"x","data":null}"#), Err(m) if m == "invalid type: null, expected struct CharaData"));
    assert!(matches!(spec::parse_json("[]"), Err(m) if m == "invalid length 0, expected struct CharaData with 15 elements"));
    assert!(spec::parse_json("5").is_err());
}

#[test]
fn card_defaults_and_array_form() {
    let d = spec::parse_json(r#"["名字","描述"]"#).unwrap();
    assert_eq!(d.name, "名字");
    assert_eq!(d.description, "描述");
    assert!(d.tags.is_empty());
    // null optional values read as absent; unknown members are ignored
    let d = spec::parse_json(r#"{"name":"a","character_book":null,"extensions":null,"other":1}"#).unwrap();
    assert!(d.character_book.is_none());
    assert!(d.extensions.is_none());
    let long = r#"["x","","","","","","","","",[],null,[],"","",null,"extra"]"#;
    assert!(matches!(spec::parse_json(long), Err(m) if m == "invalid length 16, expected fewer elements in array"));
}

#[test]
fn blank_greetings_and_prompt_dropped() {
    let d = spec::parse_json(r#"{"name":"a","first_mes":"  ","alternate_greetings":["x"," ","y"],"system_prompt":"  "}"#).unwrap();
    let input = spec::card_to_input(&d);
    assert_eq!(input.first_messages, vec!["x", "y"]);
    assert!(input.system_prompt.is_none());
    assert!(!input.nsfw);
    assert!(input.avatar.is_none());
}

#[test]
fn extensions_keep_non_null_members_and_extra() {
    let d = spec::parse_json(r#"{"name":"a","creator":"c","extensions":{"k":1,"n":null}}"#).unwrap();
    let input = spec::card_to_input(&d);
    let text = to_compact_string(input.extensions.as_ref().unwrap());
    assert_eq!(
        text,
        r#"{"k":1,"_v2_extra":{"creator":"c","creator_notes":"","character_version":"","post_history_instructions":"","character_book":null}}"#
    );
}

#[test]
fn apply_restores_extra_and_world_book() {
    let d = spec::parse_json(&full_card_json()).unwrap();
    let input = spec::card_to_input(&d);
    let c = stored(&input);
    let book = brochat::models::Lorebook {
        id: "b".into(),
        character_id: "id-1".into(),
        name: "新书".into(),
        description: String::new(),
        scan_depth: 4,
        token_budget: 500,
        recursive_scanning: false,
        enabled: true,
        entries: vec![],
        created_at: String::new(),
        updated_at: String::new(),
    };
    let mut data = CharaData::default();
    spec::apply_to_card(&c, &mut data, Some(&book));
    assert_eq!(data.creator, "BakkaBlue");
    assert_eq!(data.character_version, "1.0");
    let cb = data.character_book.as_ref().unwrap();
    assert_eq!(cb.get("name").unwrap().as_str().unwrap(), "新书");
    // `_v2_extra` is not left in the card extensions
    assert!(data.extensions.as_ref().unwrap().get("_v2_extra").is_none());
}

#[test]
fn extension_is_lowercased() {
    assert_eq!(extension("dir/林晓.PNG"), "png");
    assert_eq!(extension("a.b.Json"), "json");
    assert_eq!(extension("noext"), "");
    assert_eq!(extension(".hidden"), "");
}

#[test]
fn v2_card_wraps_fields_under_data() {
    let data = CharaData { name: "林晓".into(), tags: vec!["a".into()], ..Default::default() };
    let card = V2Card { spec: "chara_card_v2".into(), spec_version: "2.0".into(), data: data.clone() };
    let j = card.to_json();
    assert_eq!(j.get("spec").unwrap().as_str().unwrap(), "chara_card_v2");
    assert_eq!(j.get("spec_version").unwrap().as_str().unwrap(), "2.0");
    assert_eq!(j.get("data").unwrap().get("name").unwrap().as_str().unwrap(), "林晓");
    assert_eq!(spec::card_from_json(&j).unwrap(), data);
    assert_eq!(to_compact_string(&j), to_compact_string(&parse_json_text(&spec::serialize_v2(&data)).unwrap()));
}

#[test]
fn extension_of_final_component() {
    assert_eq!(extension("a/b.tar.GZ"), "gz");
    assert_eq!(extension("dir.d/file"), "");
    assert_eq!(extension("a/.hidden"), "");
    assert_eq!(extension("card.json/"), "json");
    assert_eq!(extension("x.png/."), "png");
    assert_eq!(extension("x.png/.."), "");
    assert_eq!(extension("name."), "");
}

#[test]
fn other_error_shows_its_message() {
    let e = AppError::other("角色不存在: x");
    assert_eq!(e, AppError::Other("角色不存在: x".into()));
    assert_eq!(e.message(), "角色不存在: x");
}

#[test]
fn type_errors_show_the_value_as_serde_does() {
    let err = |text: &str| spec::parse_json(text).unwrap_err();
    assert_eq!(err(r#"{"name":true}"#), "invalid type: boolean `true`, expected a string");
    assert_eq!(err(r#"{"name":-3}"#), "invalid type: integer `-3`, expected a string");
    assert_eq!(err(r#"{"name":18446744073709551615}"#), "invalid type: integer `18446744073709551615`, expected a string");
    assert_eq!(err(r#"{"name":1.5}"#), "invalid type: floating point `1.5`, expected a string");
    assert_eq!(err(r#"{"name":"a","tags":{"k":1}}"#), "invalid type: map, expected a sequence");
    assert_eq!(err(r#"{"name":["x"]}"#), "invalid type: sequence, expected a string");
    assert_eq!(err(r#"{"name":"a","tags":"q\"t\n"}"#), "invalid type: string \"q\\\"t\\n\", expected a sequence");
    assert_eq!(err("7"), "invalid type: integer `7`, expected struct CharaData");
    // what serde_json itself says for the same inputs
    let direct = serde_json::from_str::<Vec<String>>(r#"["x",1.5]"#).unwrap_err().to_string();
    assert!(direct.starts_with("invalid type: floating point `1.5`, expected a string"));
}
