use brochat::settings::{settings_from_pairs, settings_pairs, SettingsRecord};

fn pairs(kv: &[(&str, &str)]) -> Vec<(String, String)> {
    kv.iter().map(|(k, v)| (k.to_string(), v.to_string())).collect()
}

#[test]
fn defaults_when_nothing_is_stored() {
    let s = settings_from_pairs(&[]);
    assert_eq!(s, SettingsRecord::default());
    assert_eq!(s.base_url, "https://api.openai.com/v1");
    assert_eq!(s.model, "gpt-4o-mini");
    assert_eq!(s.temperature, "0.8");
    assert_eq!(s.max_tokens, 1024);
    assert_eq!(s.max_context_tokens, 8192);
    assert_eq!(s.ui_theme, "system");
    assert_eq!(s.ui_font_size, 13);
    assert_eq!(s.chat_load_messages, 100);
    assert!(s.ui_show_timestamps && s.chat_auto_scroll && !s.chat_sound);
}

#[test]
fn upsert_then_read_gives_back_the_settings() {
    let mut s = SettingsRecord::default();
    s.base_url = "http://localhost:11434/v1".into();
    s.api_key = "sk-test".into();
    s.model = "qwen2.5:7b".into();
    s.temperature = "0.5".into();
    s.max_tokens = 2048;
    s.max_context_tokens = 4096;
    s.system_prompt = "你是测试助手".into();
    s.ui_theme = "dark".into();
    s.ui_font_size = 14;
    s.chat_sound = true;
    s.ui_show_timestamps = false;
    let stored = settings_pairs(&s);
    assert_eq!(stored.len(), 32);
    assert_eq!(settings_from_pairs(&stored), s);
}

#[test]
fn bad_values_are_skipped_and_last_valid_wins() {
    let s = settings_from_pairs(&pairs(&[
        ("max_tokens", "12"),
        ("max_tokens", "oops"),
        ("temperature", "\"hot\""),
        ("chat_sound", "1"),
        ("ui_theme", "light"),
        ("unknown", "x"),
        ("ui_font_size", "15.5"),
        ("ui_reduce_motion", "true"),
    ]));
    assert_eq!(s.max_tokens, 12);
    assert_eq!(s.temperature, "0.8");
    assert!(!s.chat_sound);
    assert_eq!(s.ui_theme, "light");
    assert_eq!(s.ui_font_size, 13);
    assert!(s.ui_reduce_motion);
}

#[test]
fn glass_blur_is_stored_and_read_back() {
    let mut s = SettingsRecord::default();
    s.ui_glass_blur = true;
    let stored = settings_pairs(&s);
    assert!(stored.iter().any(|(k, v)| k == "ui_glass_blur" && v == "true"));
    assert!(settings_from_pairs(&stored).ui_glass_blur);
    assert!(settings_from_pairs(&pairs(&[("ui_glass_blur", "true")])).ui_glass_blur);
}

#[test]
fn settings_defaults_and_upsert() {
    // nothing stored: the defaults
    let d = settings_from_pairs(&[]);
    assert_eq!(d.base_url, "https://api.openai.com/v1");
    assert_eq!(d.model, "gpt-4o-mini");
    assert_eq!(d.temperature, "0.8");
    assert_eq!(d.max_tokens, 1024);
    assert_eq!(d.max_context_tokens, 8192);
    assert!(d.api_key.is_empty());

    // custom values stored and read back
    let custom = SettingsRecord {
        base_url: "http://localhost:11434/v1".into(),
        api_key: "sk-test".into(),
        model: "qwen2.5:7b".into(),
        temperature: "1.1".into(),
        max_tokens: 2048,
        max_context_tokens: 4096,
        system_prompt: "你是测试助手".into(),
        ui_theme: "dark".into(),
        ui_font_size: 14,
        ..Default::default()
    };
    let got = settings_from_pairs(&settings_pairs(&custom));
    assert_eq!(got, custom);

    // another empty store: still the defaults
    assert_eq!(settings_from_pairs(&[]), SettingsRecord::default());
}
