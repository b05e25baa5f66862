use gable::gui::localization::{get_available_languages, set_language, t, t_with_args, LanguagePack, LocalizationManager};

fn manager() -> LocalizationManager {
    let mut m = LocalizationManager::new();
    m.init_default_languages();
    let mut zh = LanguagePack::new("zh", "中文");
    zh.add_translation("file_menu", "文件");
    zh.add_translation("greet", "你好 {name}");
    m.add_language(zh);
    m
}

#[test]
fn english_by_default() {
    let m = manager();
    assert_eq!(m.get_current_language(), "en");
    assert_eq!(m.t("file_menu"), "File");
    assert_eq!(m.t("exit"), "Exit");
    assert_eq!(m.t("missing_key"), "missing_key");
}

#[test]
fn switching_language_falls_back_to_english() {
    let mut m = manager();
    assert!(m.set_language("zh"));
    assert_eq!(m.get_current_language(), "zh");
    assert_eq!(m.t("file_menu"), "文件");
    assert_eq!(m.t("exit"), "Exit");
    assert!(!m.set_language("fr"));
    assert_eq!(m.get_current_language(), "zh");
}

#[test]
fn arguments_replace_placeholders() {
    let mut m = manager();
    assert!(set_language(&mut m, "zh"));
    assert_eq!(t_with_args(&m, "greet", &[("name", "Ann")]), "你好 Ann");
    assert_eq!(t_with_args(&m, "greet", &[]), t(&m, "greet"));
    assert_eq!(m.t_with_args("{a}-{b}", &[("a", "{b}"), ("b", "y")]), "y-y");
}

#[test]
fn packs_and_languages() {
    let m = manager();
    let langs = get_available_languages(&m);
    assert_eq!(langs.len(), 2);
    assert_eq!(langs[0].0, "en");
    assert_eq!(langs[1].1, "中文");
    let mut p = LanguagePack::new("fr", "Français");
    assert!(p.get("k").is_none());
    p.add_translation("k", "v1");
    p.add_translation("k", "v2");
    assert_eq!(p.get("k").map(|s| s.as_str()), Some("v2"));
}

#[test]
fn available_languages_are_listed_once() {
    let mut m = manager();
    m.add_language(LanguagePack::new("zh", "简体中文"));
    let langs = get_available_languages(&m);
    let codes: Vec<&str> = langs.iter().map(|(c, _)| c.as_str()).collect();
    assert_eq!(codes.len(), 2);
    assert!(codes.contains(&"en") && codes.contains(&"zh"));
    assert!(langs.iter().any(|(c, n)| c.as_str() == "zh" && n.as_str() == "简体中文"));
}

#[test]
fn default_languages_when_none_loaded() {
    let mut m = LocalizationManager::new();
    m.ensure_default_languages(true);
    assert_eq!(get_available_languages(&m).len(), 1);
    assert_eq!(t(&m, "file_menu"), "File");

    let mut m = LocalizationManager::new();
    m.add_language(LanguagePack::new("zh", "中文"));
    m.ensure_default_languages(true);
    let codes: Vec<String> = get_available_languages(&m).iter().map(|(c, _)| c.to_string()).collect();
    assert_eq!(codes, vec!["zh".to_string()]);

    m.ensure_default_languages(false);
    assert_eq!(get_available_languages(&m).len(), 2);
    assert_eq!(m.get_current_language(), "en");
}
