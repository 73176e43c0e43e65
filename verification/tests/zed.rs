use deck::theme::{Lacks, Rgb};
use deck::zed::{chosen, from_theme, one, settle, wanted, Refused, Theme};

fn entries(of: &[(&str, &str)]) -> Vec<(String, Option<String>)> {
    of.iter().map(|(k, v)| (k.to_string(), Some(v.to_string()))).collect()
}

fn one_dark() -> Theme {
    Theme {
        name: "One Dark".to_string(),
        colors: entries(&[
            ("editor.background", "#282c34"),
            ("editor.foreground", "#dcdfe4"),
            ("border.focused", "#61afef"),
            ("created", "#98c379"),
        ]),
        syntax: entries(&[
            ("keyword", "#c678dd"),
            ("string", "#98c379"),
            ("comment", "#5c6370"),
        ]),
    }
}

#[test]
fn a_theme_named_outright() {
    assert_eq!(
        chosen(r#"{ "theme": "One Dark" }"#).as_deref(),
        Some("One Dark")
    );
}

#[test]
fn a_theme_that_follows_the_system() {
    let settings = r#"{
            "theme": { "mode": "light", "light": "One Light", "dark": "One Dark" }
        }"#;
    assert_eq!(chosen(settings).as_deref(), Some("One Light"));
}

#[test]
fn zeds_own_default_is_whichever_way_the_machine_is() {
    assert!(one(true).bg.is_dark());
    assert!(!one(false).bg.is_dark());
    assert!(
        one(true).syntax.keyword.is_some(),
        "and it is a whole theme"
    );
}

#[test]
fn a_theme_file_reads() {
    let got = from_theme(&one_dark()).expect("a background and foreground are set");
    assert_eq!(got.bg, Rgb::from_hex("#282c34").unwrap());
    assert_eq!(got.accent, Rgb::from_hex("#61afef").unwrap());
    assert_eq!(got.syntax.keyword, Rgb::from_hex("#c678dd"));
    assert_eq!(got.comment, Rgb::from_hex("#5c6370"));
    assert_eq!(got.add, Rgb::from_hex("#98c379"));
}

#[test]
fn a_mode_that_names_nothing_falls_back_on_dark() {
    let settings = r#"{ "theme": { "light": "One Light", "dark": "One Dark" } }"#;
    assert_eq!(chosen(settings).as_deref(), Some("One Dark"));
    let only_light = r#"{ "theme": { "mode": "system", "light": "One Light" } }"#;
    assert_eq!(chosen(only_light).as_deref(), Some("One Light"));
    let not_a_name = r#"{ "theme": { "mode": "dark", "dark": 3, "light": "One Light" } }"#;
    assert_eq!(chosen(not_a_name), None, "the first key there decides, and 3 is no name");
    assert_eq!(chosen(r#"{ "theme": 3 }"#), None);
    assert_eq!(chosen("not json"), None);
}

#[test]
fn a_theme_with_no_text_colour_is_refused() {
    let mut t = one_dark();
    t.colors.retain(|(k, _)| k != "editor.foreground");
    assert_eq!(from_theme(&t), Err(Lacks::Foreground));
}

#[test]
fn a_number_colour_falls_back_on_a_constant_one() {
    let mut t = one_dark();
    t.syntax.push(("constant".to_string(), Some("#d19a66".to_string())));
    assert_eq!(from_theme(&t).unwrap().syntax.literal, Rgb::from_hex("#d19a66"));
}

#[test]
fn a_named_theme_has_to_exist_and_a_default_one_does_not() {
    assert_eq!(settle(true, None, true, true), Err(Refused::NotInstalled));
    assert_eq!(settle(true, None, false, true), Ok(Some(one(true))));
    assert_eq!(
        settle(true, Some(&one_dark()), true, false).unwrap().unwrap().bg,
        Rgb::new(0x28, 0x2c, 0x34)
    );
}

#[test]
fn with_no_theme_wanted_there_is_nothing_to_borrow() {
    assert_eq!(settle(false, None, false, true), Ok(None));
}

#[test]
fn what_is_looked_for_comes_from_the_reader_then_the_settings_then_zed() {
    let settings = r#"{ "theme": "Ayu Dark" }"#;
    assert_eq!(wanted(Some("Gruvbox"), Some(settings), true, true).as_deref(), Some("Gruvbox"));
    assert_eq!(wanted(None, Some(settings), true, true).as_deref(), Some("Ayu Dark"));
    assert_eq!(wanted(None, None, false, true).as_deref(), Some("One Light"));
    assert_eq!(wanted(None, Some("{}"), true, false), None);
}
