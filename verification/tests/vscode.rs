use deck::theme::{Lacks, Rgb};
use deck::vscode::{
    bundled, chosen, default_ids, from_theme, lookup_key, name_of, patched, scope,
    settings_places, strip_comments, wanted, Flavour, Theme, Token,
};

fn colours(of: &[(&str, &str)]) -> Vec<(String, Option<String>)> {
    of.iter().map(|(k, v)| (k.to_string(), Some(v.to_string()))).collect()
}

fn rule(scopes: &[&str], foreground: &str) -> Token {
    Token {
        scopes: scopes.iter().map(|s| s.to_string()).collect(),
        foreground: Some(foreground.to_string()),
    }
}

/// The shape a real theme has, cut down to what deck reads.
fn theme() -> Theme {
    Theme {
        colors: colours(&[
            ("editor.background", "#0d1117"),
            ("editor.foreground", "#e6edf3"),
            ("editorCursor.foreground", "#2f81f7"),
            ("editorGutter.addedBackground", "#3fb950"),
            ("editorGutter.deletedBackground", "#f85149"),
        ]),
        tokens: vec![
            rule(&["comment", "string.comment"], "#8b949e"),
            rule(&["entity"], "#d2a8ff"),
            rule(&["entity.name.function"], "#d2a8ff"),
            rule(&["keyword", "storage"], "#ff7b72"),
            rule(&["string"], "#a5d6ff"),
        ],
        based_on: None,
    }
}

#[test]
fn comments_come_out_and_strings_are_left_alone() {
    let settings = r#"{
            // the theme
            "workbench.colorTheme": "GitHub Dark Default", // and a trailing note
            "path": "C:\\dev // not a comment",
            "url": "https://example.com",
        }"#;
    assert_eq!(chosen(settings).as_deref(), Some("GitHub Dark Default"));
}

#[test]
fn a_block_comment_comes_out_too() {
    let settings = r#"{ /* off for now
            "workbench.colorTheme": "Monokai", */
            "workbench.colorTheme": "Solarized Light" }"#;
    assert_eq!(chosen(settings).as_deref(), Some("Solarized Light"));
}

#[test]
fn vscode_a_real_theme_reads() {
    let got = from_theme(&theme()).expect("a background and a foreground are set");

    assert_eq!(got.bg, Rgb::from_hex("#0d1117").unwrap());
    assert_eq!(got.accent, Rgb::from_hex("#2f81f7").unwrap());
    assert_eq!(got.comment, Rgb::from_hex("#8b949e"));
    assert_eq!(got.syntax.keyword, Rgb::from_hex("#ff7b72"));
    assert_eq!(got.add, Rgb::from_hex("#3fb950"));
}

#[test]
fn a_theme_that_names_no_foreground_still_reads() {
    let quiet = Theme {
        colors: colours(&[("editor.background", "#f5f5f5")]),
        tokens: Vec::new(),
        based_on: None,
    };
    let got = from_theme(&quiet).expect("a background is enough");
    assert!(
        got.fg.is_dark(),
        "a light page has to be written on in something dark"
    );
}

#[test]
fn an_editor_with_no_theme_set_is_not_an_error() {
    assert_eq!(chosen(r#"{ "window.commandCenter": true }"#), None);
}

#[test]
fn a_scope_matches_by_its_prefix() {
    assert_eq!(
        scope(&theme(), "string.quoted.double"),
        Rgb::from_hex("#a5d6ff")
    );
}

#[test]
fn the_longer_rule_wins() {
    assert_eq!(
        scope(&theme(), "entity.name.function"),
        Rgb::from_hex("#d2a8ff")
    );
    assert_eq!(scope(&theme(), "entity.other"), Rgb::from_hex("#d2a8ff"));
}

#[test]
fn a_scope_nobody_claims_is_nothing() {
    assert_eq!(scope(&theme(), "markup.heading"), None);
}

#[test]
fn a_longer_rule_beats_a_later_shorter_one() {
    let t = Theme {
        colors: Vec::new(),
        tokens: vec![
            rule(&["entity.name"], "#111111"),
            rule(&["entity"], "#222222"),
        ],
        based_on: None,
    };
    assert_eq!(scope(&t, "entity.name.function"), Rgb::from_hex("#111111"));
}

#[test]
fn of_two_rules_as_long_the_later_wins() {
    let t = Theme {
        colors: Vec::new(),
        tokens: vec![rule(&["string"], "#111111"), rule(&["string"], "#222222")],
        based_on: None,
    };
    assert_eq!(scope(&t, "string"), Rgb::from_hex("#222222"));
}

#[test]
fn a_prefix_counts_only_up_to_a_dot() {
    let t = Theme {
        colors: Vec::new(),
        tokens: vec![rule(&["key"], "#111111")],
        based_on: None,
    };
    assert_eq!(scope(&t, "keyword"), None);
}

#[test]
fn one_scope_string_may_list_several_scopes() {
    let t = Theme {
        colors: Vec::new(),
        tokens: vec![rule(&["comment, string"], "#8b949e")],
        based_on: None,
    };
    assert_eq!(scope(&t, "string.quoted"), Rgb::from_hex("#8b949e"));
    assert_eq!(scope(&t, "comment"), Rgb::from_hex("#8b949e"));
}

#[test]
fn a_rule_with_no_colour_claims_nothing() {
    let t = Theme {
        colors: Vec::new(),
        tokens: vec![
            rule(&["string"], "#111111"),
            Token { scopes: vec!["string.quoted".to_string()], foreground: None },
        ],
        based_on: None,
    };
    assert_eq!(scope(&t, "string.quoted"), Rgb::from_hex("#111111"));
}

#[test]
fn a_theme_without_a_page_is_refused() {
    let t = Theme { colors: colours(&[("editor.foreground", "#ffffff")]), tokens: Vec::new(), based_on: None };
    assert_eq!(from_theme(&t), Err(Lacks::Background));
}

#[test]
fn the_panes_background_stands_in_for_the_editors() {
    let t = Theme {
        colors: colours(&[("editorPane.background", "#102030")]),
        tokens: Vec::new(),
        based_on: None,
    };
    let got = from_theme(&t).unwrap();
    assert_eq!(got.bg, Rgb::new(0x10, 0x20, 0x30));
    assert_eq!(got.fg, Rgb::new(0xdd, 0xdd, 0xdd), "a dark page is written on in light");
}

#[test]
fn a_value_that_is_not_a_colour_is_not_read_as_one() {
    let t = Theme {
        colors: vec![
            ("editor.background".to_string(), Some("#0d1117".to_string())),
            ("editor.foreground".to_string(), None),
            ("foreground".to_string(), Some("#abcdef".to_string())),
        ],
        tokens: Vec::new(),
        based_on: None,
    };
    assert_eq!(from_theme(&t).unwrap().fg, Rgb::new(0xab, 0xcd, 0xef));
}

#[test]
fn a_patch_wins_over_what_it_is_built_on() {
    let base = Theme {
        colors: colours(&[("editor.background", "#000000"), ("editor.foreground", "#ffffff")]),
        tokens: vec![rule(&["string"], "#111111")],
        based_on: None,
    };
    let own = Theme {
        colors: colours(&[("editor.background", "#0d1117")]),
        tokens: vec![rule(&["string"], "#222222")],
        based_on: Some("./base.json".to_string()),
    };
    let both = patched(base, own);
    assert!(both.based_on.is_none());
    let got = from_theme(&both).unwrap();
    assert_eq!(got.bg, Rgb::new(0x0d, 0x11, 0x17), "the patch's own page");
    assert_eq!(got.fg, Rgb::new(0xff, 0xff, 0xff), "and the base's text");
    assert_eq!(got.syntax.string, Some(Rgb::new(0x22, 0x22, 0x22)), "its rules read last");
}

#[test]
fn a_trailing_comma_comes_out_and_the_rest_stays() {
    assert_eq!(strip_comments("{ \"a\": [1, 2, ], }"), "{ \"a\": [1, 2 ] }");
    assert_eq!(strip_comments("a // b\nc"), "a \nc");
    assert_eq!(strip_comments("a /* b * / */c"), "a c");
    assert_eq!(strip_comments("\"\\\"// in\" // out"), "\"\\\"// in\" ");
}

#[test]
fn a_label_written_to_be_translated_is_looked_up() {
    assert_eq!(lookup_key("%themeLabel%").as_deref(), Some("themeLabel"));
    assert_eq!(lookup_key("Monokai"), None);
    assert_eq!(lookup_key("%"), None);
    let names = r#"{ "themeLabel": "Monokai", // the name
        "other": 3 }"#;
    assert_eq!(
        name_of(Some("%themeLabel%".to_string()), Some("monokai".to_string()), Some(names))
            .as_deref(),
        Some("Monokai")
    );
    assert_eq!(
        name_of(Some("%other%".to_string()), Some("monokai".to_string()), Some(names)).as_deref(),
        Some("monokai"),
        "a key that is not text falls back on the id"
    );
    assert_eq!(
        name_of(Some("%themeLabel%".to_string()), Some("monokai".to_string()), None),
        None,
        "translations that cannot be read name nothing"
    );
    assert_eq!(
        name_of(Some("%themeLabel%".to_string()), None, Some("[1, 2]")),
        None,
        "and neither do ones that are not an object"
    );
    assert_eq!(
        name_of(None, Some("Default Dark+".to_string()), None).as_deref(),
        Some("Default Dark+"),
        "an id stands in for a missing label"
    );
}

#[test]
fn a_theme_asked_for_by_name_beats_the_settings() {
    let settings = r#"{ "workbench.colorTheme": "Monokai" }"#;
    assert_eq!(wanted(Some("Solarized Dark"), Some(settings)).as_deref(), Some("Solarized Dark"));
    assert_eq!(wanted(None, Some(settings)).as_deref(), Some("Monokai"));
    assert_eq!(wanted(None, None), None);
}

#[test]
fn the_default_is_the_newest_the_editor_ships() {
    assert_eq!(default_ids(true)[0], "Default Dark Modern");
    assert_eq!(default_ids(false), ["Default Light Modern", "Default Light+", "Visual Studio Light"]);
}

#[test]
fn windows_keeps_its_settings_somewhere_that_is_looked_at() {
    let home = "/somebody";
    let looked_at = settings_places(Flavour::code(), home, None);

    for shape in [
        "AppData/Roaming/Code/User/settings.json",
        "Library/Application Support/Code/User/settings.json",
        ".config/Code/User/settings.json",
    ] {
        let wanted = format!("{home}/{shape}");
        assert!(looked_at.contains(&wanted), "nothing looks at {wanted}");
    }
    let with_platform = settings_places(Flavour::cursor(), home, Some("/roaming"));
    assert_eq!(with_platform[0], "/roaming/Cursor/User/settings.json", "the platform's answer first");
    assert_eq!(with_platform.len(), 4);
}

#[test]
fn an_editor_is_looked_for_wherever_the_platform_installs_things() {
    let roots = ["/Applications".to_string(), "/usr/share".to_string(), "/opt".to_string()];
    let places = bundled(Flavour::code(), &roots);
    assert_eq!(places.len(), roots.len() * 3);

    for name in ["Visual Studio Code.app", "Microsoft VS Code", "code"] {
        assert!(
            places.iter().any(|at| at.split('/').any(|part| part == name)),
            "no place is called {name}"
        );
    }
    assert_eq!(places[0], "/Applications/Visual Studio Code.app/Contents/Resources/app/extensions");
    assert_eq!(places[5], "/usr/share/code/resources/app/extensions");
}

#[test]
fn text_with_nothing_to_strip_comes_out_as_it_went_in() {
    let plain = "{ \"workbench.colorTheme\": \"Monokai\" }";
    assert_eq!(strip_comments(plain), plain);
}

#[test]
fn chrome_is_never_imported() {
    let mut with_chrome = theme();
    with_chrome.colors.push(("statusBar.background".to_string(), Some("#ff0000".to_string())));
    with_chrome.colors.push(("tab.activeBackground".to_string(), Some("#00ff00".to_string())));
    assert_eq!(from_theme(&with_chrome), from_theme(&theme()));
}

#[test]
fn a_string_keeps_its_commas() {
    assert_eq!(strip_comments(r#"["a,]"]"#), r#"["a,]"]"#);
    assert_eq!(strip_comments("[\"a\\\",]\", ]"), "[\"a\\\",]\" ]");
}
