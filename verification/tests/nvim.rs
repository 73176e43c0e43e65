use deck::nvim::{from_groups, Group};
use deck::theme::{Lacks, Rgb};

fn answered(of: &[(&str, Option<&str>, Option<&str>)]) -> Vec<(String, Group)> {
    of.iter()
        .map(|(name, fg, bg)| {
            (
                name.to_string(),
                Group { fg: fg.map(str::to_string), bg: bg.map(str::to_string) },
            )
        })
        .collect()
}

/// A real answer, from a real config: the light scheme this project was
/// built against.
fn light_scheme() -> Vec<(String, Group)> {
    answered(&[
        ("Normal", Some("#2d2d2d"), Some("#dfdfdf")),
        ("Comment", Some("#6e7781"), None),
        ("Keyword", Some("#0b0080"), None),
        ("String", Some("#800000"), None),
        ("Function", Some("#000000"), None),
        ("Type", Some("#ae6000"), None),
        ("Constant", Some("#800000"), None),
        ("Visual", None, Some("#c5c9d6")),
        ("DiffAdd", None, Some("#bce8bc")),
        ("DiffDelete", None, Some("#f2c2c2")),
    ])
}

#[test]
fn nvim_a_real_theme_reads() {
    let got = from_groups(&light_scheme()).expect("Normal is set, so this imports");

    assert_eq!(got.bg, Rgb::new(0xdf, 0xdf, 0xdf));
    assert_eq!(got.fg, Rgb::new(0x2d, 0x2d, 0x2d));
    assert_eq!(got.comment, Rgb::from_hex("#6e7781"));
    assert_eq!(got.syntax.keyword, Rgb::from_hex("#0b0080"));
}

#[test]
fn the_accent_is_the_first_colour_the_scheme_offers() {
    let got = from_groups(&light_scheme()).unwrap();
    assert_eq!(got.accent, Rgb::from_hex("#ae6000").unwrap());
}

#[test]
fn a_search_hit_outranks_everything() {
    let with_search = answered(&[
        ("Normal", Some("#ffffff"), Some("#000000")),
        ("Search", None, Some("#ffcc00")),
        ("Type", Some("#8ec07c"), None),
    ]);
    assert_eq!(
        from_groups(&with_search).unwrap().accent,
        Rgb::from_hex("#ffcc00").unwrap()
    );
}

#[test]
fn a_diff_group_with_only_a_ground_gives_no_mark() {
    let got = from_groups(&light_scheme()).unwrap();
    assert_eq!(got.add, None);
    assert_eq!(got.del, None);
}

#[test]
fn a_scheme_without_a_page_is_refused() {
    let nothing = answered(&[("Comment", Some("#888888"), None)]);
    assert!(from_groups(&nothing).is_err());
}

#[test]
fn a_page_with_no_text_is_refused_for_that() {
    let no_text = answered(&[("Normal", None, Some("#ffffff"))]);
    assert_eq!(from_groups(&no_text), Err(Lacks::Foreground));
    assert_eq!(from_groups(&answered(&[])), Err(Lacks::Background));
}
