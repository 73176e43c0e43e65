use deck::theme::{pick_accent, Imported, Mode, Overrides, Palette, Paper, Rgb};

/// The light theme the design was drawn against.
fn light() -> Imported {
    Imported::plain(
        Rgb::from_hex("#dfdfdf").unwrap(),
        Rgb::from_hex("#3c3836").unwrap(),
        Rgb::from_hex("#af3a03").unwrap(),
    )
}

fn dark() -> Imported {
    Imported::plain(
        Rgb::from_hex("#282828").unwrap(),
        Rgb::from_hex("#ebdbb2").unwrap(),
        Rgb::from_hex("#fe8019").unwrap(),
    )
}

/// Lightness as a fraction, for comparing against the design's numbers.
fn lightness(c: Rgb) -> f64 {
    f64::from(c.luma()) / 2_550_000.0
}

#[test]
fn an_alpha_on_the_end_is_ignored_rather_than_refused() {
    assert_eq!(Rgb::from_hex("#282c33ff"), Some(Rgb::new(0x28, 0x2c, 0x33)));
    assert_eq!(Rgb::from_hex("#282c3300"), Some(Rgb::new(0x28, 0x2c, 0x33)));
    assert_eq!(Rgb::from_hex("#abcd"), Rgb::from_hex("#abc"));
}

#[test]
fn hex_parses_in_both_lengths_and_survives_a_round_trip() {
    assert_eq!(Rgb::from_hex("#dfdfdf"), Some(Rgb::new(223, 223, 223)));
    assert_eq!(Rgb::from_hex("dfdfdf"), Some(Rgb::new(223, 223, 223)));
    assert_eq!(Rgb::from_hex("#abc"), Some(Rgb::new(0xaa, 0xbb, 0xcc)));
    assert_eq!(Rgb::from_hex("#dfdfdf").unwrap().to_hex(), "#dfdfdf");

    assert_eq!(Rgb::from_hex("#gggggg"), None);
    assert_eq!(Rgb::from_hex("#dfdfd"), None, "five digits is not a colour");
}

#[test]
fn a_hairline_can_be_seen_on_whatever_it_is_drawn_on() {
    for theme in [light(), dark()] {
        let p = deck::theme::derive(theme);
        let apart = (lightness(p.edge) - lightness(p.bg)).abs();
        assert!(apart > 0.03, "an edge that cannot be seen is not an edge");
    }

    assert!(deck::theme::derive(light()).edge.luma() < deck::theme::derive(light()).bg.luma());
    assert!(deck::theme::derive(dark()).edge.luma() > deck::theme::derive(dark()).bg.luma());
}

#[test]
fn a_page_with_no_room_below_it_lifts_its_surfaces() {
    let p = deck::theme::derive(Imported::plain(
        Rgb::new(0x0d, 0x11, 0x17),
        Rgb::new(0xe6, 0xed, 0xf3),
        Rgb::new(0x2f, 0x81, 0xf7),
    ));

    assert!(p.wash.luma() > p.bg.luma());
    assert!(
        lightness(p.band) - lightness(p.bg) > 0.04,
        "and far enough that the band is a panel rather than a smudge"
    );
    assert!(p.edge.luma() > p.band.luma());
}

#[test]
fn the_desk_stays_under_the_page() {
    for theme in [light(), dark()] {
        let p = deck::theme::derive(theme);
        assert!(p.ground.luma() <= p.bg.luma());
    }
}

#[test]
fn receding_is_darker_on_a_light_theme() {
    let p = deck::theme::derive(light());
    assert!(p.wash.luma() < p.bg.luma());
    assert!(p.band.luma() < p.wash.luma());
}

#[test]
fn receding_is_darker_on_a_dark_theme_too() {
    let p = deck::theme::derive(dark());
    assert!(p.wash.luma() < p.bg.luma());
    assert!(p.band.luma() < p.wash.luma());
}

#[test]
fn a_black_ground_is_the_one_case_that_has_to_come_up() {
    let p = deck::theme::derive(Imported {
        bg: Rgb::new(0, 0, 0),
        ..dark()
    });
    assert!(p.wash.luma() > 0, "black cannot darken any further");
    assert!(p.band.luma() > p.wash.luma());
}

#[test]
fn the_lit_range_is_told_apart_by_warmth_rather_than_brightness() {
    let p = deck::theme::derive(light());
    assert!((lightness(p.focus) - lightness(p.bg)).abs() < 0.12);
    let warmth = |c: Rgb| f32::from(c.r) - f32::from(c.b);
    assert!(
        warmth(p.focus) > warmth(p.wash) + 12.,
        "the lit range has to be visibly warmer than the pane"
    );
}

#[test]
fn the_lit_range_leans_toward_the_accent() {
    let p = deck::theme::derive(light());
    assert!(p.focus.r > p.focus.b);
    assert_eq!(p.bg.r, p.bg.b, "the page it came from was neutral");
}

#[test]
fn a_grey_is_never_an_accent() {
    let page = Rgb::new(0xdf, 0xdf, 0xdf);
    let text = Rgb::new(0x2d, 0x2d, 0x2d);
    let orange = Rgb::new(0xae, 0x60, 0x00);

    assert_eq!(
        pick_accent(page, text, &[Rgb::new(0, 0, 0), orange]),
        orange,
        "the colour wins over the grey, even offered second"
    );
}

#[test]
fn an_accent_the_page_would_swallow_is_passed_over() {
    let page = Rgb::new(0xdf, 0xdf, 0xdf);
    let text = Rgb::new(0x2d, 0x2d, 0x2d);
    let nearly_the_page = Rgb::new(0xe2, 0xdd, 0xd8);
    let red = Rgb::new(0x9d, 0x00, 0x06);

    assert_eq!(pick_accent(page, text, &[nearly_the_page, red]), red);
}

#[test]
fn a_theme_offering_nothing_usable_falls_back_on_its_own_text() {
    let page = Rgb::new(0xdf, 0xdf, 0xdf);
    let text = Rgb::new(0x2d, 0x2d, 0x2d);
    assert_eq!(pick_accent(page, text, &[]), text);
}

#[test]
fn what_goes_on_the_accent_follows_the_accent() {
    let page = Rgb::new(0xdf, 0xdf, 0xdf);
    let text = Rgb::new(0x3c, 0x38, 0x36);

    let dark = deck::theme::derive(Imported::plain(page, text, Rgb::new(0xaf, 0x3a, 0x03)));
    assert_eq!(
        dark.on_accent, page,
        "a dark accent is written on in the page"
    );

    let pale = deck::theme::derive(Imported::plain(page, text, Rgb::new(0xfa, 0xbd, 0x2f)));
    assert_eq!(pale.on_accent, text, "a pale one is written on in the text");
}

#[test]
fn muted_text_sits_between_the_text_and_the_page() {
    for theme in [light(), dark()] {
        let p = deck::theme::derive(theme);
        let (fg, bg, muted) = (p.fg.luma(), p.bg.luma(), p.muted.luma());
        assert!(
            muted > fg.min(bg) && muted < fg.max(bg),
            "muted must be quieter than text without vanishing into the page"
        );
    }
}

#[test]
fn the_diff_colours_flip_to_stay_legible_on_the_ground() {
    assert_ne!(deck::theme::derive(light()).add, deck::theme::derive(dark()).add);
    assert!(deck::theme::derive(dark()).add.luma() > deck::theme::derive(light()).add.luma());
}

#[test]
fn mixing_is_bounded_at_both_ends() {
    let a = Rgb::new(0, 0, 0);
    let b = Rgb::new(255, 255, 255);
    assert_eq!(a.mix(b, 0), a);
    assert_eq!(a.mix(b, 1000), b);
    // Amounts past all of it are capped rather than wrapping a channel.
    assert_eq!(a.mix(b, 9000), b);
}

#[test]
fn a_blend_rounds_half_up() {
    // 255 * 0.42 is 107.1, and 255 * 0.5 is 127.5.
    let a = Rgb::new(0, 0, 0);
    let b = Rgb::new(255, 255, 255);
    assert_eq!(a.mix(b, 420), Rgb::new(107, 107, 107));
    assert_eq!(a.mix(b, 500), Rgb::new(128, 128, 128));
    assert_eq!(b.mix(a, 500), Rgb::new(128, 128, 128));
}

#[test]
fn lightness_is_weighted_for_the_eye() {
    assert_eq!(Rgb::new(255, 255, 255).luma(), 2_550_000);
    assert_eq!(Rgb::new(0, 255, 0).luma(), 7152 * 255);
    assert!(Rgb::new(0x28, 0x28, 0x28).is_dark());
    assert!(!Rgb::new(0xdf, 0xdf, 0xdf).is_dark());
}

#[test]
fn a_hex_body_may_carry_spaces_and_several_hashes() {
    assert_eq!(Rgb::from_hex("  ##0a0b0c \n"), Some(Rgb::new(10, 11, 12)));
    assert_eq!(Rgb::from_hex("+f+f+f"), None, "a sign is not a hex digit");
    assert_eq!(Rgb::from_hex("#ABC"), Some(Rgb::new(0xaa, 0xbb, 0xcc)));
    assert_eq!(Rgb::from_hex(""), None);
}

#[test]
fn a_tint_keeps_nearly_all_the_lightness() {
    let page = Rgb::new(0xdf, 0xdf, 0xdf);
    let tinted = deck::theme::tint(page, Rgb::new(0xaf, 0x3a, 0x03), 160);
    let lost = page.luma() - tinted.luma();
    let mixed = page.mix(Rgb::new(0xaf, 0x3a, 0x03), 160);
    assert!(lost < page.luma() - mixed.luma());
    assert_eq!(deck::theme::tint(Rgb::new(0, 0, 0), Rgb::new(0, 0, 0), 500), Rgb::new(0, 0, 0));
}

#[test]
fn modes_and_papers_read_forgivingly() {
    assert_eq!(Mode::from("dark".to_string()), Mode::Dark);
    assert_eq!(Mode::from("dim".to_string()), Mode::Auto);
    assert!(Mode::Auto.is_dark(true));
    assert!(!Mode::Light.is_dark(true));
    assert!(Mode::Dark.is_dark(false));
    assert_eq!(Paper::from("warm".to_string()), Paper::Warm);
    assert_eq!(Paper::from("cold".to_string()), Paper::Grey);
}

#[test]
fn an_override_wins_and_an_empty_one_changes_nothing() {
    let derived: Palette = deck::theme::derive(light());
    let mut p = derived;
    Overrides::default().apply(&mut p);
    assert_eq!(p, derived);

    let mut o = Overrides::default();
    o.accent = Some(Rgb::new(1, 2, 3));
    o.apply(&mut p);
    assert_eq!(p.accent, Rgb::new(1, 2, 3));
    assert_eq!(p.bg, derived.bg);
}

#[test]
fn a_colour_is_hex_digits_and_nothing_else() {
    assert_eq!(Rgb::from_hex("+1+2+3"), None);
    assert_eq!(Rgb::from_hex("#+f+f+f"), None);
    assert_eq!(Rgb::from_hex("#0a0b0c"), Some(Rgb::new(10, 11, 12)));
}

#[test]
fn a_visible_grey_is_no_accent_and_the_text_is() {
    let page = Rgb::new(0xdf, 0xdf, 0xdf);
    let ink = Rgb::new(0x33, 0x33, 0x33);
    assert_eq!(pick_accent(page, ink, &[Rgb::new(0, 0, 0)]), ink);
}

#[test]
fn what_would_cut_a_character_is_said_before_it_is_read() {
    assert!(deck::theme::cuts("#1é234"));
    assert!(!deck::theme::cuts("#abcdef"));
    assert!(!deck::theme::cuts("not a colour"));
    let c = Rgb::new(1, 2, 3);
    assert!(!deck::theme::cuts(&c.to_hex()));
    assert_eq!(Rgb::from_hex(&c.to_hex()), Some(c));
}
