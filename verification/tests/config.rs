use deck::config::{Engine, Speech, Theme, FASTEST, SLOWEST};
use deck::theme::{Imported, Mode, Overrides, Paper, Rgb};

#[test]
fn an_override_wins_over_what_was_derived() {
    let mut colors = Overrides::default();
    colors.accent = Some(Rgb::new(0, 255, 127));
    let mut palette = deck::theme::derive(Imported::plain(
        Rgb::new(0xdf, 0xdf, 0xdf),
        Rgb::new(0x3c, 0x38, 0x36),
        Rgb::new(0xaf, 0x3a, 0x03),
    ));

    colors.apply(&mut palette);
    assert_eq!(palette.accent, Rgb::new(0, 255, 127));
    assert_eq!(palette.bg, Rgb::new(0xdf, 0xdf, 0xdf), "and nothing else moved");
}

#[test]
fn the_defaults_are_the_designs_own_answer() {
    let speech = Speech::default();
    assert!(speech.aloud);
    assert_eq!(speech.engine, Engine::System);
    assert_eq!((speech.rate, speech.pause), (158, 420));
    let theme = Theme::default();
    assert!(theme.editor.is_none());
    assert_eq!(theme.paper, Paper::Grey);
    assert_eq!(theme.mode, Mode::Auto);
    assert!(theme.colors.accent.is_none());
}

#[test]
fn a_rate_is_held_to_what_a_voice_will_do() {
    let at = |rate: u16| Speech { rate, ..Speech::default() }.words_a_minute();
    assert_eq!(at(0), SLOWEST);
    assert_eq!(at(158), 158);
    assert_eq!(at(9_000), FASTEST);
}
