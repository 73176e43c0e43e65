use deck::home::deck;

#[test]
fn nothing_is_built_on_an_empty_variable() {
    assert_eq!(deck(Some("")), None);
    assert_eq!(deck(None), None);
    for home in ["/home/ann", "/", "C:/Users/ann"] {
        let at = deck(Some(home)).expect("a home is somewhere to build on");
        assert!(!at.is_empty());
    }
}

#[test]
fn every_place_is_absolute_or_absent() {
    assert_eq!(deck(Some("/home/ann")).as_deref(), Some("/home/ann/.deck"));
    assert_eq!(deck(Some("/home/ann/")).as_deref(), Some("/home/ann/.deck"));
    assert_eq!(deck(Some("/")).as_deref(), Some("/.deck"));
    assert!(deck(Some("/home/ann")).unwrap().starts_with('/'));
}
