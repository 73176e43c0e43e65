use deck::compose::{
    compose, deck_id, fits_in, next_ord, one_pane_per_block, one_pane_per_name, review_path,
    show_code_do_not_type_it, what_will_not_light, Pointing, Refused,
};
use deck::line::LineRange;
use deck::refs::parse;

/// A code ref, from the syntax an agent would write.
fn pointing(refs: &[&str]) -> Vec<Pointing> {
    refs.iter()
        .map(|r| Pointing::Code(parse(r).expect("a ref that parses")))
        .collect()
}

fn named(arg: &str) -> Pointing {
    Pointing::Code(parse(arg).expect("a ref that parses"))
}

#[test]
fn code_typed_into_the_narration_is_refused() {
    let said = "Seed it first.\n\n```ts\nconst m = new Map();\n```";
    assert_eq!(show_code_do_not_type_it(said), Err(Refused::CodeInNarration));
    assert!(one_pane_per_block(&pointing(&["pull.ts:220-221 these two lines"])).is_ok());
}

#[test]
fn a_code_chip_in_the_narration_is_fine() {
    assert_eq!(
        show_code_do_not_type_it("The counter at `pending -= 1` runs **twice**."),
        Ok(())
    );
    assert!(one_pane_per_block(&pointing(&["pull.ts:220-221 here"])).is_ok());
}

#[test]
fn one_block_of_one_file_does_not_get_two_panes() {
    let refused = one_pane_per_block(&pointing(&[
        "pull.ts:220-226 scope arrives",
        "pull.ts:228-240 we ask",
    ]));
    match refused {
        Err(Refused::SameBlock { file, first, last, .. }) => {
            assert_eq!(file, "pull.ts");
            assert_eq!((first, last), (220, 240), "and it says what to write instead");
        }
        other => panic!("two panes of one block is refused, not {other:?}"),
    }
}

#[test]
fn two_places_in_one_file_are_allowed() {
    assert!(one_pane_per_block(&pointing(&[
        "pull.ts:40-44 declared",
        "pull.ts:300-304 used"
    ]))
    .is_ok());
}

#[test]
fn adjacent_ranges_in_different_files_are_the_whole_point() {
    assert!(one_pane_per_block(&pointing(&[
        "query.py:14-22 the enum",
        "models.py:16-18 the column"
    ]))
    .is_ok());
}

#[test]
fn a_ref_must_stay_inside_the_file() {
    let small = "one\ntwo\nthree\n";
    assert!(fits_in(LineRange::new(1, 3), small), "a range the file has is fine");
    assert!(!fits_in(LineRange::new(40, 60), small), "a range the file does not have is refused");
}

#[test]
fn a_group_that_will_not_light_says_so_without_refusing() {
    let panes = vec![named("a.rs:1-2 [retry] the loop"), named("b.rs:1-2 [write]")];

    let quiet = what_will_not_light("I changed the retry loop and the write.", &panes);
    assert_eq!(quiet.len(), 3, "{quiet:#?}");
    assert!(quiet[0].contains("no points"), "{quiet:#?}");
    assert!(quiet[1].contains("[retry]"), "{quiet:#?}");
    assert!(quiet[2].contains("[write]"), "{quiet:#?}");

    let walked = what_will_not_light(
        "[point 1] The loop in [retry] gives up early, and [write] never runs.",
        &panes,
    );
    assert!(walked.is_empty(), "{walked:#?}");

    let alone = what_will_not_light("It returns before the write.", &[named("a.rs:1-2")]);
    assert_eq!(alone.len(), 1, "{alone:#?}");
    assert!(alone[0].contains("no points"), "{alone:#?}");
}

#[test]
fn two_panes_cannot_answer_to_one_name() {
    assert_eq!(
        one_pane_per_name(&[named("a.rs:1-2 [retry]"), named("b.rs:1-2 [retry]")]),
        Err(Refused::SameName { name: "retry".to_string() })
    );
    assert!(one_pane_per_name(&[named("a.rs:1-2 [retry]"), named("b.rs:1-2 [write]")]).is_ok());
}

#[test]
fn a_ref_is_named_for_its_group_as_well_as_its_place() {
    let first = compose(1, "first", pointing(&["a.rs:1-2"]));
    let second = compose(2, "second", pointing(&["a.rs:1-2"]));
    assert_eq!(first.refs[0].id(), "g1r1");
    assert_eq!(second.refs[0].id(), "g2r1");
}

#[test]
fn groups_number_themselves() {
    let written = ["deck.json".to_string(), "g1.json".to_string()];
    let ord = next_ord(&written);
    assert_eq!(ord, 2);
    let second = compose(ord, "second", Vec::new());
    assert_eq!(second.ord, Some(2));
    assert_eq!(second.id, "g2");
    assert_eq!(next_ord(&[]), 1, "a deck with no groups starts at one");
    assert_eq!(
        next_ord(&["g9.json".to_string(), "g10.json".to_string(), "g2.json".to_string()]),
        11,
        "by number, not by name"
    );
}

#[test]
fn two_decks_made_at_once_are_two_decks() {
    let a = deck_id(1_700_000_000, 123_456, 0);
    let b = deck_id(1_700_000_000, 123_456, 1);
    assert_ne!(a, b);
    assert_eq!(a, "d-1700000000-3456");
    assert_eq!(b, "d-1700000000-3457");
    assert_eq!(deck_id(5, 9_999, 1), "d-5-0000", "the digits wrap rather than grow");
}

#[test]
fn the_review_is_looked_for_beside_the_deck_not_inside_it() {
    assert_eq!(review_path("/tmp/decks/d-1-0001.deck"), "/tmp/decks/d-1-0001.review");
}

#[test]
fn kinds_of_pane_are_numbered_by_their_kind() {
    let group = compose(3, "say", pointing(&["a.rs:1-2 [one]", "b.rs:3-4"]));
    assert_eq!(group.refs[1].id(), "g3r2");
    assert_eq!(group.say, "say");
}

#[test]
fn a_root_that_names_nothing_still_has_a_review_path() {
    assert_eq!(review_path("/tmp/decks/d-1.deck/"), "/tmp/decks/d-1.review");
    assert_eq!(review_path("d-1.deck"), "d-1.review");
    assert_eq!(review_path("/d-1.deck"), "/d-1.review");
    assert_eq!(review_path("/x/.."), "/x/../deck.review");
    assert_eq!(review_path("/"), "/deck.review");
    assert_eq!(review_path("."), "./deck.review");
}
