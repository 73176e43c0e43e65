use deck::line::LineRange;
use deck::refs::{parse, Named, RefError};

fn named(argument: &str) -> Named {
    parse(argument).expect("this argument parses")
}

#[test]
fn a_ref_carries_no_replacement_of_its_own() {
    let named = parse("src/batch.ts:140-148 pending -= 1;").expect("parses");
    assert_eq!(named.after, None);
    assert_eq!(named.note.as_deref(), Some("pending -= 1;"));
}

#[test]
fn a_file_a_range_and_a_note() {
    let got = named("src/batch.ts:140-148 decremented *twice*");
    assert_eq!(got.file, "src/batch.ts");
    assert_eq!(got.range, LineRange::new(140, 148));
    assert_eq!(got.note.as_deref(), Some("decremented *twice*"));
}

#[test]
fn one_number_is_one_line() {
    assert_eq!(named("a.rs:12").range, LineRange::new(12, 12));
}

#[test]
fn a_note_is_optional() {
    assert_eq!(named("a.rs:1-2").note, None);
}

#[test]
fn a_path_may_have_colons_in_it() {
    let got = named(r"C:\src\batch.ts:140-148");
    assert_eq!(got.file, r"C:\src\batch.ts");
    assert_eq!(got.range, LineRange::new(140, 148));
}

#[test]
fn a_note_may_have_colons_in_it_too() {
    let got = named("a.rs:9 note: this one");
    assert_eq!(got.file, "a.rs");
    assert_eq!(got.note.as_deref(), Some("note: this one"));
}

#[test]
fn a_backwards_range_is_corrected_rather_than_refused() {
    assert_eq!(named("a.rs:20-10").range, LineRange::new(10, 20));
}

#[test]
fn what_is_not_a_ref_is_said_plainly() {
    assert!(parse("src/batch.ts").is_err(), "no range");
    assert!(parse("src/batch.ts:many").is_err(), "not a number");
    assert!(parse(":10-20").is_err(), "no file");
}

#[test]
fn each_refusal_says_which_part_is_wrong() {
    assert_eq!(
        parse("src/batch.ts note"),
        Err(RefError::NoRange {
            target: "src/batch.ts".into()
        })
    );
    assert_eq!(parse(":10-20"), Err(RefError::NoFile));
    assert_eq!(
        parse("a.rs:x-2"),
        Err(RefError::NotANumber {
            text: "x".into(),
            first: true
        })
    );
    assert_eq!(
        parse("a.rs:1-y"),
        Err(RefError::NotANumber {
            text: "y".into(),
            first: false
        })
    );
}

#[test]
fn a_blank_note_is_no_note_and_a_number_may_carry_a_plus() {
    let got = named("a.rs:+3-4    ");
    assert_eq!(got.range, LineRange::new(3, 4));
    assert_eq!(got.note, None);
}

#[test]
fn a_leading_bracket_names_the_pane() {
    let got = named("a.rs:1-2 [retry] the loop");
    assert_eq!(got.name.as_deref(), Some("retry"));
    assert_eq!(got.note.as_deref(), Some("the loop"));
    let bare = named("b.rs:1-2 [write]");
    assert_eq!(bare.name.as_deref(), Some("write"));
    assert_eq!(bare.note, None);
    let empty = named("b.rs:1-2 [] x");
    assert_eq!(empty.name, None);
    assert_eq!(empty.note.as_deref(), Some("[] x"));
}
