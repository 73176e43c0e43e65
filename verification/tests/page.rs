use deck::layout::Arrange;
use deck::line::LineRange;
use deck::page::{
    comments_of, follow, group_for_show, pane_for_show, place_for_show, quarter, stage_for_show, Remark,
    Unshown,
};
use deck::protocol::{Group, Kind, PageRef, Ref, RefSpec, Source};

fn file(name: &str, was: &str, now: &str) -> (String, String, String) {
    (name.to_string(), was.to_string(), now.to_string())
}

#[test]
fn every_pin_comes_back_to_the_remark_it_came_from() {
    let was_a = "one\ntwo\nthree\n";
    let now_a = "added\nadded\none\ntwo\nthree\n";
    let same_b = "alpha\nbeta\n";

    let pins = [
        (0, "a.rs".to_string(), LineRange::new(1, 1)),
        (1, "b.rs".to_string(), LineRange::new(2, 2)),
        (2, "a.rs".to_string(), LineRange::new(3, 3)),
    ];
    let found = follow(&pins, &[file("a.rs", was_a, now_a), file("b.rs", same_b, same_b)])
        .expect("every line is there");
    let at = |ix: usize| found.iter().find(|(i, _)| *i == ix).unwrap().1.range;

    assert_eq!(at(0), LineRange::new(3, 3), "`one` moved down two");
    assert_eq!(at(1), LineRange::new(2, 2), "`beta` did not move");
    assert_eq!(at(2), LineRange::new(5, 5), "`three` moved too");
}

#[test]
fn a_file_nobody_snapshotted_is_left_alone() {
    let pins = [(0, "gone.rs".to_string(), LineRange::new(4, 4))];
    let found = follow(&pins, &[]).unwrap();

    assert!(found.is_empty());
}

#[test]
fn four_turns_are_four_different_pages() {
    let pages: Vec<(Arrange, bool)> = (0..4).map(quarter).collect();
    assert_eq!(
        pages,
        vec![
            (Arrange::Columns, false),
            (Arrange::Stacked, false),
            (Arrange::Columns, true),
            (Arrange::Stacked, true),
        ]
    );
}

#[test]
fn turning_four_times_comes_back_to_where_it_started() {
    for turn in 0..4 {
        assert_eq!(quarter(turn), quarter(turn + 4));
    }
}

#[test]
fn a_half_turn_keeps_the_axis_and_swaps_the_panes() {
    for turn in 0..2 {
        let (there, forwards) = quarter(turn);
        let (back, reversed) = quarter(turn + 2);
        assert_eq!(there, back);
        assert!(!forwards && reversed);
    }
}

#[test]
fn the_last_turn_a_byte_holds_is_still_a_page() {
    assert_eq!(quarter(255), (Arrange::Stacked, true));
}

fn code(id: &str, file: &str) -> Ref {
    Ref::Code(RefSpec {
        id: id.into(),
        file: file.into(),
        range: LineRange::new(1, 2),
        note: None,
        name: None,
        after: None,
        before: None,
    })
}

fn group(id: &str, refs: Vec<Ref>) -> Group {
    Group { id: id.into(), ord: None, say: String::new(), refs }
}

#[test]
fn a_show_lands_in_the_group_it_names_or_the_one_on_screen() {
    let groups = [group("g1", Vec::new()), group("g2", Vec::new())];
    assert_eq!(group_for_show(&groups, 0, Some("g2")), Ok(1));
    assert_eq!(group_for_show(&groups, 1, None), Ok(1));
    assert_eq!(
        group_for_show(&groups, 0, Some("g9")),
        Err(Unshown::NoSuchGroup { id: "g9".into() })
    );
    assert_eq!(group_for_show(&[], 0, None), Err(Unshown::NoGroup));
}

#[test]
fn a_file_two_panes_show_has_to_be_named_by_pane() {
    let g = group(
        "g1",
        vec![
            code("g1r1", "a.rs"),
            Ref::Page(PageRef { id: "g1p2".into(), page: String::new(), note: None, name: None }),
            code("g1r3", "a.rs"),
            code("g1r4", "b.rs"),
        ],
    );
    let same = [true, false, true, false];
    assert_eq!(pane_for_show(&g, &same, None), Err(Unshown::Ambiguous));
    assert_eq!(pane_for_show(&g, &same, Some("g1r3")), Ok(2));
    assert_eq!(pane_for_show(&g, &[false; 4], None), Err(Unshown::NotInAPane));
    assert_eq!(pane_for_show(&g, &[false, false, false, true], None), Ok(3));
}

#[test]
fn a_shown_range_carries_the_lines_it_lights() {
    let g = group("g1", vec![code("g1r1", "a.rs")]);
    let text = "one\ntwo\r\nthree\nfour\n";
    let (stage, same) = stage_for_show(
        "s1".into(),
        &g,
        0,
        LineRange::new(2, 3),
        Some(text),
        "snapshot:1".into(),
        Some(text),
    )
    .expect("the lines are there");
    assert_eq!(stage.quote, "two\nthree");
    assert_eq!(stage.group, "g1");
    assert_eq!(stage.ref_id.as_deref(), Some("g1r1"));
    assert_eq!(stage.range, Some(LineRange::new(2, 3)));
    assert!(same, "and the file has not moved");

    let moved = stage_for_show("s2".into(), &g, 0, LineRange::new(1, 1), Some(text), "x".into(), Some("zero\n"));
    assert!(!moved.unwrap().1);
    assert_eq!(
        stage_for_show("s3".into(), &g, 0, LineRange::new(4, 9), Some(text), "x".into(), None),
        Err(Unshown::OutOfRange { lines: 4 })
    );
    assert_eq!(
        stage_for_show("s4".into(), &g, 0, LineRange::new(1, 1), None, "x".into(), None),
        Err(Unshown::Unreadable)
    );
}

fn remark(file: Option<&str>, range: Option<LineRange>, text: &str) -> Remark {
    Remark {
        group: "g1".into(),
        ref_id: file.map(|_| "g1r1".to_string()),
        file: file.map(str::to_string),
        range,
        quote: String::new(),
        text: text.into(),
        kind: Kind::MustFix,
    }
}

#[test]
fn a_comment_goes_back_where_its_own_line_went() {
    let was = "one\ntwo\nthree\n";
    let now = "added\none\ntwo\nthree\n";
    let remarks = [
        remark(Some("a.rs"), Some(LineRange::new(3, 3)), "about three"),
        remark(None, None, "about the whole claim"),
        remark(Some("a.rs"), Some(LineRange::new(1, 1)), "about one"),
    ];
    let pins: Vec<(usize, String, LineRange)> = remarks
        .iter()
        .enumerate()
        .filter_map(|(ix, r)| Some((ix, r.file.clone()?, r.range?)))
        .collect();
    let found = follow(&pins, &[file("a.rs", was, now)]).unwrap();
    let comments = comments_of(&remarks, &found);

    assert_eq!(comments.len(), 3);
    assert_eq!(comments[0].text, "about three");
    assert_eq!(comments[0].range, Some(LineRange::new(4, 4)));
    assert_eq!(comments[0].source, Some(Source::Diff));
    assert_eq!(comments[1].range, None, "a remark about the claim names no line");
    assert_eq!(comments[1].source, None);
    assert_eq!(comments[2].range, Some(LineRange::new(2, 2)));
    assert_eq!(comments[2].kind, Kind::MustFix);
}

#[test]
fn a_show_finds_its_group_and_then_its_pane() {
    let groups = [
        group("g1", vec![code("g1r1", "a.rs")]),
        group("g2", vec![code("g2r1", "a.rs"), code("g2r2", "a.rs")]),
    ];
    let same = [vec![true], vec![true, true]];
    assert_eq!(place_for_show(&groups, 0, None, &same), Err(Unshown::NoTarget));
    assert_eq!(place_for_show(&groups, 0, Some((None, None)), &same), Ok((0, 0)));
    assert_eq!(place_for_show(&groups, 0, Some((Some("g2"), Some("g2r2"))), &same), Ok((1, 1)));
    assert_eq!(
        place_for_show(&groups, 0, Some((Some("g2"), None)), &same),
        Err(Unshown::Ambiguous)
    );
    assert_eq!(
        place_for_show(&groups, 0, Some((Some("g9"), None)), &same),
        Err(Unshown::NoSuchGroup { id: "g9".into() })
    );
    assert_eq!(place_for_show(&groups, 5, Some((None, None)), &same), Err(Unshown::NoGroup));
    assert_eq!(
        place_for_show(&groups, 0, Some((None, None)), &[vec![false], vec![true, true]]),
        Err(Unshown::NotInAPane)
    );
}
