use deck::line::LineRange;
use deck::protocol::Source;
use deck::relocate::{relocate, relocate_within, Relocated};

#[test]
fn identical_text_keeps_every_pin() {
    let text = "a\nb\nc\nd\n";
    let pins = [LineRange::new(2, 3), LineRange::single(4)];
    assert_eq!(
        relocate(text, text, &pins),
        vec![
            Relocated { range: LineRange::new(2, 3), source: Source::Diff },
            Relocated { range: LineRange::single(4), source: Source::Diff },
        ]
    );
}

#[test]
fn lines_added_above_push_a_pin_down() {
    let was = "fn a() {}\nfn b() {}\nfn c() {}\n";
    let now = "// one\n// two\n// three\nfn a() {}\nfn b() {}\nfn c() {}\n";
    let got = relocate(was, now, &[LineRange::single(2)]);
    assert_eq!(got[0], Relocated { range: LineRange::single(5), source: Source::Diff });
}

#[test]
fn an_edit_inside_a_range_keeps_its_ends() {
    let was = "a\nb\nc\nd\ne\n";
    let now = "a\nb\nCHANGED\nd\ne\n";
    let got = relocate(was, now, &[LineRange::new(2, 4)]);
    assert_eq!(got[0], Relocated { range: LineRange::new(2, 4), source: Source::Diff });
}

#[test]
fn a_rewritten_line_is_found_by_its_neighbours() {
    // The pinned line itself changed in place, so the diff loses it; the same
    // text with the same neighbours appears further down.
    let was = "start\n    let x = 1;\nend\n";
    let now = "start\n    let x = 2;\nend\nstart\n    let x = 1;\nend\n";
    let got = relocate(was, now, &[LineRange::single(2)]);
    assert_eq!(got[0].source, Source::Diff);

    let was = "alpha\ntarget line\nomega\n";
    let now = "new first\nalpha\n  target line  \nomega\n";
    let got = relocate(was, now, &[LineRange::single(2)]);
    assert_eq!(got[0].range, LineRange::single(3));
}

#[test]
fn a_line_that_is_gone_is_said_to_be_stale() {
    let was = "one\ntwo\nthree\n";
    let now = "uno\ndos\n";
    let got = relocate(was, now, &[LineRange::new(2, 3)]);
    assert_eq!(got[0], Relocated { range: LineRange::new(2, 2), source: Source::Stale });
}

#[test]
fn every_pin_comes_back_when_they_all_fit() {
    let text = "x\ny\n";
    let got = relocate_within(text, text, &[LineRange::single(1), LineRange::single(2)]);
    assert_eq!(got.map(|v| v.len()), Some(2));
}

#[test]
fn identical_text_gives_every_pin_back_marked_by_the_diff() {
    let text = "a\nb\nc\n";
    let pins = [LineRange::new(1, 2), LineRange::new(3, 3)];
    let got = relocate_within(text, text, &pins).unwrap();
    for (pin, moved) in pins.iter().zip(&got) {
        assert_eq!(*moved, Relocated { range: *pin, source: Source::Diff });
    }
}

#[test]
fn every_answer_points_inside_the_current_text() {
    let was = "a\nb\nc\nd\ne\n";
    let now = "a\nc\n";
    let pins = [LineRange::new(1, 1), LineRange::new(3, 3), LineRange::new(4, 5), LineRange::new(2, 5)];
    let got = relocate(was, now, &pins);
    assert_eq!(got.len(), pins.len());
    for r in &got {
        assert!(1 <= r.range.first && r.range.first <= r.range.last && r.range.last <= 2);
        assert_ne!(r.source, Source::Extmark);
    }
    assert_eq!(got[0], Relocated { range: LineRange::new(1, 1), source: Source::Diff });
    assert_eq!(got[1], Relocated { range: LineRange::new(2, 2), source: Source::Diff });
}
