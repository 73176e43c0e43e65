use deck::line::LineRange;

#[test]
fn a_single_line_range_has_length_one() {
    let range = LineRange::single(7);
    assert_eq!(range.len(), 1);
    assert_eq!(range.to_zero_based(), 6..7);
}

#[test]
fn inclusive_ends_survive_the_conversion_to_indices() {
    let lines = ["a", "b", "c", "d", "e"];
    // Lines 2 through 4, as a person would say it.
    let range = LineRange::new(2, 4);
    assert_eq!(&lines[range.to_zero_based()], &["b", "c", "d"]);
}

#[test]
fn a_backwards_range_is_corrected_rather_than_rejected() {
    assert_eq!(LineRange::new(9, 3), LineRange::new(3, 9));
}

#[test]
fn there_is_no_line_zero() {
    assert_eq!(LineRange::new(0, 0), LineRange::single(1));
}

#[test]
fn clamping_keeps_a_stale_range_inside_the_file() {
    assert_eq!(LineRange::new(90, 120).clamp_to(40), LineRange::single(40));
    assert_eq!(LineRange::new(10, 120).clamp_to(40), LineRange::new(10, 40));
}

#[test]
fn a_label_reads_the_way_it_is_spoken() {
    assert_eq!(LineRange::new(120, 134).label(), "120-134");
    assert_eq!(LineRange::single(120).label(), "120");
}

#[test]
fn the_wire_pair_converts_both_ways() {
    let range = LineRange::from([134, 120]);
    assert_eq!(range, LineRange::new(120, 134));
    let pair: [u32; 2] = range.into();
    assert_eq!(pair, [120, 134]);
}

#[test]
fn containment_is_inclusive_at_both_ends() {
    let range = LineRange::new(3, 5);
    assert!(range.contains(3));
    assert!(range.contains(5));
    assert!(!range.contains(2));
    assert!(!range.contains(6));
}

#[test]
fn clamping_an_empty_file_keeps_line_one() {
    assert_eq!(LineRange::new(4, 9).clamp_to(0), LineRange::single(1));
}
