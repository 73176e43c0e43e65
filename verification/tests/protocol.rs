use deck::diagram::{Diagram, Direction, Edge, Line, Node, Role, Weight};
use deck::line::LineRange;
use deck::protocol::{DiagramRef, Group, Kind, Ref, RefSpec, Source};

fn node(id: &str, label: &str) -> Node {
    Node {
        id: id.into(),
        label: label.into(),
        note: None,
        role: Role::Step,
        weight: Weight::Normal,
        lane: None,
    }
}

#[test]
fn a_name_this_version_does_not_know_reads_as_the_default() {
    assert_eq!(Kind::from("praise".to_string()), Kind::Question);
    assert_eq!(Kind::from("must-fix".to_string()), Kind::MustFix);
}

#[test]
fn a_source_that_cannot_be_read_is_not_trusted() {
    assert_eq!(Source::from("telepathy".to_string()), Source::Stale);
}

#[test]
fn an_unclassified_comment_is_a_question() {
    assert_eq!(Kind::default(), Kind::Question);
}

#[test]
fn a_group_can_mix_code_and_a_diagram_in_one_row_of_panes() {
    let group = Group {
        id: "g1".into(),
        ord: None,
        say: "the wire becomes the model".into(),
        refs: vec![
            Ref::Code(RefSpec {
                id: "g1r1".into(),
                file: "src/protocol.rs".into(),
                range: LineRange::new(79, 97),
                note: None,
                name: None,
                after: None,
                before: None,
            }),
            Ref::Diagram(DiagramRef {
                id: "g1d1".into(),
                diagram: Diagram {
                    title: None,
                    flow: Direction::Right,
                    nodes: vec![node("a", "RefSpec"), node("b", "Anchor")],
                    edges: vec![Edge {
                        from: "a".into(),
                        to: "b".into(),
                        label: Some("anchor()".into()),
                        line: Line::Solid,
                    }],
                    clusters: Vec::new(),
                    flows: Vec::new(),
                },
                note: Some("how they relate".into()),
                name: None,
            }),
        ],
    };

    assert_eq!(group.refs.len(), 2);
    assert_eq!(group.refs[0].id(), "g1r1");
    assert_eq!(group.refs[1].id(), "g1d1");
    assert!(matches!(group.refs[0], Ref::Code(_)));
    let Ref::Diagram(drawn) = &group.refs[1] else {
        panic!("an entry with a diagram is a diagram");
    };
    assert_eq!(drawn.diagram.layout().cols, 2);
}

#[test]
fn every_wire_name_reads_back_as_itself() {
    for kind in [Kind::MustFix, Kind::Question, Kind::Nit] {
        assert_eq!(Kind::from(kind.name()), kind);
    }
    for source in [Source::Extmark, Source::Diff, Source::Fingerprint, Source::Stale] {
        assert_eq!(Source::from(source.name()), source);
    }
    assert_eq!(Kind::MustFix.name(), "must-fix");
}
