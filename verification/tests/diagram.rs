use deck::diagram::{Diagram, Direction, Edge, Flow, Layout, Line, Node, Role, Step, Weight};
use deck::theme::Rgb;

fn node(id: &str) -> Node {
    Node {
        id: id.into(),
        label: id.into(),
        note: None,
        role: Role::Step,
        weight: Weight::Normal,
        lane: None,
    }
}

fn edge(from: &str, to: &str) -> Edge {
    Edge {
        from: from.into(),
        to: to.into(),
        label: None,
        line: Line::Solid,
    }
}

fn diagram(flow: Direction, nodes: &[&str], edges: &[(&str, &str)]) -> Diagram {
    Diagram {
        title: None,
        flow,
        nodes: nodes.iter().map(|id| node(id)).collect(),
        edges: edges.iter().map(|(f, t)| edge(f, t)).collect(),
        clusters: Vec::new(),
        flows: Vec::new(),
    }
}

/// Where the node called `id` ended up.
fn at(d: &Diagram, layout: &Layout, id: &str) -> (u32, u32) {
    let ix = d.nodes.iter().position(|n| n.id == id).unwrap();
    let p = layout.placed.iter().find(|p| p.node_ix == ix).unwrap();
    (p.col, p.row)
}

#[test]
fn the_last_node_of_a_path_lights() {
    // The front runs to `steps`, not `steps - 1`. A node at index i is
    // full once the front reaches i + 1, so a front that stopped one short
    // left the last node of every path dark.
    let steps = 4;
    let front = steps as f32;
    let last = (front - (steps - 1) as f32).clamp(0., 1.);
    assert_eq!(last, 1., "the node the path was walked to reach");
}

#[test]
fn a_step_can_be_a_bare_id_or_a_colour_of_its_own() {
    let flow = Flow {
        name: "p".into(),
        steps: vec![
            Step::Node("a".into()),
            Step::Lit {
                node: "b".into(),
                color: Rgb::from_hex("#c33"),
            },
        ],
        color: None,
    };

    assert_eq!(flow.steps[0].node(), "a");
    assert_eq!(flow.steps[0].color(), None);
    assert_eq!(flow.steps[1].node(), "b");
    assert_eq!(flow.steps[1].color(), Rgb::from_hex("#c33"));
    assert_eq!(flow.color, None, "and a flow need not have one either");
}

#[test]
fn a_flow_walks_only_the_nodes_that_exist() {
    let mut d = diagram(Direction::Down, &["a", "b"], &[("a", "b")]);
    d.flows = vec![Flow {
        name: "the path".to_string(),
        steps: vec![
            Step::Node("a".into()),
            Step::Node("gone".into()),
            Step::Node("b".into()),
        ],
        color: None,
    }];

    let walked: Vec<&str> = d.flows[0].walk(&d).iter().map(|s| s.node()).collect();
    assert_eq!(walked, vec!["a", "b"]);
}

#[test]
fn a_shape_this_version_does_not_know_is_drawn_as_a_step() {
    assert_eq!(Role::from("hexagon".to_string()), Role::Step);
    assert_eq!(Weight::from("loud".to_string()), Weight::Normal);
}

#[test]
fn a_chain_runs_the_way_the_flow_points() {
    let d = diagram(
        Direction::Right,
        &["a", "b", "c"],
        &[("a", "b"), ("b", "c")],
    );
    let l = d.layout();

    assert_eq!(at(&d, &l, "a"), (0, 0));
    assert_eq!(at(&d, &l, "b"), (1, 0));
    assert_eq!(at(&d, &l, "c"), (2, 0));
    assert_eq!((l.cols, l.rows), (3, 1));
}

#[test]
fn the_same_chain_turned_down_swaps_the_axes() {
    let d = diagram(Direction::Down, &["a", "b", "c"], &[("a", "b"), ("b", "c")]);
    let l = d.layout();

    assert_eq!(at(&d, &l, "c"), (0, 2));
    assert_eq!((l.cols, l.rows), (1, 3));
}

#[test]
fn things_at_the_same_stage_sit_side_by_side_in_the_order_written() {
    let d = diagram(
        Direction::Down,
        &["core", "ui", "cli", "web"],
        &[("core", "ui"), ("core", "cli"), ("core", "web")],
    );
    let l = d.layout();

    assert_eq!(at(&d, &l, "core"), (0, 0));
    assert_eq!(at(&d, &l, "ui"), (0, 1));
    assert_eq!(at(&d, &l, "cli"), (1, 1));
    assert_eq!(at(&d, &l, "web"), (2, 1));
}

#[test]
fn a_node_sits_past_the_furthest_thing_pointing_at_it() {
    let d = diagram(
        Direction::Right,
        &["a", "b", "c"],
        &[("a", "b"), ("b", "c"), ("a", "c")],
    );
    let l = d.layout();

    assert_eq!(at(&d, &l, "c").0, 2);
    assert!(l.back_edges.is_empty());
}

#[test]
fn a_cycle_is_ranked_by_setting_one_edge_aside() {
    let d = diagram(
        Direction::Right,
        &["idle", "running", "done"],
        &[("idle", "running"), ("running", "done"), ("done", "idle")],
    );
    let l = d.layout();

    assert_eq!(l.back_edges, vec![2], "the returning edge is the one bent");
    assert_eq!(at(&d, &l, "idle").0, 0);
    assert_eq!(at(&d, &l, "done").0, 2);
}

#[test]
fn the_walk_starts_from_the_first_node_declared() {
    let d = diagram(
        Direction::Right,
        &["done", "idle", "running"],
        &[("idle", "running"), ("running", "done"), ("done", "idle")],
    );
    let l = d.layout();

    assert_eq!(l.back_edges, vec![1], "the walk from done closes the loop at running");
    assert_eq!(at(&d, &l, "done").0, 0);
    assert_eq!(at(&d, &l, "idle").0, 1);
    assert_eq!(at(&d, &l, "running").0, 2);
}

#[test]
fn names_and_notes_never_move_a_cycle() {
    let plain = diagram(
        Direction::Right,
        &["idle", "running", "done"],
        &[("idle", "running"), ("running", "done"), ("done", "idle")],
    );
    let mut dressed = plain.clone();
    dressed.title = Some("States".into());
    dressed.nodes[0].label = "Idle".into();
    dressed.nodes[1].note = Some("busy".into());
    dressed.nodes[2].role = Role::Terminal;
    dressed.nodes[2].weight = Weight::from("accent".to_string());
    dressed.edges[1].label = Some("finish".into());
    dressed.edges[2].line = Line::Dashed;

    assert_eq!(plain.layout(), dressed.layout());
    assert_eq!(dressed.layout().back_edges, vec![2]);
}

#[test]
fn a_lane_holds_its_track_while_the_flow_runs_past_it() {
    let mut d = diagram(
        Direction::Down,
        &["ask", "answer", "again"],
        &[("ask", "answer"), ("answer", "again")],
    );
    d.nodes[0].lane = Some(0);
    d.nodes[1].lane = Some(1);
    d.nodes[2].lane = Some(0);
    let l = d.layout();

    assert_eq!(at(&d, &l, "ask"), (0, 0));
    assert_eq!(at(&d, &l, "answer"), (1, 1));
    assert_eq!(at(&d, &l, "again"), (0, 2));
}

#[test]
fn an_unlaned_node_fills_in_around_a_laned_one() {
    let mut d = diagram(Direction::Down, &["pinned", "loose"], &[]);
    d.nodes[0].lane = Some(0);
    let l = d.layout();

    assert_eq!(at(&d, &l, "pinned"), (0, 0));
    assert_eq!(at(&d, &l, "loose"), (1, 0), "must not land on the lane");
}

#[test]
fn two_unconnected_halves_sit_beside_each_other() {
    let d = diagram(
        Direction::Down,
        &["was", "was_more", "now"],
        &[("was", "was_more")],
    );
    let l = d.layout();

    assert_eq!(at(&d, &l, "was"), (0, 0));
    assert_eq!(at(&d, &l, "now"), (1, 0));
    assert_eq!(at(&d, &l, "was_more"), (0, 1));
}

#[test]
fn an_edge_naming_a_node_that_is_not_there_is_ignored() {
    let d = diagram(Direction::Right, &["a"], &[("a", "ghost"), ("ghost", "a")]);
    let l = d.layout();

    assert_eq!(at(&d, &l, "a"), (0, 0));
    assert_eq!((l.cols, l.rows), (1, 1));
}

#[test]
fn a_node_pointing_at_itself_does_not_hang() {
    let d = diagram(Direction::Right, &["a", "b"], &[("a", "a"), ("a", "b")]);
    let l = d.layout();

    assert_eq!(l.back_edges, vec![0]);
    assert_eq!(at(&d, &l, "b").0, 1);
}

#[test]
fn a_branch_puts_both_answers_at_the_same_stage() {
    let mut d = diagram(
        Direction::from("down".to_string()),
        &["q", "yes", "no", "file"],
        &[("file", "q"), ("q", "yes"), ("q", "no")],
    );
    d.nodes[0].label = "range mapped?".into();
    d.nodes[0].role = Role::from("decision".to_string());
    d.nodes[1].label = "Source::Diff".into();
    d.nodes[2].label = "Source::Stale".into();
    d.nodes[2].weight = Weight::from("muted".to_string());
    d.nodes[3].label = "snapshot".into();
    d.nodes[3].role = Role::from("store".to_string());
    d.edges[1].label = Some("yes".into());
    d.edges[2].label = Some("no".into());
    d.edges[2].line = Line::from("dashed".to_string());

    assert_eq!(d.nodes[0].role, Role::Decision);
    assert_eq!(d.nodes[3].role, Role::Store);

    let l = d.layout();
    assert_eq!(at(&d, &l, "yes").1, at(&d, &l, "no").1);
    assert_ne!(at(&d, &l, "yes").0, at(&d, &l, "no").0);
}

#[test]
fn a_role_changes_the_drawing_and_not_the_placement() {
    let plain = diagram(Direction::Right, &["a", "b"], &[("a", "b")]);
    let mut shaped = diagram(Direction::Right, &["a", "b"], &[("a", "b")]);
    shaped.nodes[0].role = Role::Actor;
    shaped.nodes[1].role = Role::Terminal;

    assert_eq!(plain.layout(), shaped.layout());
}

#[test]
fn a_diagram_with_no_nodes_still_has_a_size() {
    let d = diagram(Direction::Down, &[], &[]);
    let l = d.layout();

    assert!(l.placed.is_empty());
    assert_eq!((l.cols, l.rows), (1, 1));
}

#[test]
fn the_wire_form_needs_only_nodes() {
    let mut d = diagram(Direction::default(), &["wire", "model"], &[("wire", "model")]);
    d.nodes[0].label = "RefSpec".into();
    d.nodes[0].note = Some("what lands on disk".into());
    d.nodes[1].label = "Anchor".into();
    d.nodes[1].weight = Weight::from("accent".to_string());
    d.edges[0].label = Some("anchor()".into());

    assert_eq!(d.flow, Direction::Down);
    assert_eq!(d.nodes[1].weight, Weight::Accent);
    assert_eq!(d.nodes[0].role, Role::Step, "a node is a box unless it says");
    assert_eq!(d.edges[0].line, Line::Solid);
    assert!(d.clusters.is_empty());

    let l = d.layout();
    assert_eq!(at(&d, &l, "model"), (0, 1));
}

#[test]
fn a_later_declaration_of_an_id_is_the_one_an_edge_reaches() {
    let d = diagram(Direction::Right, &["a", "b", "a"], &[("b", "a")]);
    let l = d.layout();
    // The edge enters the second `a`; the first stays at the start.
    assert_eq!((l.placed[0].col, l.placed[0].row), (0, 0));
    assert_eq!((l.placed[1].col, l.placed[1].row), (0, 1));
    assert_eq!((l.placed[2].col, l.placed[2].row), (1, 0));
}

#[test]
fn names_read_forgivingly() {
    assert_eq!(Direction::from("right".to_string()), Direction::Right);
    assert_eq!(Direction::from("sideways".to_string()), Direction::Down);
    assert_eq!(Role::from("actor".to_string()), Role::Actor);
    assert_eq!(Role::from("terminal".to_string()), Role::Terminal);
    assert_eq!(Line::from("dotted".to_string()), Line::Solid);
}

#[test]
fn two_loops_set_aside_one_edge_each() {
    let d = diagram(
        Direction::Right,
        &["a", "b", "c", "d"],
        &[("a", "b"), ("b", "a"), ("c", "d"), ("d", "c")],
    );
    let l = d.layout();
    assert_eq!(l.back_edges, vec![1, 3]);
    assert_eq!(at(&d, &l, "b"), (1, 0));
    assert_eq!(at(&d, &l, "d"), (1, 1));
}
