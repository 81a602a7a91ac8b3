use dotparser::dot::parser::parse_dot_to_events;
use dotparser::events::{
    Direction, EdgeType, GraphEvent, LayoutType, NodeType, Position, Properties,
};

fn count_nodes(events: &[GraphEvent]) -> usize {
    events.iter().filter(|e| matches!(e, GraphEvent::AddNode { .. })).count()
}

fn count_edges(events: &[GraphEvent]) -> usize {
    events.iter().filter(|e| matches!(e, GraphEvent::AddEdge { .. })).count()
}

#[test]
fn test_parse_simple_graph_to_events() {
    let dot = r"
            digraph {
                A -> B;
                B -> C;
            }
        ";

    let events = parse_dot_to_events(dot);

    assert!(events.len() >= 6);
    assert!(matches!(events.first(), Some(GraphEvent::BatchStart)));
    assert!(matches!(events.last(), Some(GraphEvent::BatchEnd)));

    let node_count = count_nodes(&events);
    let edge_count = count_edges(&events);

    assert_eq!(node_count, 3);
    assert_eq!(edge_count, 2);
}

#[test]
fn test_parse_node_with_attributes_to_events() {
    let dot = r#"
            digraph {
                "Node1" [type="team", level="2", label="Team Alpha"];
                "Node2" [type="user", level="1"];
                "Node1" -> "Node2";
            }
        "#;

    let events = parse_dot_to_events(dot);

    let node1_event = events
        .iter()
        .find(|e| matches!(e, GraphEvent::AddNode { id, .. } if id == "Node1"));

    assert!(node1_event.is_some());

    if let Some(GraphEvent::AddNode { label, node_type, properties, .. }) = node1_event {
        assert_eq!(label.as_deref(), Some("Team Alpha"));
        assert!(matches!(node_type, NodeType::Custom(t) if t == "team"));
        assert!(matches!(properties.position, Some(Position::Layer { level: 2 })));
    }
}

#[test]
fn test_layout_detection() {
    let dot = r"
            digraph {
                rankdir=LR;
                A -> B;
            }
        ";

    let events = parse_dot_to_events(dot);

    let layout_event = events.iter().find(|e| matches!(e, GraphEvent::SetLayout { .. }));
    assert!(layout_event.is_some());

    if let Some(GraphEvent::SetLayout { layout_type, .. }) = layout_event {
        assert!(matches!(
            layout_type,
            LayoutType::Hierarchical { direction: Direction::LeftToRight }
        ));
    }
}

#[test]
fn simple_graph_yields_exact_event_sequence() {
    let events = parse_dot_to_events("digraph {\n  A -> B;\n  B -> C;\n}\n");
    let expected = vec![
        GraphEvent::BatchStart,
        GraphEvent::simple_node("A", "A"),
        GraphEvent::simple_node("B", "B"),
        GraphEvent::simple_edge("A", "B"),
        GraphEvent::simple_node("C", "C"),
        GraphEvent::simple_edge("B", "C"),
        GraphEvent::BatchEnd,
    ];
    assert_eq!(events, expected);
}

#[test]
fn edges_without_spaces_on_one_line_each() {
    let events = parse_dot_to_events("digraph{\nA->B;\nB->C;\n}");
    assert_eq!(count_nodes(&events), 3);
    assert_eq!(count_edges(&events), 2);
    let ids: Vec<&str> = events
        .iter()
        .filter_map(|e| match e {
            GraphEvent::AddNode { id, .. } => Some(id.as_str()),
            _ => None,
        })
        .collect();
    assert_eq!(ids, vec!["A", "B", "C"]);
    assert_eq!(events.iter().filter(|e| matches!(e, GraphEvent::BatchStart)).count(), 1);
    assert_eq!(events.iter().filter(|e| matches!(e, GraphEvent::BatchEnd)).count(), 1);
}

#[test]
fn undirected_graph_uses_double_dash() {
    let events = parse_dot_to_events("graph {\n  A -- B\n}");
    let edge = events.iter().find(|e| matches!(e, GraphEvent::AddEdge { .. })).unwrap();
    match edge {
        GraphEvent::AddEdge { id, from, to, edge_type, label, properties } => {
            assert_eq!(id, "A--B");
            assert_eq!(from, "A");
            assert_eq!(to, "B");
            assert_eq!(*edge_type, EdgeType::Undirected);
            assert_eq!(*label, None);
            assert_eq!(*properties, Properties::default());
        }
        _ => unreachable!(),
    }
}

#[test]
fn node_attributes_fill_label_type_level_and_custom() {
    let events = parse_dot_to_events(
        "digraph {\n \"X\" [type=\"team\", level=\"2\", label=\"Team Alpha\", color=\"red\"]\n X -> Y\n}",
    );
    match &events[1] {
        GraphEvent::AddNode { id, label, node_type, properties } => {
            assert_eq!(id, "X");
            assert_eq!(label.as_deref(), Some("Team Alpha"));
            assert_eq!(*node_type, NodeType::Custom("team".to_string()));
            assert_eq!(properties.position, Some(Position::Layer { level: 2 }));
            assert_eq!(properties.style, None);
            assert_eq!(properties.custom.get("color").map(|s| s.as_str()), Some("red"));
            assert_eq!(properties.custom.len(), 1);
        }
        other => panic!("unexpected event {:?}", other),
    }
    // X is known from its definition, only Y is declared by the edge.
    assert_eq!(count_nodes(&events), 2);
}

#[test]
fn node_without_label_is_labelled_by_its_id() {
    let events = parse_dot_to_events("digraph {\n N [shape=box]\n N -> M\n}");
    match &events[1] {
        GraphEvent::AddNode { id, label, node_type, properties } => {
            assert_eq!(id, "N");
            assert_eq!(label.as_deref(), Some("N"));
            assert_eq!(*node_type, NodeType::Node);
            assert_eq!(properties.position, None);
        }
        other => panic!("unexpected event {:?}", other),
    }
}

#[test]
fn level_that_is_no_number_gives_no_position() {
    let events = parse_dot_to_events("digraph {\n N [level=\"two\"]\n N -> M\n}");
    match &events[1] {
        GraphEvent::AddNode { properties, .. } => assert_eq!(properties.position, None),
        other => panic!("unexpected event {:?}", other),
    }
}

#[test]
fn rankdir_values_map_to_directions() {
    for (value, direction) in [
        ("BT", Direction::BottomToTop),
        ("LR", Direction::LeftToRight),
        ("RL", Direction::RightToLeft),
        ("TB", Direction::TopToBottom),
        ("sideways", Direction::TopToBottom),
    ] {
        let text = format!("digraph {{\n A -> B;\n rankdir=\"{}\";\n}}", value);
        let events = parse_dot_to_events(&text);
        assert_eq!(
            events[1],
            GraphEvent::SetLayout {
                layout_type: LayoutType::Hierarchical { direction },
                properties: Properties::default(),
            }
        );
        assert_eq!(events.iter().filter(|e| matches!(e, GraphEvent::SetLayout { .. })).count(), 1);
    }
}

#[test]
fn no_rankdir_means_no_layout_event() {
    let events = parse_dot_to_events("digraph {\n A -> B;\n}");
    assert!(!events.iter().any(|e| matches!(e, GraphEvent::SetLayout { .. })));
}

#[test]
fn comments_and_blank_lines_are_skipped() {
    let events = parse_dot_to_events("digraph {\n // A -> B;\n\n // X [label=\"x\"]\n C -> D;\n}");
    assert_eq!(
        events,
        vec![
            GraphEvent::BatchStart,
            GraphEvent::simple_node("C", "C"),
            GraphEvent::simple_node("D", "D"),
            GraphEvent::simple_edge("C", "D"),
            GraphEvent::BatchEnd,
        ]
    );
}

#[test]
fn edge_target_stops_at_attribute_list() {
    let events = parse_dot_to_events("digraph {\n A -> B [label=\"x\"];\n}");
    // The line holds `->`, so it defines no node; the edge has no label.
    assert_eq!(
        events,
        vec![
            GraphEvent::BatchStart,
            GraphEvent::simple_node("A", "A"),
            GraphEvent::simple_node("B", "B"),
            GraphEvent::simple_edge("A", "B"),
            GraphEvent::BatchEnd,
        ]
    );
}

#[test]
fn self_loop_declares_its_node_once() {
    let events = parse_dot_to_events("digraph {\n A -> A\n}");
    assert_eq!(
        events,
        vec![
            GraphEvent::BatchStart,
            GraphEvent::simple_node("A", "A"),
            GraphEvent::simple_edge("A", "A"),
            GraphEvent::BatchEnd,
        ]
    );
}

#[test]
fn closing_bracket_before_opening_one_defines_nothing() {
    let events = parse_dot_to_events("digraph {\n a] [b\n}");
    assert_eq!(events, vec![GraphEvent::BatchStart, GraphEvent::BatchEnd]);
}

#[test]
fn empty_text_yields_empty_batch() {
    assert_eq!(parse_dot_to_events(""), vec![GraphEvent::BatchStart, GraphEvent::BatchEnd]);
}

#[test]
fn parsing_twice_gives_the_same_events() {
    let dot = "digraph {\n rankdir=LR;\n \"A\" [type=\"t\", k=v];\n A -> B;\n B -> C;\n}";
    assert_eq!(parse_dot_to_events(dot), parse_dot_to_events(dot));
}

#[test]
fn flow_chart_with_layout_nodes_and_labelled_edges() {
    let dot_content = r#"
        digraph G {
            rankdir=LR;
            
            // Nodes with attributes
            Start [type="initial", label="Start"];
            Process [type="process", label="Data Processing"];
            Decision [type="decision", label="Valid?"];
            End [type="final", label="End"];
            
            // Edges
            Start -> Process;
            Process -> Decision;
            Decision -> End [label="Yes"];
            Decision -> Process [label="No"];
        }
    "#;
    let custom = |id: &str, kind: &str, label: &str| GraphEvent::AddNode {
        id: id.to_string(),
        label: Some(label.to_string()),
        node_type: NodeType::Custom(kind.to_string()),
        properties: Properties::default(),
    };
    assert_eq!(
        parse_dot_to_events(dot_content),
        vec![
            GraphEvent::BatchStart,
            GraphEvent::SetLayout {
                layout_type: LayoutType::Hierarchical { direction: Direction::LeftToRight },
                properties: Properties::default(),
            },
            custom("Start", "initial", "Start"),
            custom("Process", "process", "Data Processing"),
            custom("Decision", "decision", "Valid?"),
            custom("End", "final", "End"),
            GraphEvent::simple_edge("Start", "Process"),
            GraphEvent::simple_edge("Process", "Decision"),
            GraphEvent::simple_edge("Decision", "End"),
            GraphEvent::simple_edge("Decision", "Process"),
            GraphEvent::BatchEnd,
        ]
    );
}

#[test]
fn rankdir_is_seen_wherever_it_stands_on_a_line() {
    let events = parse_dot_to_events("digraph { rankdir=LR;\nA -> B;\n}");
    assert_eq!(
        events,
        vec![
            GraphEvent::BatchStart,
            GraphEvent::SetLayout {
                layout_type: LayoutType::Hierarchical { direction: Direction::LeftToRight },
                properties: Properties::default(),
            },
            GraphEvent::simple_node("A", "A"),
            GraphEvent::simple_node("B", "B"),
            GraphEvent::simple_edge("A", "B"),
            GraphEvent::BatchEnd,
        ]
    );
}

#[test]
fn rankdir_in_a_comment_is_not_seen() {
    let events = parse_dot_to_events("digraph {\n // rankdir=LR;\n A -> B\n}");
    assert!(!events.iter().any(|e| matches!(e, GraphEvent::SetLayout { .. })));
}

#[test]
fn quoted_edge_ends_before_a_semicolon_are_unquoted() {
    let dot = "digraph {\n\"Node1\" [type=\"team\", level=\"2\", label=\"Team Alpha\"];\n\"Node2\" [type=\"user\", level=\"1\"];\n\"Node1\" -> \"Node2\";\n}";
    let defined = |id: &str, label: &str, kind: &str, level: u32| GraphEvent::AddNode {
        id: id.to_string(),
        label: Some(label.to_string()),
        node_type: NodeType::Custom(kind.to_string()),
        properties: Properties::at(Position::Layer { level }),
    };
    assert_eq!(
        parse_dot_to_events(dot),
        vec![
            GraphEvent::BatchStart,
            defined("Node1", "Team Alpha", "team", 2),
            defined("Node2", "Node2", "user", 1),
            GraphEvent::simple_edge("Node1", "Node2"),
            GraphEvent::BatchEnd,
        ]
    );
    let spaced = parse_dot_to_events("digraph {\n \"a b\" -> \"c d\" ;\n}");
    assert_eq!(spaced[3], GraphEvent::simple_edge("a b", "c d"));
}

#[test]
fn every_edge_runs_between_nodes_added_before() {
    let dot = "digraph {\n X [label=\"x\"]\n A -> X;\n X -> \"B\";\n B -> A\n}";
    let events = parse_dot_to_events(dot);
    let mut added: Vec<&str> = Vec::new();
    for event in &events {
        match event {
            GraphEvent::AddNode { id, .. } => added.push(id.as_str()),
            GraphEvent::AddEdge { from, to, .. } => {
                assert!(added.contains(&from.as_str()));
                assert!(added.contains(&to.as_str()));
            }
            _ => {}
        }
    }
    assert_eq!(added, vec!["X", "A", "B"]);
}

#[test]
fn attribute_free_edges_give_nodes_in_first_seen_order() {
    let dot = "digraph {\n c -> a;\n a -> b;\n c -> c;\n b -> d;\n d -> a;\n}";
    let events = parse_dot_to_events(dot);
    let nodes: Vec<&str> = events
        .iter()
        .filter_map(|e| match e {
            GraphEvent::AddNode { id, .. } => Some(id.as_str()),
            _ => None,
        })
        .collect();
    assert_eq!(nodes, vec!["c", "a", "b", "d"]);
    let edges: Vec<(&str, &str)> = events
        .iter()
        .filter_map(|e| match e {
            GraphEvent::AddEdge { from, to, .. } => Some((from.as_str(), to.as_str())),
            _ => None,
        })
        .collect();
    assert_eq!(edges, vec![("c", "a"), ("a", "b"), ("c", "c"), ("b", "d"), ("d", "a")]);
    assert_eq!(events.len(), 2 + 4 + 5);
    assert_eq!(events.first(), Some(&GraphEvent::BatchStart));
    assert_eq!(events.last(), Some(&GraphEvent::BatchEnd));
}

#[test]
fn text_without_the_word_rankdir_sets_no_layout() {
    for dot in ["digraph { A -> B }", "graph {\n rank=same;\n dir=LR;\n a -- b\n}", ""] {
        let events = parse_dot_to_events(dot);
        assert!(!events.iter().any(|e| matches!(e, GraphEvent::SetLayout { .. })));
    }
}
