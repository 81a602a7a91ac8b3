use dotparser::dot::parser::{
    classify_cluster, classify_leaf, extract_label_value, extract_node_label, extract_rankdir,
    parse_dot_to_events,
};
use dotparser::events::{EdgeType, GraphEvent, NodeType, Position, Properties};

fn node(label: &str, kind: Option<&str>, level: u32) -> GraphEvent {
    GraphEvent::AddNode {
        id: label.to_string(),
        label: Some(label.to_string()),
        node_type: match kind {
            Some(name) => NodeType::Custom(name.to_string()),
            None => NodeType::Node,
        },
        properties: Properties::at(Position::Layer { level }),
    }
}

fn chars(s: &str) -> Vec<char> {
    s.chars().collect()
}

#[test]
fn three_clusters_and_a_leaf_form_one_chain() {
    let dot = "digraph OrgHierarchy {\n  subgraph cluster_tenant {\n    Label=\"Tenant: main_tenant\"\n    subgraph cluster_org {\n      label=\"Organization: org1\"\n      subgraph cluster_site {\n        label=\"Site: site1\"\n        \"user1\" [label=\"User One\"];\n      }\n    }\n  }\n}";
    let events = parse_dot_to_events(dot);
    assert_eq!(
        events,
        vec![
            GraphEvent::BatchStart,
            node("main_tenant", Some("organization"), 0),
            node("org1", None, 1),
            GraphEvent::simple_edge("main_tenant", "org1"),
            node("site1", Some("site"), 2),
            GraphEvent::simple_edge("org1", "site1"),
            node("User One", Some("user"), 3),
            GraphEvent::simple_edge("site1", "User One"),
            GraphEvent::BatchEnd,
        ]
    );
}

#[test]
fn chain_does_not_depend_on_attribute_order() {
    let first = "subgraph cluster_t {\n label=\"tenant a\"\n color=blue\n subgraph cluster_s {\n  style=filled\n  label=\"site b\"\n  u [shape=box, label=\"c\"]\n }\n}";
    let second = "subgraph cluster_t {\n color=blue\n label=\"tenant a\"\n subgraph cluster_s {\n  label=\"site b\"\n  style=filled\n  u [label=\"c\", shape=box]\n }\n}";
    let expected = vec![
        GraphEvent::BatchStart,
        node("tenant a", Some("organization"), 0),
        node("site b", Some("site"), 1),
        GraphEvent::simple_edge("tenant a", "site b"),
        node("c", Some("user"), 2),
        GraphEvent::simple_edge("site b", "c"),
        GraphEvent::BatchEnd,
    ];
    assert_eq!(parse_dot_to_events(first), expected);
    assert_eq!(parse_dot_to_events(second), expected);
    let nodes = expected.iter().filter(|e| matches!(e, GraphEvent::AddNode { .. })).count();
    let edges = expected.iter().filter(|e| matches!(e, GraphEvent::AddEdge { .. })).count();
    assert_eq!((nodes, edges), (3, 2));
}

#[test]
fn cluster_label_before_a_semicolon_is_unquoted() {
    let events = parse_dot_to_events("subgraph cluster_a {\n Label=\"Tenant: main\";\n}");
    assert_eq!(
        events,
        vec![GraphEvent::BatchStart, node("main", None, 0), GraphEvent::BatchEnd]
    );
    assert_eq!(extract_label_value("Label=\"Tenant: main_tenant\";"), "main_tenant");
    assert_eq!(extract_label_value("label=\"Site: s1\" ; "), "s1");
    assert_eq!(extract_label_value("label=bare;;"), "bare");
}

#[test]
fn nested_chart_of_the_tenant_with_semicolons() {
    let dot = r#"
            digraph OrgHierarchy {
                subgraph cluster_tenant {
                    Label="Tenant: main_tenant";
                    subgraph cluster_org {
                        label="Organization: org1";
                        subgraph cluster_site {
                            label="Site: site1";
                            "user1" [label="User One"];
                        }
                    }
                }
            }
        "#;
    assert_eq!(
        parse_dot_to_events(dot),
        vec![
            GraphEvent::BatchStart,
            node("main_tenant", Some("organization"), 0),
            node("org1", None, 1),
            GraphEvent::simple_edge("main_tenant", "org1"),
            node("site1", Some("site"), 2),
            GraphEvent::simple_edge("org1", "site1"),
            node("User One", Some("user"), 3),
            GraphEvent::simple_edge("site1", "User One"),
            GraphEvent::BatchEnd,
        ]
    );
}

#[test]
fn nested_dialect_never_sets_a_layout() {
    let events = parse_dot_to_events("rankdir=LR\nsubgraph cluster_a {\n label=\"x\"\n}");
    assert!(!events.iter().any(|e| matches!(e, GraphEvent::SetLayout { .. })));
    assert_eq!(events, vec![GraphEvent::BatchStart, node("x", None, 0), GraphEvent::BatchEnd]);
}

#[test]
fn closing_brace_pops_one_frame() {
    let dot = "subgraph cluster_a {\n label=\"site a\"\n subgraph cluster_b {\n  label=\"contact center b\"\n }\n k [label=\"supervisor k\"]\n}\nz [label=\"z\"]";
    let events = parse_dot_to_events(dot);
    assert_eq!(
        events,
        vec![
            GraphEvent::BatchStart,
            node("site a", Some("site"), 0),
            node("contact center b", Some("line_of_business"), 1),
            GraphEvent::simple_edge("site a", "contact center b"),
            node("supervisor k", Some("team"), 1),
            GraphEvent::simple_edge("site a", "supervisor k"),
            node("z", Some("user"), 0),
            GraphEvent::BatchEnd,
        ]
    );
}

#[test]
fn leaf_without_quoted_label_is_named_by_its_id() {
    let events = parse_dot_to_events("subgraph cluster_a {\n \"n1\" [label=plain]\n}");
    assert_eq!(events, vec![GraphEvent::BatchStart, node("n1", Some("user"), 1), GraphEvent::BatchEnd]);
}

#[test]
fn leaf_under_unlabelled_cluster_has_no_parent_edge() {
    let events = parse_dot_to_events("subgraph cluster_a {\n n [label=\"N\"]\n}");
    assert!(!events.iter().any(|e| matches!(e, GraphEvent::AddEdge { .. })));
}

#[test]
fn text_with_double_dash_is_edge_based() {
    let events = parse_dot_to_events("graph {\n subgraph cluster_a {\n  label=\"x\"\n  a -- b\n }\n}");
    match &events[3] {
        GraphEvent::AddEdge { id, edge_type, .. } => {
            assert_eq!(id, "a--b");
            assert_eq!(*edge_type, EdgeType::Undirected);
        }
        other => panic!("unexpected event {:?}", other),
    }
}

#[test]
fn label_value_keeps_what_follows_the_last_colon() {
    assert_eq!(extract_label_value("label=\"Tenant: main_tenant\""), "main_tenant");
    assert_eq!(extract_label_value("label=\"a: b: c\""), "c");
    assert_eq!(extract_label_value("Label=plain;"), "plain");
    assert_eq!(extract_label_value("label = \" spaced \" "), " spaced ");
    assert_eq!(extract_label_value("label="), "");
    assert_eq!(extract_label_value("xyz"), "yz");
    assert_eq!(extract_label_value(""), "");
}

#[test]
fn node_label_is_the_first_quoted_text_after_label() {
    assert_eq!(extract_node_label("n [label=\"User One\"]"), Some("User One".to_string()));
    assert_eq!(
        extract_node_label("n [label=\"Supervisor\\nAnn\", x=\"y\"]"),
        Some("Supervisor Ann".to_string())
    );
    assert_eq!(extract_node_label("n [label=\" padded \\n\"]"), Some("padded".to_string()));
    assert_eq!(extract_node_label("n [label=bare, x=\"y\"]"), Some("y".to_string()));
    assert_eq!(extract_node_label("n [label=\"open]"), None);
    assert_eq!(extract_node_label("n [label=bare]"), None);
    assert_eq!(extract_node_label("n [shape=box]"), None);
}

#[test]
fn rankdir_is_read_from_the_first_directive() {
    assert_eq!(extract_rankdir("digraph {\n  rankdir=LR;\n}"), Some("LR".to_string()));
    assert_eq!(extract_rankdir("rankdir = \"BT\" ;\nrankdir=LR"), Some("BT".to_string()));
    assert_eq!(extract_rankdir("digraph { rankdir=LR; }"), Some("LR".to_string()));
    assert_eq!(extract_rankdir("digraph { rankdir x; rankdir = RL }"), Some("RL".to_string()));
    assert_eq!(extract_rankdir("graph [rankdir=\" BT \", size=2]"), Some("BT".to_string()));
    assert_eq!(extract_rankdir("rankdir=\"LR"), Some("LR".to_string()));
    assert_eq!(extract_rankdir("rankdir=;"), Some("".to_string()));
    assert_eq!(extract_rankdir("rankdir"), None);
    assert_eq!(extract_rankdir("a rankdir b\nc rankdir=TB"), Some("TB".to_string()));
    assert_eq!(extract_rankdir("rankdir=\"RL\";"), Some("RL".to_string()));
    assert_eq!(extract_rankdir("rankdir\nrankdir=TB"), Some("TB".to_string()));
    assert_eq!(extract_rankdir("  // rankdir=LR"), None);
    assert_eq!(extract_rankdir("a -> b"), None);
}

#[test]
fn clusters_are_classified_by_their_lowercase_label() {
    let organization = NodeType::Custom("organization".to_string());
    assert_eq!(classify_cluster(&chars("the tenant")), organization);
    assert_eq!(classify_cluster(&chars("organization site")), organization);
    assert_eq!(
        classify_cluster(&chars("a contact center site")),
        NodeType::Custom("line_of_business".to_string())
    );
    assert_eq!(classify_cluster(&chars("website")), NodeType::Custom("site".to_string()));
    assert_eq!(classify_cluster(&chars("Tenant")), NodeType::Node);
    assert_eq!(classify_cluster(&chars("")), NodeType::Node);
}

#[test]
fn leaves_are_teams_or_users() {
    assert_eq!(classify_leaf(&chars("night supervisor")), NodeType::Custom("team".to_string()));
    assert_eq!(classify_leaf(&chars("Supervisor")), NodeType::Custom("user".to_string()));
    assert_eq!(classify_leaf(&chars("ann")), NodeType::Custom("user".to_string()));
}

#[test]
fn classification_in_the_text_ignores_case() {
    let events = parse_dot_to_events("subgraph cluster_a {\n label=\"TENANT One\"\n n [label=\"SuperVisor\"]\n}");
    assert_eq!(events[1], node("TENANT One", Some("organization"), 0));
    assert_eq!(events[2], node("SuperVisor", Some("team"), 1));
}

#[test]
fn every_nested_edge_hangs_the_node_before_it_one_layer_down() {
    let dot = "subgraph cluster_a {\n label=\"tenant a\"\n u0 [label=\"zero\"]\n subgraph cluster_b {\n  color=blue;\n  label=\"site b\"\n  subgraph cluster_c {\n   u1 [label=\"early\"]\n   label=\"centre c\"\n   u2 [label=\"supervisor late\"]\n  }\n }\n u3 [label=\"three\"]\n}\nu4 [label=\"four\"]";
    let events = parse_dot_to_events(dot);
    let level_of = |event: &GraphEvent| match event {
        GraphEvent::AddNode { properties, .. } => match properties.position {
            Some(Position::Layer { level }) => level,
            _ => panic!("node without a layer"),
        },
        _ => panic!("no node"),
    };
    let mut edges = 0;
    for (i, event) in events.iter().enumerate() {
        if let GraphEvent::AddEdge { from, to, edge_type, .. } = event {
            edges += 1;
            assert_eq!(*edge_type, EdgeType::Directed);
            let child = &events[i - 1];
            assert!(matches!(child, GraphEvent::AddNode { id, .. } if id == to));
            let parent = events[..i - 1]
                .iter()
                .find(|e| matches!(e, GraphEvent::AddNode { id, .. } if id == from))
                .unwrap();
            assert_eq!(level_of(child), level_of(parent) + 1);
        }
    }
    assert_eq!(edges, 5);
    let levels: Vec<(String, u32)> = events
        .iter()
        .filter_map(|e| match e {
            GraphEvent::AddNode { id, .. } => Some((id.clone(), level_of(e))),
            _ => None,
        })
        .collect();
    let expected: Vec<(String, u32)> = [
        ("tenant a", 0),
        ("zero", 1),
        ("site b", 1),
        ("early", 3),
        ("centre c", 2),
        ("supervisor late", 3),
        ("three", 1),
        ("four", 0),
    ]
    .iter()
    .map(|(id, level)| (id.to_string(), *level))
    .collect();
    assert_eq!(levels, expected);
}

#[test]
fn attribute_lines_anywhere_in_clusters_change_nothing() {
    let plain = "subgraph cluster_t {\n label=\"tenant a\"\n subgraph cluster_s {\n  label=\"site b\"\n  u [label=\"c\"]\n }\n}";
    let expected = parse_dot_to_events(plain);
    let lines: Vec<&str> = plain.split('\n').collect();
    for extra in ["color=blue;", "  style=filled;", "", "// note", "fontsize = 12"] {
        for at in 0..=lines.len() {
            let mut longer: Vec<&str> = lines.clone();
            longer.insert(at, extra);
            assert_eq!(parse_dot_to_events(&longer.join("\n")), expected, "{:?} at {}", extra, at);
        }
    }
}
