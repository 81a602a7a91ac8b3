use dotparser::parser::parse_dot_file;
use dotparser::types::NodeType;

#[test]
fn test_parse_simple_graph() {
    let dot = r"
            digraph {
                A -> B;
                B -> C;
            }
        ";
    let graph_data = parse_dot_file(dot);
    assert_eq!(graph_data.graph.node_count(), 3);
    assert_eq!(graph_data.graph.edge_count(), 2);
}

#[test]
fn test_parse_node_with_attributes() {
    let dot = r#"
            digraph {
                "Node1" [type="team", level="2"];
                "Node2" [type="user", level="1"];
                "Node1" -> "Node2";
            }
        "#;
    let graph_data = parse_dot_file(dot);

    let node1 = graph_data.node_named("Node1").unwrap();
    assert_eq!(node1.node_type, NodeType::Team);
    assert_eq!(node1.level, 2);
}

#[test]
fn test_parse_edge_with_style() {
    let dot = r#"
            digraph {
                A -> B [style="dashed"];
                B -> C; // Comment
            }
        "#;
    let graph_data = parse_dot_file(dot);
    assert_eq!(graph_data.graph.edge_count(), 2);
}

#[test]
fn test_quoted_node_names() {
    let dot = r#"
            digraph {
                "Node with spaces" -> "Another node";
                "Another node" -> SimpleNode;
            }
        "#;
    let graph_data = parse_dot_file(dot);
    assert_eq!(graph_data.graph.node_count(), 3);
    assert!(graph_data.node_index("Node with spaces").is_some());
}

#[test]
fn test_parse_nodes_without_attributes() {
    let dot = r"
            digraph {
                NodeA;
                NodeB;
                NodeC;
                NodeA -> NodeB;
                NodeB -> NodeC;
            }
        ";
    let graph_data = parse_dot_file(dot);
    assert_eq!(graph_data.graph.node_count(), 3);

    for node in graph_data.graph.node_weights() {
        assert_eq!(node.node_type, NodeType::Default);
        assert_eq!(node.level, 0);
    }
}

#[test]
fn test_nested_subgraph_parsing() {
    let dot = r#"
            digraph OrgHierarchy {
                subgraph cluster_tenant {
                    Label="Tenant: main_tenant";
                    subgraph cluster_org {
                        label="Organization: org1";
                        subgraph cluster_site {
                            label="Site: site1";
                            "user1" [label="User One"];
                        }
                    }
                }
            }
        "#;

    let graph_data = parse_dot_file(dot);

    assert_eq!(graph_data.graph.node_count(), 4);
    assert_eq!(graph_data.graph.edge_count(), 3);
}

#[test]
fn test_complex_graph_parsing() {
    let dot = r#"
            digraph OrgChart {
                rankdir=TB;

                // Organization level
                "ACME Corp" [type="organization", level="3"];

                // Business units
                "Sales" [type="lob", level="2"];
                "Engineering" [type="lob", level="2"];

                // Sites
                "NYC Office" [type="site", level="1"];
                "SF Office" [type="site", level="1"];

                // Teams
                "Frontend Team" [type="team", level="1"];
                "Backend Team" [type="team", level="1"];

                // Connections
                "ACME Corp" -> "Sales";
                "ACME Corp" -> "Engineering";
                "Sales" -> "NYC Office";
                "Engineering" -> "SF Office";
                "Engineering" -> "Frontend Team";
                "Engineering" -> "Backend Team";
            }
        "#;

    let graph_data = parse_dot_file(dot);

    assert_eq!(graph_data.graph.node_count(), 7);
    assert_eq!(graph_data.graph.edge_count(), 6);

    let acme = graph_data.node_named("ACME Corp").unwrap();
    assert_eq!(acme.node_type, NodeType::Organization);
    assert_eq!(acme.level, 3);

    let frontend = graph_data.node_named("Frontend Team").unwrap();
    assert_eq!(frontend.node_type, NodeType::Team);
    assert_eq!(frontend.level, 1);
}

#[test]
fn graph_has_nodes_in_order_of_first_mention() {
    let data = parse_dot_file("digraph {\n B [type=site, level=4]\n A -> B [x=y];\n B -> C -> D\n C -> A // A -> Z\n}");
    assert_eq!(data.node_count(), 3);
    assert_eq!(data.edge_count(), 3);
    let names: Vec<&str> = (0..3).map(|i| data.node(i).unwrap().name.as_str()).collect();
    assert_eq!(names, vec!["A", "B", "C"]);
    assert_eq!(data.node_index("A"), Some(0));
    assert_eq!(data.node_index("B"), Some(1));
    assert_eq!(data.node_index("C"), Some(2));
    assert_eq!(data.node_index("D"), None);
    assert_eq!(data.node_index("Z"), None);
    assert!(data.node(3).is_none());
    let b = data.node(1).unwrap();
    assert_eq!(b.node_type, NodeType::Site);
    assert_eq!(b.level, 4);
    let edges: Vec<(usize, usize)> = data
        .graph
        .raw_edges()
        .iter()
        .map(|e| (e.source().index(), e.target().index()))
        .collect();
    assert_eq!(edges, vec![(0, 1), (1, 2), (2, 0)]);
}

#[test]
fn arrow_inside_a_comment_is_no_edge() {
    let data = parse_dot_file("digraph {\n // A -> B\n}");
    assert_eq!(data.node_count(), 0);
    assert_eq!(data.edge_count(), 0);
}

#[test]
fn level_that_is_no_number_counts_as_zero() {
    let data = parse_dot_file("digraph {\n A [type=TEAM, level=high]\n A -> B\n}");
    let a = data.node_named("A").unwrap();
    assert_eq!(a.node_type, NodeType::Team);
    assert_eq!(a.level, 0);
}

#[test]
fn nested_clusters_form_a_chain() {
    // The kind is judged by what is left of the label after its colon.
    let dot = "digraph G {\n subgraph cluster_a {\n  label=\"Tenant: acme\";\n  subgraph cluster_b {\n   label=\"Site north\"\n   w1 [label=\"Supervisor\\nAnn\"];\n   w2 [shape=box, label=\"Bob\"];\n  }\n }\n lone [label=\"Zed\"];\n}";
    let data = parse_dot_file(dot);
    assert_eq!(data.node_count(), 5);
    assert_eq!(data.edge_count(), 3);
    let seen: Vec<(&str, NodeType, u32)> = (0..5)
        .map(|i| {
            let n = data.node(i).unwrap();
            (n.name.as_str(), n.node_type, n.level)
        })
        .collect();
    assert_eq!(
        seen,
        vec![
            ("acme", NodeType::Default, 0),
            ("Site north", NodeType::Site, 1),
            ("Supervisor Ann", NodeType::Team, 2),
            ("Bob", NodeType::User, 2),
            ("Zed", NodeType::User, 0),
        ]
    );
    let edges: Vec<(usize, usize)> = data
        .graph
        .raw_edges()
        .iter()
        .map(|e| (e.source().index(), e.target().index()))
        .collect();
    assert_eq!(edges, vec![(0, 1), (1, 2), (1, 3)]);
}

#[test]
fn cluster_without_label_is_named_by_its_cluster() {
    let data = parse_dot_file("digraph {\n subgraph cluster_contact center {\n }\n}");
    assert_eq!(data.node_count(), 1);
    let node = data.node(0).unwrap();
    assert_eq!(node.name, "contact center");
    assert_eq!(node.node_type, NodeType::LineOfBusiness);
}

#[test]
fn label_is_looked_for_in_nine_lines_only() {
    let mut near = String::from("subgraph cluster_x {\n");
    for _ in 0..8 {
        near.push_str("\n");
    }
    near.push_str("label=\"near\"\n}");
    let data = parse_dot_file(&near);
    assert_eq!(data.node(0).unwrap().name, "near");

    let mut far = String::from("subgraph cluster_x {\n");
    for _ in 0..9 {
        far.push_str("\n");
    }
    far.push_str("label=\"far\"\n}");
    let data = parse_dot_file(&far);
    assert_eq!(data.node(0).unwrap().name, "x");
}

#[test]
fn guarded_reader_reads_ordinary_texts() {
    let data = dotparser::parser::try_parse_dot_file("digraph {\n A -> B\n}").unwrap();
    assert_eq!(data.node_count(), 2);
    assert_eq!(data.edge_count(), 1);
    assert_eq!(data.node_named("B").unwrap().name, "B");
    assert!(data.node_named("C").is_none());
}

#[test]
fn new_graph_data_is_empty() {
    let data = dotparser::types::GraphData::new();
    assert_eq!(data.node_count(), 0);
    assert_eq!(data.edge_count(), 0);
    assert_eq!(data.node_index("A"), None);
    assert!(data.node(0).is_none());
    assert!(data.node(usize::MAX).is_none());
}

#[test]
fn graph_reader_does_not_skip_double_dash_texts() {
    // Only `->` makes a text edge-based for the graph reader.
    let data = parse_dot_file("graph {\n subgraph cluster_a {\n  label=\"x -- y\"\n }\n}");
    assert_eq!(data.node_count(), 1);
    assert_eq!(data.node(0).unwrap().name, "x -- y");
}

#[test]
fn quoted_target_before_semicolon_and_attribute_list() {
    let data = parse_dot_file("digraph {\n \"a\" -> \"b c\" ; \n a -> \"d\" [x=y];\n}");
    let names: Vec<&str> = (0..3).map(|i| data.node(i).unwrap().name.as_str()).collect();
    assert_eq!(names, vec!["a", "b c", "d"]);
    assert_eq!(data.edge_count(), 2);
}
