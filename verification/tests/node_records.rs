use dotparser::dot::parser::{parse_edges, parse_nodes, NodeAttributes};
use dotparser::events::{GraphEvent, NodeType, Properties};
use dotparser::property_map::PropertyMap;

fn chars(s: &str) -> Vec<char> {
    s.chars().collect()
}

fn custom(pairs: &[(&str, &str)]) -> PropertyMap {
    let mut map = PropertyMap::new();
    for (key, value) in pairs {
        map.insert(key.to_string(), value.to_string());
    }
    map
}

#[test]
fn node_scan_records_the_attributes_of_each_id() {
    let first = chars(r#"A [color="red", shape="box"];"#);
    let second = chars(r#""B" [type="team", level="2", label="Team B"]"#);
    let third = chars("A -> B [x=y]");
    let fourth = chars("// C [type=t]");
    let lines: Vec<&[char]> = vec![&first, &second, &third, &fourth];
    let mut events: Vec<GraphEvent> = Vec::new();
    let mut recorded = vstd::hash_map::StringHashMap::new();
    parse_nodes(&lines, &mut events, &mut recorded);
    assert_eq!(
        events[0],
        GraphEvent::AddNode {
            id: "A".to_string(),
            label: Some("A".to_string()),
            node_type: NodeType::Node,
            properties: Properties {
                style: None,
                position: None,
                custom: custom(&[("color", "red"), ("shape", "box")]),
            },
        }
    );
    assert_eq!(events.len(), 2);
    assert_eq!(recorded.len(), 2);
    assert_eq!(
        recorded.get("A"),
        Some(&NodeAttributes {
            node_type: None,
            level: None,
            label: None,
            custom: custom(&[("shape", "box"), ("color", "red")]),
        })
    );
    assert_eq!(
        recorded.get("B"),
        Some(&NodeAttributes {
            node_type: Some("team".to_string()),
            level: Some(2),
            label: Some("Team B".to_string()),
            custom: PropertyMap::new(),
        })
    );
    assert!(recorded.get("C").is_none());
}

#[test]
fn later_definition_replaces_the_record() {
    let first = chars("A [level=1]");
    let second = chars("A [label=again]");
    let lines: Vec<&[char]> = vec![&first, &second];
    let mut events: Vec<GraphEvent> = Vec::new();
    let mut recorded = vstd::hash_map::StringHashMap::new();
    parse_nodes(&lines, &mut events, &mut recorded);
    assert_eq!(events.len(), 2);
    assert_eq!(recorded.len(), 1);
    assert_eq!(
        recorded.get("A"),
        Some(&NodeAttributes {
            node_type: None,
            level: None,
            label: Some("again".to_string()),
            custom: PropertyMap::new(),
        })
    );
}

#[test]
fn edge_scan_records_declared_nodes_without_attributes() {
    let first = chars("A [level=1]");
    let second = chars("A -> B;");
    let lines: Vec<&[char]> = vec![&first, &second];
    let mut events: Vec<GraphEvent> = Vec::new();
    let mut recorded = vstd::hash_map::StringHashMap::new();
    parse_nodes(&lines, &mut events, &mut recorded);
    parse_edges(&lines, &mut events, &mut recorded, true);
    assert_eq!(
        events[1..],
        [GraphEvent::simple_node("B", "B"), GraphEvent::simple_edge("A", "B")]
    );
    assert_eq!(recorded.len(), 2);
    assert_eq!(recorded.get("B"), Some(&NodeAttributes::none()));
    assert_eq!(recorded.get("A").unwrap().level, Some(1));
}
