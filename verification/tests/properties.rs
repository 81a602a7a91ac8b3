use dotparser::events::{
    emit, EdgeType, GraphEvent, NodeType, Position, Properties, Scalar, Style,
};
use dotparser::property_map::PropertyMap;

#[test]
fn insert_and_get() {
    let mut map = PropertyMap::new();
    assert!(map.is_empty());
    assert_eq!(map.len(), 0);
    assert_eq!(map.get("a"), None);
    map.insert("a".to_string(), "1".to_string());
    map.insert("b".to_string(), "2".to_string());
    assert!(!map.is_empty());
    assert_eq!(map.len(), 2);
    assert_eq!(map.get("a").map(|s| s.as_str()), Some("1"));
    assert_eq!(map.get("b").map(|s| s.as_str()), Some("2"));
    assert_eq!(map.get("c"), None);
    assert!(map.contains_key("a"));
    assert!(!map.contains_key("A"));
}

#[test]
fn insert_replaces_the_value_of_a_key() {
    let mut map = PropertyMap::new();
    map.insert("k".to_string(), "old".to_string());
    map.insert("other".to_string(), "x".to_string());
    map.insert("k".to_string(), "new".to_string());
    assert_eq!(map.len(), 2);
    assert_eq!(map.get("k").map(|s| s.as_str()), Some("new"));
    assert_eq!(map.get("other").map(|s| s.as_str()), Some("x"));
}

#[test]
fn equality_ignores_the_order_of_insertion() {
    let mut first = PropertyMap::new();
    first.insert("a".to_string(), "1".to_string());
    first.insert("b".to_string(), "2".to_string());
    let mut second = PropertyMap::new();
    second.insert("b".to_string(), "2".to_string());
    second.insert("a".to_string(), "1".to_string());
    assert_eq!(first, second);
    assert!(first.same_entries(&second));

    let mut third = PropertyMap::new();
    third.insert("a".to_string(), "1".to_string());
    third.insert("b".to_string(), "3".to_string());
    assert_ne!(first, third);

    let mut fourth = PropertyMap::new();
    fourth.insert("a".to_string(), "1".to_string());
    fourth.insert("c".to_string(), "2".to_string());
    assert_ne!(first, fourth);

    let mut fifth = PropertyMap::new();
    fifth.insert("a".to_string(), "1".to_string());
    assert_ne!(first, fifth);
    assert_ne!(fifth, first);
    assert_eq!(PropertyMap::new(), PropertyMap::new());
}

#[test]
fn clone_keeps_the_entries() {
    let mut map = PropertyMap::new();
    map.insert("a".to_string(), "1".to_string());
    map.insert("a".to_string(), "2".to_string());
    map.insert("b".to_string(), "3".to_string());
    let copy = map.clone();
    assert_eq!(copy, map);
    assert_eq!(copy.len(), 2);
    assert_eq!(copy.get("a").map(|s| s.as_str()), Some("2"));
}

#[test]
fn default_properties_are_empty() {
    let properties = Properties::default();
    assert_eq!(properties.style, None);
    assert_eq!(properties.position, None);
    assert!(properties.custom.is_empty());
    let placed = Properties::at(Position::Grid { row: 1, column: 2 });
    assert_eq!(placed.position, Some(Position::Grid { row: 1, column: 2 }));
    assert_eq!(placed.style, None);
    assert!(placed.custom.is_empty());
}

#[test]
fn simple_node_and_edge() {
    assert_eq!(
        GraphEvent::simple_node("n", "A node"),
        GraphEvent::AddNode {
            id: "n".to_string(),
            label: Some("A node".to_string()),
            node_type: NodeType::Node,
            properties: Properties::default(),
        }
    );
    assert_eq!(
        GraphEvent::simple_edge("a", "b c"),
        GraphEvent::AddEdge {
            id: "a->b c".to_string(),
            from: "a".to_string(),
            to: "b c".to_string(),
            edge_type: EdgeType::Directed,
            label: None,
            properties: Properties::default(),
        }
    );
}

#[test]
fn emit_appends() {
    let mut events = vec![GraphEvent::BatchStart];
    emit(&mut events, GraphEvent::Clear);
    emit(&mut events, GraphEvent::BatchEnd);
    assert_eq!(events, vec![GraphEvent::BatchStart, GraphEvent::Clear, GraphEvent::BatchEnd]);
}

#[test]
fn scalars_carry_bit_patterns() {
    let half = Scalar { bits: 0.5f32.to_bits() };
    assert_eq!(f32::from_bits(half.bits), 0.5);
    let style = Style {
        color: Some("red".to_string()),
        background_color: None,
        border_style: None,
        border_color: None,
        border_width: Some(half),
        shape: None,
        size: None,
        font_size: None,
        font_family: None,
        opacity: Some(Scalar { bits: 1.0f32.to_bits() }),
    };
    assert_eq!(style.clone(), style);
    let position = Position::Absolute { x: half, y: half, z: None };
    assert_ne!(position, Position::Absolute { x: half, y: Scalar { bits: 0 }, z: None });
}
