use dotparser::events::{
    Direction, EdgeType, GraphEvent, LayoutType, MessageType, NodeType, Position, Properties,
};
use dotparser::plantuml::grammar::{Statement, SyntaxError};
use dotparser::plantuml::parser::{parse, process_message, PlantUMLParser, Tracker};

fn participant(id: &str, label: &str, node_type: NodeType, order: u32) -> GraphEvent {
    GraphEvent::AddNode {
        id: id.to_string(),
        label: Some(label.to_string()),
        node_type,
        properties: Properties::at(Position::Sequential { order }),
    }
}

fn actor(kind: &str) -> NodeType {
    NodeType::Actor { actor_type: kind.to_string() }
}

fn message(
    sequence: u32,
    from: &str,
    to: &str,
    message_type: MessageType,
    label: Option<&str>,
) -> GraphEvent {
    GraphEvent::AddEdge {
        id: format!("msg-{}", sequence),
        from: from.to_string(),
        to: to.to_string(),
        edge_type: EdgeType::Message { message_type, sequence: Some(sequence) },
        label: label.map(|s| s.to_string()),
        properties: Properties::default(),
    }
}

fn layout() -> GraphEvent {
    GraphEvent::SetLayout {
        layout_type: LayoutType::Sequential { direction: Direction::LeftToRight },
        properties: Properties::default(),
    }
}

fn activation(id: &str, value: &str) -> GraphEvent {
    let mut properties = Properties::default();
    properties.custom.insert("activated".to_string(), value.to_string());
    GraphEvent::UpdateNode { id: id.to_string(), label: None, properties }
}

#[test]
fn test_simple_sequence_to_events() {
    let input = r"@startuml
participant A
participant B
A -> B: Hello
B --> A: Hi
@enduml";

    let events = parse(input).unwrap();

    assert!(events.len() >= 7);
    assert!(matches!(events.first(), Some(GraphEvent::BatchStart)));
    assert!(matches!(events.last(), Some(GraphEvent::BatchEnd)));

    let has_layout = events.iter().any(|e| matches!(e, GraphEvent::SetLayout { .. }));
    assert!(has_layout);

    let node_count = events.iter().filter(|e| matches!(e, GraphEvent::AddNode { .. })).count();
    let message_count = events
        .iter()
        .filter(|e| matches!(e, GraphEvent::AddEdge { edge_type: EdgeType::Message { .. }, .. }))
        .count();

    assert_eq!(node_count, 2);
    assert_eq!(message_count, 2);
}

#[test]
fn test_participant_types_to_events() {
    let input = r"@startuml
actor User
database DB
entity Service
User -> Service: Request
Service -> DB: Query
@enduml";

    let events = parse(input).unwrap();

    let actor_event =
        events.iter().find(|e| matches!(e, GraphEvent::AddNode { id, .. } if id == "User"));

    assert!(actor_event.is_some());

    if let Some(GraphEvent::AddNode { node_type, .. }) = actor_event {
        assert!(matches!(node_type, NodeType::Actor { .. }));
    }

    let db_event =
        events.iter().find(|e| matches!(e, GraphEvent::AddNode { id, .. } if id == "DB"));

    if let Some(GraphEvent::AddNode { node_type, .. }) = db_event {
        assert!(matches!(node_type, NodeType::DataStore));
    }
}

#[test]
fn test_participant_alias_to_events() {
    let input = r#"@startuml
participant A as "Alice"
participant B as "Bob"
A -> B: Hello Bob
@enduml"#;

    let events = parse(input).unwrap();

    let alice_event =
        events.iter().find(|e| matches!(e, GraphEvent::AddNode { id, .. } if id == "A"));

    if let Some(GraphEvent::AddNode { label, .. }) = alice_event {
        assert_eq!(label.as_deref(), Some("Alice"));
    }
}

#[test]
fn simple_sequence_yields_exact_events() {
    let input = "@startuml\nparticipant A\nparticipant B\nA -> B: Hello\nB --> A: Hi\n@enduml";
    assert_eq!(
        parse(input),
        Ok(vec![
            GraphEvent::BatchStart,
            layout(),
            participant("A", "A", actor("participant"), 0),
            participant("B", "B", actor("participant"), 1),
            message(0, "A", "B", MessageType::Synchronous, Some("Hello")),
            message(1, "B", "A", MessageType::Return, Some("Hi")),
            GraphEvent::BatchEnd,
        ])
    );
}

#[test]
fn actor_database_then_query() {
    let input = "@startuml\nactor User\ndatabase DB\nUser -> DB: Query\n@enduml\n";
    assert_eq!(
        parse(input),
        Ok(vec![
            GraphEvent::BatchStart,
            layout(),
            participant("User", "User", actor("human"), 0),
            participant("DB", "DB", NodeType::DataStore, 1),
            message(0, "User", "DB", MessageType::Synchronous, Some("Query")),
            GraphEvent::BatchEnd,
        ])
    );
}

#[test]
fn participant_keywords_map_to_node_types() {
    let input = "@startuml\nactor a\ndatabase b\nentity c\nboundary d\ncontrol e\nparticipant f\nqueue g\ncollections h\n@enduml";
    assert_eq!(
        parse(input),
        Ok(vec![
            GraphEvent::BatchStart,
            layout(),
            participant("a", "a", actor("human"), 0),
            participant("b", "b", NodeType::DataStore, 1),
            participant("c", "c", NodeType::External, 2),
            participant("d", "d", NodeType::Process, 3),
            participant("e", "e", NodeType::Process, 4),
            participant("f", "f", actor("participant"), 5),
            participant("g", "g", actor("queue"), 6),
            participant("h", "h", actor("collections"), 7),
            GraphEvent::BatchEnd,
        ])
    );
}

#[test]
fn reversed_arrow_swaps_the_ends() {
    let leftward = parse("@startuml\nB <- A: msg\n@enduml").unwrap();
    let rightward = parse("@startuml\nA -> B: msg\n@enduml").unwrap();
    assert_eq!(leftward, rightward);
    assert_eq!(
        rightward,
        vec![
            GraphEvent::BatchStart,
            layout(),
            participant("A", "A", actor("participant"), 0),
            participant("B", "B", actor("participant"), 1),
            message(0, "A", "B", MessageType::Synchronous, Some("msg")),
            GraphEvent::BatchEnd,
        ]
    );
}

#[test]
fn reversed_and_plain_arrows_share_one_counter() {
    let events = parse("@startuml\nB <- A: one\nA -> B: two\nB <<-- A: three\n@enduml").unwrap();
    assert_eq!(
        events[4..7],
        [
            message(0, "A", "B", MessageType::Synchronous, Some("one")),
            message(1, "A", "B", MessageType::Synchronous, Some("two")),
            message(2, "A", "B", MessageType::Return, Some("three")),
        ]
    );
}

#[test]
fn every_arrow_shape_has_its_message_type_and_direction() {
    let cases = [
        ("->", MessageType::Synchronous, false),
        ("->>", MessageType::Asynchronous, false),
        ("-->", MessageType::Return, false),
        ("-->>", MessageType::Return, false),
        ("<-", MessageType::Synchronous, true),
        ("<<-", MessageType::Asynchronous, true),
        ("<--", MessageType::Return, true),
        ("<<--", MessageType::Return, true),
        ("<->", MessageType::Synchronous, false),
        ("<-->", MessageType::Return, false),
        ("-\\", MessageType::Synchronous, false),
        ("\\-", MessageType::Synchronous, true),
        ("\\\\", MessageType::Synchronous, false),
    ];
    for (arrow, message_type, reversed) in cases {
        let text = format!("@startuml\nL {} R\n@enduml", arrow);
        let events = parse(&text).unwrap();
        let (from, to) = if reversed { ("R", "L") } else { ("L", "R") };
        assert_eq!(events[2], participant(from, from, actor("participant"), 0));
        assert_eq!(events[3], participant(to, to, actor("participant"), 1));
        assert_eq!(events[4], message(0, from, to, message_type, None));
    }
}

#[test]
fn unknown_arrow_fails_without_events() {
    assert_eq!(
        parse("@startuml\nA ~> B: hi\n@enduml"),
        Err("Unknown arrow type: ~>".to_string())
    );
    assert_eq!(
        parse("@startuml\nA -> B\nB => A\nA ~> B\n@enduml"),
        Err("Unknown arrow type: =>".to_string())
    );
}

#[test]
fn grammar_errors_are_reported_by_line() {
    assert_eq!(parse(""), Err("Parse error: expected @startuml".to_string()));
    assert_eq!(parse("A -> B"), Err("Parse error: expected @startuml".to_string()));
    assert_eq!(parse("@startuml\nA -> B"), Err("Parse error: expected @enduml".to_string()));
    assert_eq!(
        parse("@startuml\nA -> B\n???\n@enduml"),
        Err("Parse error: line 3: unrecognized statement".to_string())
    );
    assert_eq!(
        parse("@startuml\n@enduml\n\nA -> B"),
        Err("Parse error: line 4: text after @enduml".to_string())
    );
    assert_eq!(
        parse("@startuml\nparticipant\n@enduml"),
        Err("Parse error: line 2: unrecognized statement".to_string())
    );
    assert_eq!(
        parse("@startuml\nA -> B C\n@enduml"),
        Err("Parse error: line 2: unrecognized statement".to_string())
    );
}

#[test]
fn grammar_error_wins_over_unknown_arrow() {
    assert_eq!(
        parse("@startuml\nA ~> B\n???\n@enduml"),
        Err("Parse error: line 3: unrecognized statement".to_string())
    );
}

#[test]
fn line_number_with_several_digits() {
    let mut text = String::from("@startuml\n");
    for _ in 0..120 {
        text.push_str("A -> B\n");
    }
    text.push_str("!!\n@enduml");
    assert_eq!(parse(&text), Err("Parse error: line 122: unrecognized statement".to_string()));
}

#[test]
fn alias_resolves_to_the_declared_id() {
    let input = "@startuml\nparticipant \"Web Server\" as Web\nactor User\nUser -> Web: GET\nWeb --> User\n@enduml";
    assert_eq!(
        parse(input),
        Ok(vec![
            GraphEvent::BatchStart,
            layout(),
            participant("Web Server", "Web", actor("participant"), 0),
            participant("User", "User", actor("human"), 1),
            message(0, "User", "Web Server", MessageType::Synchronous, Some("GET")),
            message(1, "Web Server", "User", MessageType::Return, None),
            GraphEvent::BatchEnd,
        ])
    );
}

#[test]
fn undeclared_participants_are_created_in_order_of_mention() {
    let input = "@startuml\nX -> Y\nZ -> X: again\n@enduml";
    assert_eq!(
        parse(input),
        Ok(vec![
            GraphEvent::BatchStart,
            layout(),
            participant("X", "X", actor("participant"), 0),
            participant("Y", "Y", actor("participant"), 1),
            message(0, "X", "Y", MessageType::Synchronous, None),
            participant("Z", "Z", actor("participant"), 2),
            message(1, "Z", "X", MessageType::Synchronous, Some("again")),
            GraphEvent::BatchEnd,
        ])
    );
}

#[test]
fn message_to_self_creates_one_node() {
    let events = parse("@startuml\nA -> A: think\n@enduml").unwrap();
    assert_eq!(
        events,
        vec![
            GraphEvent::BatchStart,
            layout(),
            participant("A", "A", actor("participant"), 0),
            message(0, "A", "A", MessageType::Synchronous, Some("think")),
            GraphEvent::BatchEnd,
        ]
    );
}

#[test]
fn blank_label_is_no_label() {
    let events = parse("@startuml\nA -> B:   \n@enduml").unwrap();
    assert_eq!(events[4], message(0, "A", "B", MessageType::Synchronous, None));
}

#[test]
fn activation_updates_do_not_rename() {
    let input = "@startuml\nparticipant A\nactivate A\ndeactivate A\n@enduml";
    assert_eq!(
        parse(input),
        Ok(vec![
            GraphEvent::BatchStart,
            layout(),
            participant("A", "A", actor("participant"), 0),
            activation("A", "true"),
            activation("A", "false"),
            GraphEvent::BatchEnd,
        ])
    );
}

#[test]
fn activation_uses_the_name_as_written() {
    let input = "@startuml\nparticipant Server as S\nactivate S\n@enduml";
    let events = parse(input).unwrap();
    assert_eq!(events[3], activation("S", "true"));
}

#[test]
fn notes_fragments_and_comments_produce_no_events() {
    let input = "@startuml\ntitle A title\n' a comment\nautonumber\nA -> B\nnote over A: short\nnote right of B\nfree text -> here ???\nend note\nalt ok\nB --> A\nelse failed\nend\n@enduml";
    assert_eq!(
        parse(input),
        Ok(vec![
            GraphEvent::BatchStart,
            layout(),
            participant("A", "A", actor("participant"), 0),
            participant("B", "B", actor("participant"), 1),
            message(0, "A", "B", MessageType::Synchronous, None),
            message(1, "B", "A", MessageType::Return, None),
            GraphEvent::BatchEnd,
        ])
    );
}

#[test]
fn markers_may_carry_a_name() {
    let events = parse("@startuml order flow\nA -> B\n@enduml order flow").unwrap();
    assert_eq!(events.len(), 6);
    assert_eq!(parse("@startumlx\n@enduml"), Err("Parse error: expected @startuml".to_string()));
    assert_eq!(
        parse("@startuml\n@endumlx"),
        Err("Parse error: line 2: unrecognized statement".to_string())
    );
}

#[test]
fn dividers_delays_and_more_keywords_produce_no_events() {
    let input = "@startuml\nskinparam monochrome true\nhide footbox\nbox \"Internal\"\nparticipant A\nend box\n== Setup ==\n...\n... later ...\n|||\ncreate B\nreturn ok\ndestroy B\nnewpage\nref over A : init\n@enduml";
    assert_eq!(
        parse(input),
        Ok(vec![
            GraphEvent::BatchStart,
            layout(),
            participant("A", "A", actor("participant"), 0),
            GraphEvent::BatchEnd,
        ])
    );
}

#[test]
fn indented_diagram_with_blank_lines() {
    let input = "\n        @startuml\n        actor User\n        \n        User -> \"Web Server\": HTTP Request\n        @enduml\n    ";
    assert_eq!(
        parse(input),
        Ok(vec![
            GraphEvent::BatchStart,
            layout(),
            participant("User", "User", actor("human"), 0),
            participant("Web Server", "Web Server", actor("participant"), 1),
            message(0, "User", "Web Server", MessageType::Synchronous, Some("HTTP Request")),
            GraphEvent::BatchEnd,
        ])
    );
}

#[test]
fn quoted_identifier_keeps_escapes() {
    let statements = PlantUMLParser::parse("@startuml\nparticipant \"a \\\" b\"\n@enduml").unwrap();
    assert_eq!(
        statements,
        vec![Statement::Participant {
            kind: "participant".to_string(),
            id: "a \\\" b".to_string(),
            alias: None,
        }]
    );
}

#[test]
fn keyword_named_participant_can_send() {
    let statements = PlantUMLParser::parse("@startuml\nactor -> end: x\n@enduml").unwrap();
    assert_eq!(
        statements,
        vec![Statement::Message {
            left: "actor".to_string(),
            arrow: "->".to_string(),
            right: "end".to_string(),
            text: "x".to_string(),
        }]
    );
}

#[test]
fn statements_of_each_kind() {
    let statements = PlantUMLParser::parse(
        "@startuml\r\nactor A as \"Al\"\r\nA->B:hi\r\nactivate B\r\ndeactivate \"B\"\r\nloop 3 times\r\nend\r\n@enduml\r\n",
    )
    .unwrap();
    assert_eq!(
        statements,
        vec![
            Statement::Participant {
                kind: "actor".to_string(),
                id: "A".to_string(),
                alias: Some("Al".to_string()),
            },
            Statement::Message {
                left: "A".to_string(),
                arrow: "->".to_string(),
                right: "B".to_string(),
                text: "hi".to_string(),
            },
            Statement::Activate { id: "B".to_string() },
            Statement::Deactivate { id: "B".to_string() },
            Statement::Other,
            Statement::Other,
        ]
    );
}

#[test]
fn syntax_errors_by_variant() {
    assert_eq!(PlantUMLParser::parse("  \n"), Err(SyntaxError::MissingStart));
    assert_eq!(PlantUMLParser::parse("x"), Err(SyntaxError::MissingStart));
    assert_eq!(PlantUMLParser::parse("@startuml"), Err(SyntaxError::MissingEnd));
    assert_eq!(PlantUMLParser::parse("@startuml\nnote left\n@enduml"), Err(SyntaxError::MissingEnd));
    assert_eq!(
        PlantUMLParser::parse("@startuml\n\"open -> B\n@enduml"),
        Err(SyntaxError::Unrecognized { line: 2 })
    );
    assert_eq!(
        PlantUMLParser::parse("@startuml\n@enduml\nmore"),
        Err(SyntaxError::Trailing { line: 3 })
    );
    assert_eq!(SyntaxError::MissingEnd.message(), "Parse error: expected @enduml");
}

#[test]
fn parsing_a_diagram_twice_gives_the_same_events() {
    let input = "@startuml\nactor U\nU -> S: a\nS --> U: b\n@enduml";
    assert_eq!(parse(input), parse(input));
    assert_eq!(parse("@startuml\nA ~> B\n@enduml"), parse("@startuml\nA ~> B\n@enduml"));
}

#[test]
fn texts_that_differ_in_one_reversed_line_have_the_same_events() {
    let pairs = [("<-", "->"), ("<--", "-->"), ("<<-", "->>"), ("<<--", "-->>")];
    for (leftward, rightward) in pairs {
        let one = format!(
            "@startuml\nactor Y\nA -> Y: before\nX {} Y: m\nY --> X\nactivate X\n@enduml",
            leftward
        );
        let other = format!(
            "@startuml\nactor Y\nA -> Y: before\nY{}X :  m \nY --> X\nactivate X\n@enduml",
            rightward
        );
        let events = parse(&one).unwrap();
        assert_eq!(parse(&other).unwrap(), events);
        assert_eq!(events[5], participant("X", "X", actor("participant"), 2));
        match &events[6] {
            GraphEvent::AddEdge { id, from, to, .. } => {
                assert_eq!((id.as_str(), from.as_str(), to.as_str()), ("msg-1", "Y", "X"));
            }
            other => panic!("unexpected event {:?}", other),
        }
    }
    // A failure elsewhere is the same failure in both texts.
    assert_eq!(
        parse("@startuml\nX <- Y\nA ~> B\n@enduml"),
        parse("@startuml\nY -> X\nA ~> B\n@enduml")
    );
    assert_eq!(parse("X <- Y\n@enduml"), parse("Y -> X\n@enduml"));
}

#[test]
fn refused_message_leaves_events_and_counters_alone() {
    let mut events = vec![GraphEvent::BatchStart];
    let mut tracker = Tracker::new();
    let (a, b, text) = ("A".to_string(), "B".to_string(), "hi".to_string());
    let refused = process_message(&a, &"~>".to_string(), &b, &text, &mut events, &mut tracker);
    assert_eq!(refused, Err("Unknown arrow type: ~>".to_string()));
    assert_eq!(events, vec![GraphEvent::BatchStart]);
    assert_eq!((tracker.participant_order, tracker.sequence_number), (0, 0));
    assert!(tracker.known_ids.is_empty());
    let sent = process_message(&a, &"->".to_string(), &b, &text, &mut events, &mut tracker);
    assert_eq!(sent, Ok(()));
    assert_eq!(events.len(), 4);
    assert_eq!((tracker.participant_order, tracker.sequence_number), (2, 1));
    assert_eq!(events[3], message(0, "A", "B", MessageType::Synchronous, Some("hi")));
}
