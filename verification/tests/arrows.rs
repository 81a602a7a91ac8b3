use dotparser::events::MessageType;
use dotparser::plantuml::types::ArrowType;

#[test]
fn parse_arrow_knows_thirteen_shapes() {
    let cases = [
        ("->", ArrowType::SolidSync),
        ("->>", ArrowType::SolidAsync),
        ("-->", ArrowType::DashedSync),
        ("-->>", ArrowType::DashedAsync),
        ("<-", ArrowType::LeftSync),
        ("<<-", ArrowType::LeftAsync),
        ("<--", ArrowType::LeftDashedSync),
        ("<<--", ArrowType::LeftDashedAsync),
        ("<->", ArrowType::BiDirectional),
        ("<-->", ArrowType::BiDashedDirectional),
        ("-\\", ArrowType::Lost),
        ("\\-", ArrowType::Found),
        ("\\\\", ArrowType::SelfCall),
    ];
    for (token, arrow) in cases {
        assert_eq!(ArrowType::parse_arrow(token), Some(arrow));
    }
}

#[test]
fn parse_arrow_refuses_other_tokens() {
    for token in ["", "~>", "=>", "->x", "-", ">", " ->", "-> ", "--", "<<->>"] {
        assert_eq!(ArrowType::parse_arrow(token), None);
    }
}

#[test]
fn message_types_of_arrows() {
    assert_eq!(ArrowType::SolidSync.to_message_type(), MessageType::Synchronous);
    assert_eq!(ArrowType::LeftSync.to_message_type(), MessageType::Synchronous);
    assert_eq!(ArrowType::BiDirectional.to_message_type(), MessageType::Synchronous);
    assert_eq!(ArrowType::Lost.to_message_type(), MessageType::Synchronous);
    assert_eq!(ArrowType::Found.to_message_type(), MessageType::Synchronous);
    assert_eq!(ArrowType::SelfCall.to_message_type(), MessageType::Synchronous);
    assert_eq!(ArrowType::SolidAsync.to_message_type(), MessageType::Asynchronous);
    assert_eq!(ArrowType::LeftAsync.to_message_type(), MessageType::Asynchronous);
    assert_eq!(ArrowType::DashedSync.to_message_type(), MessageType::Return);
    assert_eq!(ArrowType::DashedAsync.to_message_type(), MessageType::Return);
    assert_eq!(ArrowType::LeftDashedSync.to_message_type(), MessageType::Return);
    assert_eq!(ArrowType::LeftDashedAsync.to_message_type(), MessageType::Return);
    assert_eq!(ArrowType::BiDashedDirectional.to_message_type(), MessageType::Return);
}

#[test]
fn reversed_arrows_are_the_leftward_ones_and_found() {
    let reversed = [
        ArrowType::LeftSync,
        ArrowType::LeftAsync,
        ArrowType::LeftDashedSync,
        ArrowType::LeftDashedAsync,
        ArrowType::Found,
    ];
    let forward = [
        ArrowType::SolidSync,
        ArrowType::SolidAsync,
        ArrowType::DashedSync,
        ArrowType::DashedAsync,
        ArrowType::BiDirectional,
        ArrowType::BiDashedDirectional,
        ArrowType::Lost,
        ArrowType::SelfCall,
    ];
    for arrow in reversed {
        assert!(arrow.is_reversed());
    }
    for arrow in forward {
        assert!(!arrow.is_reversed());
    }
}
