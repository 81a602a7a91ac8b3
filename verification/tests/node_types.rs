use dotparser::types::NodeType;

#[test]
fn test_node_type_parsing() {
    let test_cases = vec![
        ("organization", NodeType::Organization),
        ("org", NodeType::Organization),
        ("lob", NodeType::LineOfBusiness),
        ("lineofbusiness", NodeType::LineOfBusiness),
        ("line_of_business", NodeType::LineOfBusiness),
        ("site", NodeType::Site),
        ("team", NodeType::Team),
        ("user", NodeType::User),
        ("unknown", NodeType::Default),
    ];

    for (input, expected) in test_cases {
        assert_eq!(NodeType::parse(input), expected);
    }
}

#[test]
fn node_type_parsing_ignores_case() {
    assert_eq!(NodeType::parse("ORG"), NodeType::Organization);
    assert_eq!(NodeType::parse("Line_Of_Business"), NodeType::LineOfBusiness);
    assert_eq!(NodeType::parse("SiTe"), NodeType::Site);
    assert_eq!(NodeType::parse(""), NodeType::Default);
}

#[test]
fn node_type_from_lowercase_is_exact() {
    let upper: Vec<char> = "ORG".chars().collect();
    let lower: Vec<char> = "org".chars().collect();
    assert_eq!(NodeType::from_lowercase(&upper), NodeType::Default);
    assert_eq!(NodeType::from_lowercase(&lower), NodeType::Organization);
}
