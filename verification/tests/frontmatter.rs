use cognistruct::adapters::obsidian::frontmatter::{
    frontmatter_from, parse_frontmatter, scalar_text_of, yaml_to_property_value, Frontmatter,
};
use cognistruct::dcom::property::{
    MappingEntry, MappingValue, NumberValue, PropertyValue, StructuredValue,
};

fn text(s: &str) -> StructuredValue {
    StructuredValue::String(s.to_string())
}

fn integer(i: i64) -> StructuredValue {
    StructuredValue::Number(NumberValue {
        integer: Some(i),
        float: Some(format!("{}", i as f64)),
        text: i.to_string(),
    })
}

fn mapping(entries: Vec<(StructuredValue, StructuredValue)>, json: Option<&str>) -> StructuredValue {
    StructuredValue::Mapping(MappingValue {
        entries: entries.into_iter().map(|(key, value)| MappingEntry { key, value }).collect(),
        json: json.map(|j| j.to_string()),
    })
}

#[test]
fn test_parse_frontmatter_basic() {
    let content = "---\ntags: [rust, test]\ntype: note\n---\n# Hello\n\nContent";
    let (fm, body) = parse_frontmatter(content);

    assert!(fm.is_some());
    let fm = fm.unwrap();
    assert_eq!(fm.tags, vec!["rust", "test"]);
    assert_eq!(fm.node_type, Some("note".to_string()));
    assert!(body.starts_with("# Hello"));
}

#[test]
fn test_parse_frontmatter_with_aliases() {
    let content = "---\naliases: [alias1, alias2]\n---\nContent";
    let (fm, _body) = parse_frontmatter(content);

    assert!(fm.is_some());
    let fm = fm.unwrap();
    assert_eq!(fm.aliases, vec!["alias1", "alias2"]);
}

#[test]
fn test_parse_frontmatter_with_created() {
    let content = "---\ncreated: 2024-01-15\n---\nContent";
    let (fm, _body) = parse_frontmatter(content);

    assert!(fm.is_some());
    let fm = fm.unwrap();
    assert_eq!(fm.created, Some("2024-01-15".to_string()));
}

#[test]
fn test_parse_frontmatter_with_custom_properties() {
    let content = "---\nauthor: John\npriority: 5\n---\nContent";
    let (fm, _body) = parse_frontmatter(content);

    assert!(fm.is_some());
    let fm = fm.unwrap();
    assert!(fm.has_property("author"));
    assert!(fm.has_property("priority"));
}

#[test]
fn test_parse_frontmatter_none() {
    let content = "# No Frontmatter\n\nJust content.";
    let (fm, body) = parse_frontmatter(content);

    assert!(fm.is_none());
    assert_eq!(body, content);
}

#[test]
fn test_parse_frontmatter_invalid_yaml() {
    let content = "---\n[invalid yaml\n---\nContent";
    let (fm, body) = parse_frontmatter(content);

    assert!(fm.is_none());
    assert_eq!(body, content);
}

#[test]
fn test_yaml_to_property_value_primitives() {
    assert!(matches!(yaml_to_property_value(&StructuredValue::Null), PropertyValue::Null));

    assert!(matches!(
        yaml_to_property_value(&StructuredValue::Bool(true)),
        PropertyValue::Boolean(true)
    ));

    let num = integer(42);
    assert!(matches!(yaml_to_property_value(&num), PropertyValue::Integer(42)));

    let s = text("hello");
    assert!(matches!(
        yaml_to_property_value(&s),
        PropertyValue::String(ref x) if x == "hello"
    ));
}

#[test]
fn test_yaml_to_property_value_sequence() {
    let seq = StructuredValue::Sequence(vec![text("a"), text("b")]);

    if let PropertyValue::List(items) = yaml_to_property_value(&seq) {
        assert_eq!(items.len(), 2);
    } else {
        panic!("Expected List");
    }
}

#[test]
fn test_frontmatter_is_empty() {
    let empty = Frontmatter::default();
    assert!(empty.is_empty());

    let mut non_empty = Frontmatter::default();
    non_empty.tags.push("tag".to_string());
    assert!(!non_empty.is_empty());
}

#[test]
fn structured_values_become_property_values() {
    let float = StructuredValue::Number(NumberValue {
        integer: None,
        float: Some("2.5".to_string()),
        text: "2.5".to_string(),
    });
    assert_eq!(yaml_to_property_value(&float), PropertyValue::Float("2.5".to_string()));

    let unreadable =
        StructuredValue::Number(NumberValue { integer: None, float: None, text: String::new() });
    assert_eq!(yaml_to_property_value(&unreadable), PropertyValue::Null);

    assert_eq!(yaml_to_property_value(&StructuredValue::Tagged), PropertyValue::Null);

    let object = mapping(vec![(text("key"), text("value"))], Some("{\"key\":\"value\"}"));
    assert_eq!(
        yaml_to_property_value(&object),
        PropertyValue::Json("{\"key\":\"value\"}".to_string())
    );

    let odd = mapping(vec![(StructuredValue::Sequence(vec![]), text("value"))], None);
    assert_eq!(yaml_to_property_value(&odd), PropertyValue::Null);

    let nested = StructuredValue::Sequence(vec![
        integer(1),
        StructuredValue::Sequence(vec![StructuredValue::Bool(false), StructuredValue::Null]),
    ]);
    assert_eq!(
        yaml_to_property_value(&nested),
        PropertyValue::List(vec![
            PropertyValue::Integer(1),
            PropertyValue::List(vec![PropertyValue::Boolean(false), PropertyValue::Null]),
        ])
    );
}

#[test]
fn front_matter_from_a_document() {
    let document = mapping(
        vec![
            (text("tags"), StructuredValue::Sequence(vec![text("a"), text("b")])),
            (text("author"), text("Ann")),
            (text("type"), StructuredValue::Null),
            (text("created"), text("2024-01-15")),
            (text("aliases"), StructuredValue::Sequence(vec![])),
            (text("rank"), integer(3)),
        ],
        None,
    );
    let fm = frontmatter_from(document).unwrap();
    assert_eq!(fm.tags, vec!["a", "b"]);
    assert!(fm.aliases.is_empty());
    assert_eq!(fm.node_type, None);
    assert_eq!(fm.created, Some("2024-01-15".to_string()));
    assert_eq!(fm.properties.len(), 2);
    assert_eq!(fm.properties[0].name, "author");
    assert_eq!(fm.properties[0].value, text("Ann"));
    assert_eq!(fm.properties[1].name, "rank");
    assert!(!fm.has_property("tags"));
}

#[test]
fn front_matter_refuses_what_its_keys_cannot_take() {
    assert!(frontmatter_from(StructuredValue::Null).is_none());
    assert!(frontmatter_from(text("tags")).is_none());
    assert!(frontmatter_from(mapping(vec![(text("tags"), text("one"))], None)).is_none());
    assert!(frontmatter_from(mapping(
        vec![(text("aliases"), StructuredValue::Sequence(vec![text("a"), StructuredValue::Tagged]))],
        None
    ))
    .is_none());
    assert!(frontmatter_from(mapping(
        vec![(
            text("tags"),
            StructuredValue::Sequence(vec![StructuredValue::Sequence(vec![text("a")])])
        )],
        None
    ))
    .is_none());
    assert!(frontmatter_from(mapping(
        vec![(text("type"), StructuredValue::Sequence(vec![text("a")]))],
        None
    ))
    .is_none());
    assert!(frontmatter_from(mapping(
        vec![(text("ok"), text("v")), (text("created"), mapping(vec![], Some("{}")))],
        None
    ))
    .is_none());
    assert!(frontmatter_from(mapping(
        vec![(StructuredValue::Sequence(vec![text("k")]), text("v"))],
        None
    ))
    .is_none());
    assert!(frontmatter_from(mapping(vec![], None)).unwrap().is_empty());
}

#[test]
fn scalars_are_read_as_their_text() {
    assert_eq!(scalar_text_of(&text("rust")), Some("rust".to_string()));
    assert_eq!(scalar_text_of(&integer(2024)), Some("2024".to_string()));
    assert_eq!(scalar_text_of(&StructuredValue::Bool(true)), Some("true".to_string()));
    assert_eq!(scalar_text_of(&StructuredValue::Bool(false)), Some("false".to_string()));
    assert_eq!(scalar_text_of(&StructuredValue::Null), Some("null".to_string()));
    assert_eq!(scalar_text_of(&StructuredValue::Sequence(vec![])), None);
    assert_eq!(scalar_text_of(&mapping(vec![], None)), None);
    assert_eq!(scalar_text_of(&StructuredValue::Tagged), None);
}

#[test]
fn front_matter_takes_any_scalar_where_it_wants_a_text() {
    let document = mapping(
        vec![
            (
                text("tags"),
                StructuredValue::Sequence(vec![integer(2024), text("rust"), StructuredValue::Bool(true)]),
            ),
            (text("aliases"), StructuredValue::Sequence(vec![StructuredValue::Bool(false), integer(-7)])),
            (text("type"), integer(5)),
            (text("created"), integer(2024)),
            (integer(1), text("x")),
            (StructuredValue::Bool(true), text("y")),
        ],
        None,
    );
    let fm = frontmatter_from(document).unwrap();
    assert_eq!(fm.tags, vec!["2024", "rust", "true"]);
    assert_eq!(fm.aliases, vec!["false", "-7"]);
    assert_eq!(fm.node_type, Some("5".to_string()));
    assert_eq!(fm.created, Some("2024".to_string()));
    assert_eq!(fm.properties.len(), 2);
    assert_eq!(fm.properties[0].name, "1");
    assert_eq!(fm.properties[0].value, text("x"));
    assert_eq!(fm.properties[1].name, "true");
}

#[test]
fn a_key_without_a_value_gives_nothing() {
    let document = mapping(
        vec![
            (text("tags"), StructuredValue::Null),
            (text("aliases"), StructuredValue::Null),
            (text("type"), StructuredValue::Null),
            (text("created"), StructuredValue::Null),
        ],
        None,
    );
    let fm = frontmatter_from(document).unwrap();
    assert!(fm.is_empty());

    let (fm, body) = parse_frontmatter("---\ntags:\naliases:\ntype:\n---\nBody");
    assert!(fm.unwrap().is_empty());
    assert_eq!(body, "Body");
}

#[test]
fn numbers_and_truth_values_in_a_note_are_read_as_text() {
    let (fm, body) = parse_frontmatter(
        "---\ntags: [2024, rust, true]\naliases: [false, 3.5]\ntype: 5\ncreated: 2024\n1: one\n---\n# T",
    );
    let fm = fm.unwrap();
    assert_eq!(fm.tags, vec!["2024", "rust", "true"]);
    assert_eq!(fm.aliases, vec!["false", "3.5"]);
    assert_eq!(fm.node_type, Some("5".to_string()));
    assert_eq!(fm.created, Some("2024".to_string()));
    assert_eq!(fm.properties.len(), 1);
    assert_eq!(fm.properties[0].name, "1");
    assert_eq!(fm.properties[0].value, text("one"));
    assert_eq!(body, "# T");
}

#[test]
fn a_region_of_comments_is_front_matter_without_entries() {
    let (fm, body) = parse_frontmatter("---\n# nothing yet\n---\n# T\n");
    assert!(fm.unwrap().is_empty());
    assert_eq!(body, "# T\n");

    let (fm, body) = parse_frontmatter("---\n# one\n\n  # two\n---\nBody");
    assert!(fm.unwrap().is_empty());
    assert_eq!(body, "Body");
}

#[test]
fn a_region_that_is_no_mapping_is_no_front_matter() {
    for content in ["---\njust text\n---\nBody", "---\n- a\n- b\n---\nBody", "---\nnull\n---\nBody"] {
        let (fm, body) = parse_frontmatter(content);
        assert!(fm.is_none());
        assert_eq!(body, content);
    }
}

#[test]
fn front_matter_region_is_framed_by_its_markers() {
    let (fm, body) = parse_frontmatter("---\ntype: note\n---");
    assert_eq!(fm.unwrap().node_type, Some("note".to_string()));
    assert_eq!(body, "");

    let (fm, body) = parse_frontmatter("---\ntype: note\n--- \n\n  Body\n");
    assert_eq!(fm.unwrap().node_type, Some("note".to_string()));
    assert_eq!(body, "Body\n");

    let unclosed = "---\ntype: note\nBody";
    let (fm, body) = parse_frontmatter(unclosed);
    assert!(fm.is_none());
    assert_eq!(body, unclosed);

    let late = " ---\ntype: note\n---\nBody";
    let (fm, body) = parse_frontmatter(late);
    assert!(fm.is_none());
    assert_eq!(body, late);

    let wrong_type = "---\ntags: rust\n---\nBody";
    let (fm, body) = parse_frontmatter(wrong_type);
    assert!(fm.is_none());
    assert_eq!(body, wrong_type);
}

#[test]
fn front_matter_values_come_from_the_yaml_decoder() {
    let (fm, _body) =
        parse_frontmatter("---\nratio: 2.5\ncount: 7\nflag: true\nnested:\n  b: 1\n  a: [x]\n---\n");
    let fm = fm.unwrap();
    assert_eq!(fm.properties.len(), 4);
    assert_eq!(
        yaml_to_property_value(&fm.properties[0].value),
        PropertyValue::Float("2.5".to_string())
    );
    assert_eq!(yaml_to_property_value(&fm.properties[1].value), PropertyValue::Integer(7));
    assert_eq!(yaml_to_property_value(&fm.properties[2].value), PropertyValue::Boolean(true));
    assert_eq!(
        yaml_to_property_value(&fm.properties[3].value),
        PropertyValue::Json("{\"a\":[\"x\"],\"b\":1}".to_string())
    );
    match &fm.properties[3].value {
        StructuredValue::Mapping(m) => {
            assert_eq!(m.entries.len(), 2);
            assert_eq!(m.entries[0].key, text("b"));
        }
        other => panic!("expected a mapping, got {:?}", other),
    }
}

#[test]
fn an_empty_region_is_front_matter_without_entries() {
    let (fm, body) = parse_frontmatter("---\n---\nBody");
    assert!(fm.unwrap().is_empty());
    assert_eq!(body, "Body");

    let (fm, body) = parse_frontmatter("--- \n\t\n---\n\n# Title");
    assert!(fm.unwrap().is_empty());
    assert_eq!(body, "# Title");

    let null = "---\nnull\n---\nBody";
    let (fm, body) = parse_frontmatter(null);
    assert!(fm.is_none());
    assert_eq!(body, null);
}
