use cognistruct::adapters::obsidian::ObsidianAdapter;
use cognistruct::adapters::{AdapterError, LinkKind, ObjectAdapter};
use cognistruct::dcom::{CognitiveObject, ObjectId, PropertyValue, SerializationSource};

#[test]
fn test_obsidian_adapter_supported_extensions() {
    let adapter = ObsidianAdapter::new();
    assert!(adapter.supports("md"));
    assert!(adapter.supports("markdown"));
    assert!(adapter.supports("MD"));
    assert!(!adapter.supports("txt"));
}

#[test]
fn test_obsidian_adapter_load_basic() {
    let adapter = ObsidianAdapter::new();
    let content = b"# Hello World\n\nThis is content.";

    let obj = adapter.load("test.md", content).unwrap();

    assert_eq!(obj.title(), Some("Hello World"));
    assert!(obj.content().unwrap().contains("This is content"));
}

#[test]
fn test_obsidian_adapter_load_with_frontmatter() {
    let adapter = ObsidianAdapter::new();
    let content = b"---\ntags: [rust, test]\ntype: note\n---\n# My Note\n\nContent here.";

    let obj = adapter.load("test.md", content).unwrap();

    assert_eq!(obj.title(), Some("My Note"));
    assert_eq!(obj.get_type(), Some("note"));
    assert!(obj.tags().contains(&"rust".to_string()));
    assert!(obj.tags().contains(&"test".to_string()));
}

#[test]
fn test_obsidian_adapter_save() {
    let adapter = ObsidianAdapter::new();

    let mut obj = CognitiveObject::new();
    obj.set_title("Test Note");
    obj.set_content("Hello world");
    obj.set_type("note");
    obj.add_tag("rust");

    let saved = adapter.save(&obj).unwrap();
    let saved_str = String::from_utf8(saved).unwrap();

    assert!(saved_str.contains("---"));
    assert!(saved_str.contains("type: note"));
    assert!(saved_str.contains("tags: [rust]"));
    assert!(saved_str.contains("# Test Note"));
}

#[test]
fn test_obsidian_adapter_extract_links() {
    let adapter = ObsidianAdapter::new();

    let mut obj = CognitiveObject::new();
    obj.set_content("Link to [[Page A]] and [[Page B|display]].");

    let links = adapter.extract_links(&obj);

    assert_eq!(links.len(), 2);
    assert!(links.iter().any(|l| l.target == "Page A"));
    assert!(links.iter().any(|l| l.target == "Page B"));
}

#[test]
fn test_compute_hash() {
    let hash1 = ObsidianAdapter::compute_hash(b"hello");
    let hash2 = ObsidianAdapter::compute_hash(b"hello");
    let hash3 = ObsidianAdapter::compute_hash(b"world");

    assert_eq!(hash1, hash2);
    assert_ne!(hash1, hash3);
}

#[test]
fn fingerprint_has_sixteen_hexadecimal_digits() {
    assert_eq!(ObsidianAdapter::format_hash(0), "0000000000000000");
    assert_eq!(ObsidianAdapter::format_hash(0xabc), "0000000000000abc");
    assert_eq!(ObsidianAdapter::format_hash(0x0123_4567_89ab_cdef), "0123456789abcdef");
    assert_eq!(ObsidianAdapter::format_hash(u64::MAX), "ffffffffffffffff");
    let hash = ObsidianAdapter::compute_hash(b"");
    assert_eq!(hash.len(), 16);
    assert!(hash.chars().all(|c| c.is_ascii_hexdigit() && !c.is_ascii_uppercase()));
    assert_ne!(ObsidianAdapter::compute_hash(b"ab"), ObsidianAdapter::compute_hash(b"ba"));
}

#[test]
fn load_refuses_bytes_that_are_not_utf8() {
    let adapter = ObsidianAdapter::new();
    assert_eq!(adapter.load("bad.md", &[0x66, 0xff, 0x6f]).unwrap_err(), AdapterError::Decode);
    assert_eq!(
        adapter.load_at("bad.md", &[0xc3], ObjectId::from_string("x"), 1, 2).unwrap_err(),
        AdapterError::Decode
    );
    let loaded = adapter.load("empty.md", b"").unwrap();
    let id = loaded.id.as_str();
    assert_eq!(id.len(), 36);
    assert_eq!(id.matches('-').count(), 4);
    assert_eq!(&id[14..15], "4");
    assert_eq!(loaded.title(), Some("Untitled"));
}

#[test]
fn load_at_builds_the_whole_object() {
    let adapter = ObsidianAdapter::new();
    let content = "---\ntype: project\ntags: [x, y]\naliases: [Alias, Alias, Other]\ncreated: 2024-01-15\nauthor: Ann\nrank: 3\n---\n\n# Title\n\nBody with #y and #z.\n";
    let obj = adapter
        .load_at("dir/note.md", content.as_bytes(), ObjectId::from_string("id-1"), 1000, 7)
        .unwrap();

    assert_eq!(obj.id.as_str(), "id-1");
    assert_eq!(obj.created_at, 1000);
    assert_eq!(obj.updated_at, 1000);
    assert_eq!(obj.title(), Some("Title"));
    assert_eq!(obj.content(), Some("# Title\n\nBody with #y and #z.\n"));
    assert_eq!(obj.get_type(), Some("project"));
    assert_eq!(obj.object_type(), Some("project"));
    assert_eq!(obj.tags(), &vec!["x".to_string(), "y".to_string(), "z".to_string()]);
    assert_eq!(obj.aliases(), &vec!["Alias".to_string(), "Other".to_string()]);
    let names: Vec<&str> = obj.properties().entries().iter().map(|p| p.name.as_str()).collect();
    assert_eq!(names, vec!["title", "content", "type", "author", "rank", "created"]);
    assert_eq!(obj.get_property("author"), Some(&PropertyValue::string("Ann")));
    assert_eq!(obj.get_property("rank"), Some(&PropertyValue::integer(3)));
    assert_eq!(obj.get_property("created"), Some(&PropertyValue::string("2024-01-15")));
    assert!(obj.links().is_empty());
    assert!(obj.inferred_type.is_none());
    assert_eq!(obj.sources().len(), 1);
    match &obj.sources()[0] {
        SerializationSource::Markdown(m) => {
            assert_eq!(m.path, "dir/note.md");
            assert_eq!(m.content_hash, ObsidianAdapter::compute_hash(content.as_bytes()));
            assert_eq!(m.last_modified, 7);
        }
        other => panic!("expected a Markdown source, got {:?}", other),
    }
    assert_eq!(obj.path(), Some("dir/note.md"));
}

#[test]
fn save_refuses_an_object_without_title() {
    let adapter = ObsidianAdapter::new();
    let mut obj = CognitiveObject::new();
    obj.set_content("text");
    assert_eq!(
        adapter.save(&obj).unwrap_err(),
        AdapterError::MissingAttribute("title".to_string())
    );
    obj.set_property("title", PropertyValue::integer(1));
    assert_eq!(
        adapter.save(&obj).unwrap_err(),
        AdapterError::MissingAttribute("title".to_string())
    );
}

#[test]
fn save_writes_front_matter_heading_and_body() {
    let adapter = ObsidianAdapter::new();
    let mut obj = CognitiveObject::new();
    obj.set_title("T");
    obj.set_content("  # Old heading\n\n\nBody\nmore\n");
    assert_eq!(String::from_utf8(adapter.save(&obj).unwrap()).unwrap(), "# T\n\nBody\nmore");

    obj.set_type("note");
    obj.add_tag("a");
    obj.add_tag("b");
    obj.add_alias("A");
    obj.set_property("n", PropertyValue::integer(-12));
    obj.set_property("none", PropertyValue::Null);
    obj.set_property("ok", PropertyValue::boolean(true));
    obj.set_property("f", PropertyValue::float_text("2.5"));
    obj.set_property("when", PropertyValue::DateTime("2024-01-15T10:00:00Z".to_string()));
    obj.set_property("ref", PropertyValue::reference("abc"));
    obj.set_property(
        "list",
        PropertyValue::List(vec![
            PropertyValue::string("x"),
            PropertyValue::Null,
            PropertyValue::integer(0),
            PropertyValue::List(vec![]),
            PropertyValue::boolean(false),
        ]),
    );
    obj.set_property("json", PropertyValue::Json("{\"a\":1}".to_string()));
    obj.set_content("No heading here");
    let saved = String::from_utf8(adapter.save(&obj).unwrap()).unwrap();
    assert_eq!(
        saved,
        "---\ntype: note\ntags: [a, b]\naliases: [A]\nn: -12\nok: true\nf: 2.5\nwhen: \"2024-01-15T10:00:00Z\"\nref: \"[[abc]]\"\nlist: [\"x\", 0, false]\njson: {\"a\":1}\n---\n\n# T\n\nNo heading here"
    );
    assert_eq!(adapter.build_frontmatter(&obj), "type: note\ntags: [a, b]\naliases: [A]\nn: -12\nok: true\nf: 2.5\nwhen: \"2024-01-15T10:00:00Z\"\nref: \"[[abc]]\"\nlist: [\"x\", 0, false]\njson: {\"a\":1}");
}

#[test]
fn yaml_lines_for_single_properties() {
    let adapter = ObsidianAdapter::new();
    assert_eq!(adapter.property_to_yaml_line("k", &PropertyValue::Null), None);
    assert_eq!(
        adapter.property_to_yaml_line("k", &PropertyValue::string("v")),
        Some("k: \"v\"".to_string())
    );
    assert_eq!(
        adapter.property_to_yaml_line("k", &PropertyValue::integer(i64::MIN)),
        Some("k: -9223372036854775808".to_string())
    );
    assert_eq!(
        adapter.property_to_yaml_line("k", &PropertyValue::List(vec![])),
        Some("k: []".to_string())
    );
    assert_eq!(adapter.property_to_yaml_value(&PropertyValue::List(vec![])), None);
    assert_eq!(adapter.property_to_yaml_value(&PropertyValue::Json("1".to_string())), None);
    assert_eq!(
        adapter.property_to_yaml_value(&PropertyValue::integer(i64::MAX)),
        Some("9223372036854775807".to_string())
    );
    assert_eq!(adapter.property_to_yaml_value(&PropertyValue::integer(0)), Some("0".to_string()));
}

#[test]
fn remove_title_line_strips_a_leading_heading_only() {
    let adapter = ObsidianAdapter::new();
    assert_eq!(adapter.remove_title_line("# Title\n\nBody"), "Body");
    assert_eq!(adapter.remove_title_line("# Title"), "");
    assert_eq!(adapter.remove_title_line("#Title\nBody"), "#Title\nBody");
    assert_eq!(adapter.remove_title_line("## Sub\nBody"), "## Sub\nBody");
    assert_eq!(adapter.remove_title_line("Body\n# Title"), "Body\n# Title");
    assert_eq!(adapter.remove_title_line(""), "");
    assert_eq!(adapter.remove_title_line("# T\r\na\r\nb\n"), "a\nb");
}

#[test]
fn extract_links_gives_wikilinks_then_embeds_then_external_links() {
    let adapter = ObsidianAdapter::new();
    let mut obj = CognitiveObject::new();
    assert!(adapter.extract_links(&obj).is_empty());

    obj.set_content("[site](https://example.org) ![[pic.png]] [[Note]]\n[[Other#^b1]]");
    let links = adapter.extract_links(&obj);
    let kinds: Vec<LinkKind> = links.iter().map(|l| l.kind).collect();
    assert_eq!(
        kinds,
        vec![LinkKind::WikiLink, LinkKind::BlockReference, LinkKind::Embed, LinkKind::External]
    );
    assert_eq!(links[0].target, "Note");
    assert_eq!(links[1].target, "Other");
    assert_eq!(links[1].line_number, Some(2));
    assert_eq!(links[2].target, "pic.png");
    assert_eq!(links[3].target, "https://example.org");
    assert_eq!(links[3].display_text, Some("site".to_string()));
}

#[test]
fn load_save_load_keeps_title_type_tags_aliases_and_body() {
    let adapter = ObsidianAdapter::new();
    let bytes = b"---\ntype: note\ntags: [rust, test]\naliases: [First, Second]\n---\n# My Note\n\nBody with [[Link]] and #inline.\n\nSecond paragraph.";
    let first = adapter.load("note.md", bytes).unwrap();
    let saved = adapter.save(&first).unwrap();
    let second = adapter.load("note.md", &saved).unwrap();

    assert_eq!(second.title(), first.title());
    assert_eq!(second.get_type(), first.get_type());
    let mut first_tags = first.tags().clone();
    let mut second_tags = second.tags().clone();
    first_tags.sort();
    second_tags.sort();
    assert_eq!(second_tags, first_tags);
    assert_eq!(first_tags, vec!["inline", "rust", "test"]);
    let mut first_aliases = first.aliases().clone();
    let mut second_aliases = second.aliases().clone();
    first_aliases.sort();
    second_aliases.sort();
    assert_eq!(second_aliases, first_aliases);
    assert_eq!(second.content(), first.content());
    assert_eq!(
        second.content(),
        Some("# My Note\n\nBody with [[Link]] and #inline.\n\nSecond paragraph.")
    );
}

#[test]
fn a_tag_of_digits_survives_save_and_load() {
    let adapter = ObsidianAdapter::new();
    let first = adapter.load("note.md", b"---\ntags: [\"2024\"]\ntype: \"5\"\naliases: [\"true\"]\n---\n# T").unwrap();
    assert_eq!(first.tags(), &vec!["2024".to_string()]);
    assert_eq!(first.get_type(), Some("5"));
    assert_eq!(first.aliases(), &vec!["true".to_string()]);

    let saved = String::from_utf8(adapter.save(&first).unwrap()).unwrap();
    assert!(saved.contains("tags: [2024]"));
    assert!(saved.contains("type: 5"));
    assert!(saved.contains("aliases: [true]"));

    let second = adapter.load("note.md", saved.as_bytes()).unwrap();
    assert_eq!(second.title(), Some("T"));
    assert_eq!(second.tags(), first.tags());
    assert_eq!(second.get_type(), Some("5"));
    assert_eq!(second.aliases(), first.aliases());
    assert_eq!(second.content(), Some("# T\n\n"));
}

#[test]
fn a_note_with_numbers_in_its_front_matter_loads_with_them_as_text() {
    let adapter = ObsidianAdapter::new();
    let object = adapter
        .load("note.md", b"---\ntags: [2024, rust]\naliases: [true]\ntype: 5\ncreated: 2024\n---\n# T\n\nBody")
        .unwrap();
    assert_eq!(object.title(), Some("T"));
    assert_eq!(object.tags(), &vec!["2024".to_string(), "rust".to_string()]);
    assert_eq!(object.aliases(), &vec!["true".to_string()]);
    assert_eq!(object.get_type(), Some("5"));
    assert_eq!(object.content(), Some("# T\n\nBody"));
}

#[test]
fn a_note_with_comments_for_front_matter_loads_without_the_region() {
    let adapter = ObsidianAdapter::new();
    let object = adapter.load("note.md", b"---\n# to be filled in\n---\n# Title\n\nBody").unwrap();
    assert_eq!(object.title(), Some("Title"));
    assert_eq!(object.content(), Some("# Title\n\nBody"));
    assert!(object.tags().is_empty());
}
