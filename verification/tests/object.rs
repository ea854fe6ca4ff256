use cognistruct::dcom::serialization::{BinarySource, VirtualSource};
use cognistruct::dcom::{
    CognitiveObject, MarkdownSource, ObjectId, PropertyValue, SerializationSource,
};

#[test]
fn test_object_id_new() {
    let id1 = ObjectId::new();
    let id2 = ObjectId::new();
    assert_ne!(id1, id2);
}

#[test]
fn test_object_id_from_string() {
    let id = ObjectId::from_string("test-id-123");
    assert_eq!(id.as_str(), "test-id-123");
}

#[test]
fn test_cognitive_object_new() {
    let obj = CognitiveObject::new();
    assert!(!obj.id.as_str().is_empty());
    assert!(obj.created_at > 0);
    assert!(obj.properties.is_empty());
}

#[test]
fn test_cognitive_object_with_id() {
    let obj = CognitiveObject::with_id("custom-id".into());
    assert_eq!(obj.id.as_str(), "custom-id");
}

#[test]
fn test_set_and_get_property() {
    let mut obj = CognitiveObject::new();
    obj.set_property("key", PropertyValue::string("value"));

    let prop = obj.get_property("key");
    assert!(prop.is_some());
    assert_eq!(prop.unwrap().as_string(), Some("value"));
}

#[test]
fn test_remove_property() {
    let mut obj = CognitiveObject::new();
    obj.set_property("key", PropertyValue::string("value"));

    let removed = obj.remove_property("key");
    assert!(removed.is_some());
    assert!(obj.get_property("key").is_none());
}

#[test]
fn test_title_convenience_methods() {
    let mut obj = CognitiveObject::new();
    obj.set_title("My Note");

    assert_eq!(obj.title(), Some("My Note"));
}

#[test]
fn test_content_convenience_methods() {
    let mut obj = CognitiveObject::new();
    obj.set_content("Hello, world!");

    assert_eq!(obj.content(), Some("Hello, world!"));
}

#[test]
fn test_type_with_inferred() {
    let mut obj = CognitiveObject::new();
    obj.set_type("note");
    obj.inferred_type = Some("concept".to_string());

    assert_eq!(obj.object_type(), Some("concept"));
}

#[test]
fn test_type_without_inferred() {
    let mut obj = CognitiveObject::new();
    obj.set_type("note");

    assert_eq!(obj.object_type(), Some("note"));
}

#[test]
fn test_add_tag() {
    let mut obj = CognitiveObject::new();
    obj.add_tag("rust");
    obj.add_tag("programming");
    obj.add_tag("rust");

    assert_eq!(obj.tags.len(), 2);
    assert!(obj.tags.contains(&"rust".to_string()));
}

#[test]
fn test_remove_tag() {
    let mut obj = CognitiveObject::new();
    obj.add_tag("rust");

    assert!(obj.remove_tag("rust"));
    assert!(!obj.remove_tag("nonexistent"));
    assert!(obj.tags.is_empty());
}

#[test]
fn test_add_alias() {
    let mut obj = CognitiveObject::new();
    obj.add_alias("alias1");
    obj.add_alias("alias2");
    obj.add_alias("alias1");

    assert_eq!(obj.aliases.len(), 2);
}

#[test]
fn test_add_link() {
    let mut obj = CognitiveObject::new();
    let target = ObjectId::new();
    obj.add_link(target.clone());

    assert_eq!(obj.links.len(), 1);
    assert_eq!(obj.links[0], target);
}

#[test]
fn test_add_source() {
    let mut obj = CognitiveObject::new();
    let source = SerializationSource::Markdown(MarkdownSource::new("test.md", "hash", 0));
    obj.add_source(source);

    assert_eq!(obj.sources.len(), 1);
    assert!(obj.markdown_source().is_some());
}

#[test]
fn test_path() {
    let mut obj = CognitiveObject::new();
    let source = SerializationSource::Markdown(MarkdownSource::new("notes/test.md", "hash", 0));
    obj.add_source(source);

    assert_eq!(obj.path(), Some("notes/test.md"));
}

#[test]
fn test_has_file() {
    let obj = CognitiveObject::new();
    assert!(!obj.has_file());

    let mut obj2 = CognitiveObject::new();
    obj2.add_source(SerializationSource::Markdown(MarkdownSource::new("test.md", "hash", 0)));
    assert!(obj2.has_file());
}

#[test]
fn test_is_virtual() {
    let obj = CognitiveObject::new();
    assert!(obj.is_virtual());

    let mut obj2 = CognitiveObject::new();
    obj2.add_source(SerializationSource::Markdown(MarkdownSource::new("test.md", "hash", 0)));
    assert!(!obj2.is_virtual());
}

#[test]
fn object_id_conversions() {
    let id: ObjectId = String::from("abc").into();
    assert_eq!(id.clone().into_string(), "abc");
    assert_eq!(id, ObjectId::from("abc"));
    assert_eq!(ObjectId::new().as_str().len(), 36);
    assert_ne!(ObjectId::default(), ObjectId::default());
}

#[test]
fn only_changes_move_the_time_of_the_last_change() {
    let mut obj = CognitiveObject::with_id_at(ObjectId::from_string("o"), 10);
    assert_eq!((obj.created_at, obj.updated_at), (10, 10));

    obj.add_tag_at("t", 20);
    assert_eq!(obj.updated_at, 20);
    obj.add_tag_at("t", 30);
    assert_eq!(obj.updated_at, 20);

    obj.add_alias_at("a", 40);
    assert_eq!(obj.updated_at, 40);
    obj.add_alias_at("a", 50);
    assert_eq!(obj.updated_at, 40);

    obj.add_link_at(ObjectId::from_string("x"), 60);
    assert_eq!(obj.updated_at, 60);
    obj.add_link_at(ObjectId::from_string("x"), 70);
    assert_eq!(obj.updated_at, 60);
    assert_eq!(obj.links.len(), 1);

    assert!(!obj.remove_tag_at("absent", 80));
    assert_eq!(obj.updated_at, 60);
    assert!(obj.remove_tag_at("t", 90));
    assert_eq!(obj.updated_at, 90);

    assert_eq!(obj.remove_property_at("absent", 100), None);
    assert_eq!(obj.updated_at, 90);
    obj.set_property_at("p", PropertyValue::integer(1), 110);
    assert_eq!(obj.updated_at, 110);
    obj.set_property_at("p", PropertyValue::integer(1), 120);
    assert_eq!(obj.updated_at, 120);
    assert_eq!(obj.remove_property_at("p", 130), Some(PropertyValue::integer(1)));
    assert_eq!(obj.updated_at, 130);

    obj.add_source_at(SerializationSource::Virtual(VirtualSource::new("rule", 1)), 140);
    assert_eq!(obj.updated_at, 140);
    assert_eq!(obj.created_at, 10);
    assert_eq!(obj.id.as_str(), "o");
}

#[test]
fn properties_keep_the_order_in_which_names_were_first_set() {
    let mut obj = CognitiveObject::with_id_at(ObjectId::from_string("o"), 0);
    obj.set_property_at("b", PropertyValue::integer(1), 0);
    obj.set_property_at("a", PropertyValue::integer(2), 0);
    obj.set_property_at("b", PropertyValue::integer(3), 0);
    obj.set_property_at("c", PropertyValue::Null, 0);

    let entries = obj.properties().entries();
    assert_eq!(entries.len(), 3);
    assert_eq!(obj.properties.len(), 3);
    assert_eq!((entries[0].name.as_str(), &entries[0].value), ("b", &PropertyValue::integer(3)));
    assert_eq!((entries[1].name.as_str(), &entries[1].value), ("a", &PropertyValue::integer(2)));
    assert!(obj.properties.contains_key("c"));
    assert!(!obj.properties.contains_key("d"));

    obj.remove_property_at("b", 0);
    let entries = obj.properties().entries();
    assert_eq!(entries.len(), 2);
    assert_eq!(entries[0].name, "a");
    assert_eq!(entries[1].name, "c");
    assert_eq!(obj.properties.get("b"), None);
}

#[test]
fn a_property_of_another_variant_is_no_title() {
    let mut obj = CognitiveObject::new();
    obj.set_property("title", PropertyValue::integer(5));
    obj.set_property("type", PropertyValue::boolean(true));
    assert_eq!(obj.title(), None);
    assert_eq!(obj.get_type(), None);
    assert_eq!(obj.object_type(), None);
    assert_eq!(obj.content(), None);
    obj.inferred_type = Some("concept".to_string());
    assert_eq!(obj.object_type(), Some("concept"));
    assert_eq!(obj.get_type(), None);
}

#[test]
fn sources_decide_whether_an_object_is_virtual() {
    let mut obj = CognitiveObject::new();
    obj.add_source(SerializationSource::Virtual(VirtualSource::new("rule", 1)));
    assert!(obj.is_virtual());
    assert!(!obj.has_file());
    assert!(obj.markdown_source().is_none());
    assert_eq!(obj.path(), None);

    obj.add_source(SerializationSource::Binary(BinarySource::new("a.pdf", "h", "application/pdf", 3, 4)));
    assert!(!obj.is_virtual());
    assert!(obj.has_file());
    assert_eq!(obj.path(), None);

    obj.add_source(SerializationSource::Markdown(MarkdownSource::new("one.md", "h1", 5)));
    obj.add_source(SerializationSource::Markdown(MarkdownSource::new("two.md", "h2", 6)));
    assert_eq!(obj.path(), Some("one.md"));
    assert_eq!(obj.markdown_source().unwrap().content_hash, "h1");
    assert_eq!(obj.sources().len(), 4);
}

#[test]
fn a_random_identity_is_a_version_4_uuid_in_lower_case() {
    for round in 0..200 {
        let id = match round % 3 {
            0 => ObjectId::new(),
            1 => CognitiveObject::new().id,
            _ => ObjectId::default(),
        };
        let text = id.as_str();
        assert_eq!(text.len(), 36);
        for (i, c) in text.chars().enumerate() {
            if i == 8 || i == 13 || i == 18 || i == 23 {
                assert_eq!(c, '-', "{}", text);
            } else {
                assert!(c.is_ascii_digit() || ('a'..='f').contains(&c), "{}", text);
            }
        }
        assert_eq!(&text[14..15], "4", "{}", text);
        assert!(matches!(&text[19..20], "8" | "9" | "a" | "b"), "{}", text);
    }
}
