use cognistruct::dcom::serialization::{BinarySource, VirtualSource};
use cognistruct::dcom::{MarkdownSource, SerializationSource};

#[test]
fn test_markdown_source_new() {
    let source = MarkdownSource::new("notes/test.md", "abc123", 1704067200);
    assert_eq!(source.path, "notes/test.md");
    assert_eq!(source.content_hash, "abc123");
}

#[test]
fn test_markdown_source_has_changed() {
    let source = MarkdownSource::new("test.md", "hash1", 0);
    assert!(source.has_changed("hash2"));
    assert!(!source.has_changed("hash1"));
}

#[test]
fn test_binary_source_new() {
    let source = BinarySource::new("docs/file.pdf", "xyz789", "application/pdf", 1024, 1704067200);
    assert_eq!(source.path, "docs/file.pdf");
    assert_eq!(source.mime_type, "application/pdf");
    assert_eq!(source.size_bytes, 1024);
}

#[test]
fn test_virtual_source_new() {
    let source = VirtualSource::new("urgent_tasks", 1704067200);
    assert_eq!(source.rule_name, "urgent_tasks");
}

#[test]
fn test_serialization_source_path() {
    let md = SerializationSource::Markdown(MarkdownSource::new("test.md", "hash", 0));
    assert_eq!(md.path(), Some("test.md"));

    let virtual_src = SerializationSource::Virtual(VirtualSource::new("rule", 0));
    assert!(virtual_src.path().is_none());
}

#[test]
fn test_serialization_source_type_checks() {
    let md = SerializationSource::Markdown(MarkdownSource::new("test.md", "hash", 0));
    assert!(md.is_markdown());
    assert!(!md.is_binary());
    assert!(!md.is_virtual());
}

#[test]
fn sources_of_every_kind() {
    let md = SerializationSource::Markdown(MarkdownSource::new("a.md", "h1", 11));
    let bin = SerializationSource::Binary(BinarySource::new("b.png", "h2", "image/png", 9, 12));
    let virt = SerializationSource::Virtual(VirtualSource::new("rule", 13));

    assert_eq!(md.content_hash(), Some("h1"));
    assert_eq!(bin.content_hash(), Some("h2"));
    assert_eq!(virt.content_hash(), None);
    assert_eq!(bin.path(), Some("b.png"));
    assert!(bin.is_binary() && !bin.is_markdown() && !bin.is_virtual());
    assert!(virt.is_virtual() && !virt.is_markdown() && !virt.is_binary());
    match (&md, &bin, &virt) {
        (
            SerializationSource::Markdown(m),
            SerializationSource::Binary(b),
            SerializationSource::Virtual(v),
        ) => {
            assert_eq!(m.last_modified, 11);
            assert_eq!(b.last_modified, 12);
            assert_eq!(v.computed_at, 13);
        }
        _ => panic!("the sources changed their kind"),
    }
    assert!(!MarkdownSource::new("a.md", "", 0).has_changed(""));
    assert!(MarkdownSource::new("a.md", "abc", 0).has_changed("ab"));
}
