use cognistruct::adapters::obsidian::ObsidianAdapter;
use cognistruct::adapters::{AdapterError, AdapterRegistry, LinkKind, ObjectAdapter};

#[test]
fn test_adapter_registry() {
    let registry: AdapterRegistry<ObsidianAdapter> = AdapterRegistry::default();

    assert!(registry.find_adapter("md").is_some());
    assert!(registry.find_adapter("markdown").is_some());

    assert!(registry.find_adapter("pdf").is_none());
}

#[test]
fn test_find_adapter_for_path() {
    let registry: AdapterRegistry<ObsidianAdapter> = AdapterRegistry::default();

    assert!(registry.find_adapter_for_path("notes/test.md").is_some());

    assert!(registry.find_adapter_for_path("docs/test.pdf").is_none());
}

#[test]
fn registry_answers_with_the_first_adapter_registered() {
    let mut registry = AdapterRegistry::new();
    assert!(registry.find_adapter("md").is_none());
    assert_eq!(registry.find_index("md"), None);

    registry.register(ObsidianAdapter::new());
    registry.register(ObsidianAdapter::new());

    assert_eq!(registry.adapters.len(), 2);
    assert_eq!(registry.find_index("md"), Some(0));
    assert_eq!(registry.find_index("MarkDown"), Some(0));
    assert_eq!(registry.find_index("mdx"), None);
    assert_eq!(registry.find_index_for_path("a/b.c/note.MD"), Some(0));
    assert_eq!(registry.find_index_for_path("a/b.md/note"), None);
    assert_eq!(registry.find_index_for_path(".md"), None);
}

#[test]
fn link_kind_names() {
    assert_eq!(LinkKind::WikiLink.name(), "WikiLink");
    assert_eq!(LinkKind::BlockReference.name(), "BlockReference");
    assert_eq!(LinkKind::Embed.name(), "Embed");
    assert_eq!(LinkKind::External.name(), "External");
}

#[test]
fn adapter_error_messages() {
    assert_eq!(AdapterError::Decode.message(), "the content is not valid UTF-8 text");
    assert_eq!(AdapterError::Parse.message(), "the content cannot be parsed");
    assert_eq!(
        AdapterError::MissingAttribute("title".to_string()).message(),
        "the object has no title"
    );
}

#[test]
fn supports_ignores_ascii_case_only() {
    let adapter = ObsidianAdapter::new();
    assert!(adapter.supports("Md"));
    assert!(adapter.supports("MARKDOWN"));
    assert!(!adapter.supports("m\u{212A}"));
    assert!(!adapter.supports(""));
    assert_eq!(adapter.supported_extensions(), vec!["md".to_string(), "markdown".to_string()]);
}
