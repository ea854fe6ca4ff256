use cognistruct::adapters::obsidian::ObsidianAdapter;
use cognistruct::adapters::{AdapterError, AdapterRegistry, ObjectAdapter};
use cognistruct::dcom::{CognitiveObject, ObjectId, PropertyValue};
use cognistruct::sync::identity::{format_fingerprint, format_identity, tag_to_identity};
use cognistruct::sync::store::DEFAULT_WEIGHT_BITS;
use cognistruct::sync::{
    calculate_hash, path_to_uuid, sync_vault, Edge, Node, StoreAction, VaultFile, VaultSyncer,
};
use std::collections::BTreeMap;

/// A store in memory: nodes by identity, edges by source and destination.
fn perform(
    nodes: &mut BTreeMap<String, Node>,
    edges: &mut BTreeMap<(String, String), Edge>,
    actions: &[StoreAction],
) {
    for action in actions {
        match action {
            StoreAction::ClearAll => {
                nodes.clear();
                edges.clear();
            }
            StoreAction::UpsertNode(node) => {
                nodes.insert(node.uuid.clone(), node.clone());
            }
            StoreAction::UpsertEdge(edge) => {
                edges.insert((edge.src_uuid.clone(), edge.dst_uuid.clone()), edge.clone());
            }
            StoreAction::DeleteNode(uuid) => {
                nodes.remove(uuid);
            }
            StoreAction::DeleteEdgesIncidentTo(uuid) => {
                edges.retain(|(src, dst), _| src != uuid && dst != uuid);
            }
        }
    }
}

fn file(path: &str, content: &str) -> VaultFile {
    VaultFile { relative_path: path.to_string(), content: content.as_bytes().to_vec() }
}

fn three_notes() -> Vec<VaultFile> {
    vec![
        file("note1.md", "# Note 1\n\nLink to [[note2]].\n\n#tag1"),
        file("note2.md", "# Note 2\n\nLink to [[note1]].\n\n#tag2"),
        file("subfolder/note3.md", "# Note 3\n\nLink to [[note1]].\n\n#tag3"),
    ]
}

#[test]
fn test_calculate_hash() {
    let content1 = "Hello, World!";
    let content2 = "Hello, World!";
    let content3 = "Different content";

    let hash1 = calculate_hash(content1);
    let hash2 = calculate_hash(content2);
    let hash3 = calculate_hash(content3);

    assert_eq!(hash1, hash2);
    assert_ne!(hash1, hash3);
}

#[test]
fn test_path_to_uuid() {
    let uuid1 = path_to_uuid("notes/test.md");
    let uuid2 = path_to_uuid("notes/test.md");
    let uuid3 = path_to_uuid("notes/other.md");

    assert_eq!(uuid1, uuid2);
    assert_ne!(uuid1, uuid3);
    assert!(uuid1.contains('-'));
}

#[test]
fn test_vault_syncer_new() {
    let syncer = VaultSyncer::with_defaults();
    assert!(syncer.registry.find_adapter("md").is_some());
}

#[test]
fn test_sync_vault() {
    let mut nodes = BTreeMap::new();
    let mut edges = BTreeMap::new();

    let actions = sync_vault(&three_notes(), 1_700_000_000);
    perform(&mut nodes, &mut edges, &actions);

    assert_eq!(nodes.len(), 3);

    let titles: Vec<String> = nodes.values().map(|n| n.title.clone()).collect();
    assert!(titles.contains(&"Note 1".to_string()));
    assert!(titles.contains(&"Note 2".to_string()));
    assert!(titles.contains(&"Note 3".to_string()));
}

#[test]
fn test_sync_full_with_result() {
    let files = vec![
        file("note1.md", "# Note 1\n\nLink to [[note2]].\n\n#tag1"),
        file("note2.md", "# Note 2\n\nContent"),
    ];

    let syncer = VaultSyncer::with_defaults();
    let (_actions, result) = syncer.sync_full(&files, 1_700_000_000);

    assert_eq!(result.nodes_synced, 2);
    assert!(result.edges_created >= 2);
}

#[test]
fn test_sync_file_new() {
    let mut nodes = BTreeMap::new();
    let mut edges = BTreeMap::new();

    let syncer = VaultSyncer::with_defaults();
    let synced = syncer
        .sync_file("new_note.md", Some("# New Note\n\nContent here.".as_bytes()), 1_700_000_000)
        .unwrap();
    perform(&mut nodes, &mut edges, &synced.actions);

    assert!(synced.handled);

    assert_eq!(nodes.len(), 1);
    assert_eq!(nodes.values().next().unwrap().title, "New Note");
}

#[test]
fn test_sync_file_unsupported() {
    let syncer = VaultSyncer::with_defaults();
    let synced = syncer.sync_file("image.png", Some("fake image data".as_bytes()), 0).unwrap();

    assert!(!synced.handled);
    assert!(synced.actions.is_empty());
}

#[test]
fn test_sync_vault_empty() {
    let mut nodes = BTreeMap::new();
    let mut edges = BTreeMap::new();

    let actions = sync_vault(&Vec::new(), 0);
    perform(&mut nodes, &mut edges, &actions);

    assert_eq!(nodes.len(), 0);
    assert_eq!(edges.len(), 0);
    assert_eq!(actions, vec![StoreAction::ClearAll]);
}

#[test]
fn test_sync_vault_clear_old_data() {
    let mut nodes = BTreeMap::new();
    let mut edges = BTreeMap::new();
    let files = vec![file("note1.md", "# Note 1\n\nContent")];

    perform(&mut nodes, &mut edges, &sync_vault(&files, 1));
    assert_eq!(nodes.len(), 1);

    perform(&mut nodes, &mut edges, &sync_vault(&files, 2));
    assert_eq!(nodes.len(), 1);
}

#[test]
fn test_build_filename_index() {
    let syncer = VaultSyncer::with_defaults();

    let obj1 = CognitiveObject::new();
    let obj2 = CognitiveObject::new();

    let objects = vec![(obj1, "notes/test.md".to_string()), (obj2, "other/test.md".to_string())];

    let index = syncer.build_filename_index(&objects);

    assert!(index.contains_key("test"));
    assert_eq!(index.get("test").unwrap().len(), 2);
}

#[test]
fn identity_has_the_shape_of_a_uuid() {
    assert_eq!(format_identity(0), "00000000-0000-0000-0000-000000000000");
    assert_eq!(format_identity(0x0123_4567_89ab_cdef), "01234567-89ab-cdef-0123-456789abcdef");
    assert_eq!(format_identity(u64::MAX), "ffffffff-ffff-ffff-ffff-ffffffffffff");
    assert_eq!(format_identity(0x1_0000_0000), "00000001-0000-0000-0000-000100000000");
    let uuid = path_to_uuid("");
    assert_eq!(uuid.len(), 36);
    let hyphens: Vec<usize> =
        uuid.char_indices().filter(|(_, c)| *c == '-').map(|(i, _)| i).collect();
    assert_eq!(hyphens, vec![8, 13, 18, 23]);
    assert_eq!(&uuid[0..4], &uuid[19..23]);
    assert_eq!(&uuid[4..8], &uuid[24..28]);
    assert_eq!(&uuid[9..13], &uuid[28..32]);
    assert_eq!(&uuid[14..18], &uuid[32..36]);
}

#[test]
fn fingerprint_of_a_text_has_no_leading_zeros() {
    assert_eq!(format_fingerprint(0), "0");
    assert_eq!(format_fingerprint(0xf), "f");
    assert_eq!(format_fingerprint(0x10), "10");
    assert_eq!(format_fingerprint(0xdead_beef), "deadbeef");
    assert_eq!(format_fingerprint(u64::MAX), "ffffffffffffffff");
    assert_ne!(calculate_hash("ab"), calculate_hash("ba"));
    assert_ne!(calculate_hash(""), calculate_hash("\0"));
}

#[test]
fn different_paths_get_different_identities() {
    let mut seen = std::collections::BTreeSet::new();
    for dir in 0..40 {
        for name in 0..50 {
            let path = format!("dir{}/sub/note-{}.md", dir, name);
            assert_eq!(path_to_uuid(&path), path_to_uuid(&path));
            assert!(seen.insert(path_to_uuid(&path)));
        }
    }
    assert_eq!(seen.len(), 2000);
    assert_eq!(tag_to_identity("rust"), "tag:rust");
    assert_eq!(tag_to_identity(""), "tag:");
}

#[test]
fn full_sync_of_three_notes() {
    let mut nodes = BTreeMap::new();
    let mut edges = BTreeMap::new();
    let syncer = VaultSyncer::with_defaults();
    let (actions, result) = syncer.sync_full(&three_notes(), 1_700_000_000);
    perform(&mut nodes, &mut edges, &actions);

    let id1 = path_to_uuid("note1.md");
    let id2 = path_to_uuid("note2.md");
    let id3 = path_to_uuid("subfolder/note3.md");
    assert_eq!(nodes.len(), 3);
    assert!(edges.len() >= 5);
    assert_eq!(edges.len(), 6);
    assert_eq!(result.nodes_synced, 3);
    assert_eq!(result.edges_created, 6);
    assert_eq!(actions.len(), 1 + 3 + 6);
    assert_eq!(actions[0], StoreAction::ClearAll);
    assert!(matches!(actions[1], StoreAction::UpsertNode(_)));
    assert!(matches!(actions[3], StoreAction::UpsertNode(_)));
    assert!(matches!(actions[4], StoreAction::UpsertEdge(_)));

    let link = |src: &str, dst: &str| Edge {
        src_uuid: src.to_string(),
        dst_uuid: dst.to_string(),
        relation: "link".to_string(),
        weight_bits: DEFAULT_WEIGHT_BITS,
        source: "WikiLink".to_string(),
    };
    assert_eq!(edges.get(&(id1.clone(), id2.clone())), Some(&link(&id1, &id2)));
    assert_eq!(edges.get(&(id2.clone(), id1.clone())), Some(&link(&id2, &id1)));
    assert_eq!(edges.get(&(id3.clone(), id1.clone())), Some(&link(&id3, &id1)));
    let tagged = edges.get(&(id3.clone(), "tag:tag3".to_string())).unwrap();
    assert_eq!(tagged.relation, "tagged");
    assert_eq!(tagged.source, "tag");
    assert_eq!(f64::from_bits(tagged.weight_bits), 1.0);

    let node = nodes.get(&id3).unwrap();
    assert_eq!(node.path, "subfolder/note3.md");
    assert_eq!(node.title, "Note 3");
    assert_eq!(node.content, "# Note 3\n\nLink to [[note1]].\n\n#tag3");
    assert_eq!(node.node_type, "note");
    assert_eq!(node.hash, calculate_hash("# Note 3\n\nLink to [[note1]].\n\n#tag3"));
    assert_eq!(node.created_at, 1_700_000_000);
    assert_eq!(node.updated_at, 1_700_000_000);
}

#[test]
fn full_sync_twice_changes_nothing() {
    let syncer = VaultSyncer::with_defaults();
    let files = three_notes();
    let mut nodes = BTreeMap::new();
    let mut edges = BTreeMap::new();
    nodes.insert(
        "stale".to_string(),
        Node {
            uuid: "stale".to_string(),
            path: "gone.md".to_string(),
            title: "Gone".to_string(),
            content: String::new(),
            node_type: "note".to_string(),
            hash: "0".to_string(),
            created_at: 0,
            updated_at: 0,
        },
    );

    let (first, _) = syncer.sync_full(&files, 5);
    perform(&mut nodes, &mut edges, &first);
    let nodes_once = nodes.clone();
    let edges_once = edges.clone();

    let (second, _) = syncer.sync_full(&files, 5);
    assert_eq!(second, first);
    perform(&mut nodes, &mut edges, &second);
    assert_eq!(nodes, nodes_once);
    assert_eq!(edges, edges_once);
    assert!(!nodes.contains_key("stale"));
}

#[test]
fn full_sync_at_a_later_time_moves_the_times_only() {
    let syncer = VaultSyncer::with_defaults();
    let files = three_notes();
    let mut nodes = BTreeMap::new();
    let mut edges = BTreeMap::new();

    let (first, first_result) = syncer.sync_full(&files, 5);
    perform(&mut nodes, &mut edges, &first);
    let nodes_once = nodes.clone();
    let edges_once = edges.clone();

    let (second, second_result) = syncer.sync_full(&files, 9);
    perform(&mut nodes, &mut edges, &second);
    assert_eq!(second_result, first_result);
    assert_eq!(edges, edges_once);
    assert_eq!(nodes.len(), nodes_once.len());
    for (uuid, node) in nodes.iter() {
        let before = &nodes_once[uuid];
        assert_eq!((before.created_at, before.updated_at), (5, 5));
        assert_eq!((node.created_at, node.updated_at), (9, 9));
        assert_eq!(
            (&node.uuid, &node.path, &node.title, &node.content, &node.node_type, &node.hash),
            (&before.uuid, &before.path, &before.title, &before.content, &before.node_type, &before.hash)
        );
    }
}

#[test]
fn a_link_leads_to_every_file_of_its_name_and_to_no_other() {
    let syncer = VaultSyncer::with_defaults();
    let files = vec![
        file("a/topic.md", "See [[topic]] and [[missing]] and ![[topic]]."),
        file("b/topic.md", "Nothing."),
        file("topic.txt", "[[topic]]"),
        file("broken.md", "\u{0}"),
        VaultFile { relative_path: "binary.md".to_string(), content: vec![0xff, 0xfe] },
        file("c/topic.markdown", "[ext](https://topic)"),
    ];
    let objects = syncer.collect_objects(&files);
    let paths: Vec<&str> = objects.iter().map(|(_, p)| p.as_str()).collect();
    assert_eq!(paths, vec!["a/topic.md", "b/topic.md", "broken.md", "c/topic.markdown"]);

    let index = syncer.build_filename_index(&objects);
    assert_eq!(
        index.get("topic"),
        Some(&vec![
            path_to_uuid("a/topic.md"),
            path_to_uuid("b/topic.md"),
            path_to_uuid("c/topic.markdown")
        ])
    );
    assert_eq!(index.get("missing"), None);
    assert_eq!(index.entries.len(), 2);

    let (actions, result) = syncer.plan_full_sync(&objects, 9);
    let edges: Vec<&Edge> = actions
        .iter()
        .filter_map(|a| match a {
            StoreAction::UpsertEdge(e) => Some(e),
            _ => None,
        })
        .collect();
    assert_eq!(result.nodes_synced, 4);
    assert_eq!(result.edges_created, edges.len());
    let described: Vec<(String, &str)> =
        edges.iter().map(|e| (e.dst_uuid.clone(), e.source.as_str())).collect();
    assert_eq!(
        described,
        vec![
            (path_to_uuid("a/topic.md"), "WikiLink"),
            (path_to_uuid("b/topic.md"), "WikiLink"),
            (path_to_uuid("c/topic.markdown"), "WikiLink"),
            (path_to_uuid("a/topic.md"), "Embed"),
            (path_to_uuid("b/topic.md"), "Embed"),
            (path_to_uuid("c/topic.markdown"), "Embed"),
        ]
    );
    assert!(edges.iter().all(|e| e.src_uuid == path_to_uuid("a/topic.md")));
    assert!(edges.iter().all(|e| e.relation == "link"));
}

#[test]
fn a_file_that_is_gone_leaves_the_store() {
    let syncer = VaultSyncer::with_defaults();
    let mut nodes = BTreeMap::new();
    let mut edges = BTreeMap::new();
    let (actions, _) = syncer.sync_full(&three_notes(), 1);
    perform(&mut nodes, &mut edges, &actions);
    let id1 = path_to_uuid("note1.md");
    assert!(edges.keys().any(|(src, _)| *src == id1));
    assert!(edges.keys().any(|(_, dst)| *dst == id1));

    let gone = syncer.sync_file("note1.md", None, 2).unwrap();
    assert!(gone.handled);
    assert_eq!(
        gone.actions,
        vec![StoreAction::DeleteNode(id1.clone()), StoreAction::DeleteEdgesIncidentTo(id1.clone())]
    );
    assert_eq!(gone.actions, syncer.plan_file_removal("note1.md"));
    perform(&mut nodes, &mut edges, &gone.actions);

    assert_eq!(nodes.len(), 2);
    assert!(!nodes.contains_key(&id1));
    assert!(edges.keys().all(|(src, dst)| *src != id1 && *dst != id1));
    assert_eq!(edges.len(), 2);

    let unknown = syncer.sync_file("image.png", None, 3).unwrap();
    assert!(unknown.handled);
    assert_eq!(unknown.actions.len(), 2);
}

#[test]
fn a_file_that_changed_gets_its_node_and_tag_edges_anew() {
    let syncer = VaultSyncer::with_defaults();
    let mut nodes = BTreeMap::new();
    let mut edges = BTreeMap::new();
    let (actions, _) = syncer.sync_full(&three_notes(), 1);
    perform(&mut nodes, &mut edges, &actions);
    let id1 = path_to_uuid("note1.md");

    let changed = syncer
        .sync_file("note1.md", Some("# Renamed\n\n[[note2]] #fresh #tag1".as_bytes()), 2)
        .unwrap();
    assert!(changed.handled);
    assert_eq!(changed.actions.len(), 4);
    assert!(matches!(changed.actions[0], StoreAction::UpsertNode(_)));
    assert_eq!(changed.actions[1], StoreAction::DeleteEdgesIncidentTo(id1.clone()));
    perform(&mut nodes, &mut edges, &changed.actions);

    assert_eq!(nodes.len(), 3);
    assert_eq!(nodes.get(&id1).unwrap().title, "Renamed");
    assert_eq!(nodes.get(&id1).unwrap().updated_at, 2);
    let from_note1: Vec<&str> = edges
        .values()
        .filter(|e| e.src_uuid == id1)
        .map(|e| e.dst_uuid.as_str())
        .collect();
    assert_eq!(from_note1, vec!["tag:fresh", "tag:tag1"]);
    assert!(edges.values().all(|e| e.dst_uuid != id1));

    let bad = syncer.sync_file("note1.md", Some(&[0x80u8][..]), 3);
    assert_eq!(bad.unwrap_err(), AdapterError::Decode);
}

#[test]
fn a_node_takes_its_title_from_the_object_or_from_the_file_name() {
    let syncer = VaultSyncer::new(AdapterRegistry::default());
    let mut obj = CognitiveObject::with_id_at(ObjectId::from_string("ignored"), 0);
    let node = syncer.object_to_node(&obj, "dir/My Note.v2.md", 77);
    assert_eq!(node.uuid, path_to_uuid("dir/My Note.v2.md"));
    assert_eq!(node.title, "My Note.v2");
    assert_eq!(node.content, "");
    assert_eq!(node.node_type, "note");
    assert_eq!(node.hash, calculate_hash(""));
    assert_eq!((node.created_at, node.updated_at), (77, 77));

    assert_eq!(syncer.object_to_node(&obj, "dir/", 0).title, "dir");
    assert_eq!(syncer.object_to_node(&obj, "dir/..", 0).title, "Untitled");
    assert_eq!(syncer.object_to_node(&obj, "", 0).title, "Untitled");
    assert_eq!(syncer.object_to_node(&obj, ".hidden", 0).title, ".hidden");

    obj.set_title("Titled");
    obj.set_type("project");
    obj.set_content("text");
    obj.inferred_type = Some("concept".to_string());
    obj.set_property("extra", PropertyValue::integer(1));
    let node = syncer.object_to_node(&obj, "x.md", 1);
    assert_eq!(node.title, "Titled");
    assert_eq!(node.node_type, "concept");
    obj.inferred_type = None;
    assert_eq!(syncer.object_to_node(&obj, "x.md", 1).node_type, "project");
    assert_eq!(node.content, "text");
    assert_eq!(node.hash, calculate_hash("text"));
    assert!(syncer.supports_path("x.MD"));
    assert!(!syncer.supports_path("x"));
    assert!(ObsidianAdapter::new().supports("md"));
}
