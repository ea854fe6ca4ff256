//! Full and incremental synchronisation.
//!
//! A full synchronisation clears the store and rebuilds it: one node for
//! every object, then the edges. A link is resolved by the stem of a file
//! name. A target that no file has is dropped; a target that several files
//! have gives an edge to each of them. Every tag gives an edge to the
//! pseudo-identity of the tag.
//!
//! An incremental synchronisation replaces the node of one file and its tag
//! edges. It does not resolve links: that needs the names of all files.
use crate::adapters::obsidian::adapter::{lemma_loaded_same_content, loaded, same_content};
use crate::adapters::obsidian::ObsidianAdapter;
use crate::adapters::{
    first_claiming, AdapterError, AdapterRegistry, ExtractedLink, ExtractedLinkView, ObjectAdapter,
};
use crate::dcom::object::{CognitiveObject, CognitiveObjectView};
use crate::paths::{extension, file_stem, file_stem_of};
use crate::seqs::{
    concat_all, lemma_concat_all_step, lemma_position, lemma_position_push, lemma_views_add,
    lemma_views_push, position, run_to, views,
};
use crate::sync::identity::{
    calculate_hash, path_identity, path_to_uuid, tag_identity, tag_to_identity, text_fingerprint,
};
use crate::sync::store::{
    edge_upserts, has_node, joins, lemma_apply_all_add, lemma_clear_forgets, lemma_edge_upserts,
    lemma_edge_upserts_at, lemma_node_upserts, lemma_node_upserts_at,
    lemma_removal_leaves_nothing, node_upserts, nodes_at, Edge, EdgeView, Node, NodeView,
    StoreAction, StoreActionView, StoreState, SyncResult, DEFAULT_WEIGHT_BITS,
};
use crate::text::str_eq;
use vstd::prelude::*;

verus! {

/// One file of a vault.
#[derive(Debug, Clone, PartialEq)]
pub struct VaultFile {
    /// Path of the file, relative to the vault.
    pub relative_path: String,
    pub content: Vec<u8>,
}

/// The identities of the files in `paths` whose stem is `stem`, in order.
pub open spec fn identities_named(paths: Seq<Seq<char>>, stem: Seq<char>) -> Seq<Seq<char>>
    decreases paths.len(),
{
    if paths.len() == 0 {
        Seq::empty()
    } else {
        let before = identities_named(paths.drop_last(), stem);
        if file_stem(paths.last()) == stem {
            before.push(path_identity(paths.last()))
        } else {
            before
        }
    }
}

/// The files of one stem.
#[derive(Debug, Clone, PartialEq)]
pub struct IndexEntry {
    pub stem: String,
    /// The identities of the files with this stem, in the order of the
    /// files.
    pub identities: Vec<String>,
}

/// From the stem of a file name to the identities of the files that have
/// it. Links name notes, not paths, and one name may stand in several
/// directories.
#[derive(Debug, Clone, PartialEq)]
pub struct FilenameIndex {
    pub entries: Vec<IndexEntry>,
}

impl FilenameIndex {
    /// The stems of the entries, in order.
    pub open spec fn stems(&self) -> Seq<Seq<char>> {
        Seq::new(self.entries@.len(), |i: int| self.entries@[i].stem@)
    }

    /// The identities under `stem`; none where the index has no such stem.
    pub open spec fn spec_get(&self, stem: Seq<char>) -> Seq<Seq<char>> {
        let at = position(self.stems(), stem);
        if at < self.entries@.len() {
            views(self.entries@[at].identities@)
        } else {
            Seq::empty()
        }
    }

    /// Whether the index has an entry for `stem`.
    pub open spec fn spec_contains_key(&self, stem: Seq<char>) -> bool {
        position(self.stems(), stem) < self.entries@.len()
    }

    /// Whether the index is that of the files in `paths`.
    pub open spec fn represents(&self, paths: Seq<Seq<char>>) -> bool {
        forall|stem: Seq<char>| #[trigger] self.spec_get(stem) == identities_named(paths, stem)
    }

    fn position_of(&self, stem: &str) -> (r: usize)
        ensures
            r == position(self.stems(), stem@),
            r <= self.entries@.len(),
    {
        let n = self.entries.len();
        let mut i: usize = 0;
        while i < n && !str_eq(self.entries[i].stem.as_str(), stem)
            invariant
                i <= n == self.entries@.len(),
                run_to(self.stems(), stem@, 0) == i + run_to(self.stems(), stem@, i as int),
            decreases n - i,
        {
            i += 1;
        }
        i
    }

    /// The identities of the files whose stem is `stem`.
    pub fn get(&self, stem: &str) -> (r: Option<&Vec<String>>)
        ensures
            match r {
                Some(identities) => self.spec_contains_key(stem@) && views(identities@)
                    == self.spec_get(stem@),
                None => !self.spec_contains_key(stem@) && self.spec_get(stem@).len() == 0,
            },
    {
        let at = self.position_of(stem);
        if at < self.entries.len() {
            Some(&self.entries[at].identities)
        } else {
            None
        }
    }

    /// Whether a file has the stem `stem`.
    pub fn contains_key(&self, stem: &str) -> (r: bool)
        ensures
            r == self.spec_contains_key(stem@),
    {
        let at = self.position_of(stem);
        at < self.entries.len()
    }

    /// Adds the file at `path` to the index.
    fn add(&mut self, path: &str, Ghost(before): Ghost<Seq<Seq<char>>>)
        requires
            old(self).represents(before),
        ensures
            final(self).represents(before.push(path@)),
    {
        let stem = file_stem_of(path);
        let uuid = path_to_uuid(path);
        let at = self.position_of(stem.as_str());
        let ghost old_stems = self.stems();
        let ghost old_index = *self;
        proof {
            lemma_position(old_stems, stem@);
            assert(before.push(path@).drop_last() == before);
        }
        if at < self.entries.len() {
            let mut entry = self.entries.remove(at);
            proof {
                lemma_views_push(entry.identities@, uuid);
            }
            entry.identities.push(uuid);
            self.entries.insert(at, entry);
            proof {
                assert(self.stems() =~= old_stems);
                assert forall|other: Seq<char>| #[trigger]
                    self.spec_get(other) == identities_named(before.push(path@), other) by {
                    assert(old_index.spec_get(other) == identities_named(before, other));
                    lemma_position(old_stems, other);
                }
            }
        } else {
            let mut identities: Vec<String> = Vec::new();
            identities.push(uuid);
            assert(views(identities@) =~= seq![uuid@]);
            let entry = IndexEntry { stem, identities };
            self.entries.push(entry);
            proof {
                assert(self.stems() =~= old_stems.push(stem@));
                assert forall|other: Seq<char>| #[trigger]
                    self.spec_get(other) == identities_named(before.push(path@), other) by {
                    assert(old_index.spec_get(other) == identities_named(before, other));
                    lemma_position(old_stems, other);
                    lemma_position_push(old_stems, stem@, other);
                    if other == stem@ {
                        assert(identities_named(before, other) =~= Seq::empty());
                        assert(Seq::<Seq<char>>::empty().push(uuid@) =~= seq![uuid@]);
                    }
                }
            }
        }
    }
}

/// The paths of loaded objects, in order.
pub open spec fn paths_of(objects: Seq<(CognitiveObjectView, Seq<char>)>) -> Seq<Seq<char>> {
    Seq::new(objects.len(), |i: int| objects[i].1)
}

/// The node of an object that was loaded from `path`, at the time `now` in
/// seconds. The title is that of the object, else the stem of the file
/// name, else `Untitled`; the type is the effective type of the object,
/// else `note`.
pub open spec fn node_of(object: CognitiveObjectView, path: Seq<char>, now: i64) -> NodeView {
    let content = match object.content() {
        Some(content) => content,
        None => Seq::empty(),
    };
    NodeView {
        uuid: path_identity(path),
        path,
        title: match object.title() {
            Some(title) => title,
            None => if file_stem(path).len() > 0 {
                file_stem(path)
            } else {
                "Untitled"@
            },
        },
        content,
        node_type: match object.object_type() {
            Some(t) => t,
            None => "note"@,
        },
        hash: text_fingerprint(content),
        created_at: now,
        updated_at: now,
    }
}

/// One `link` edge from `src` to each of `targets`.
pub open spec fn edges_to(src: Seq<char>, targets: Seq<Seq<char>>, found_by: Seq<char>) -> Seq<
    EdgeView,
> {
    Seq::new(
        targets.len(),
        |i: int|
            EdgeView {
                src_uuid: src,
                dst_uuid: targets[i],
                relation: "link"@,
                weight_bits: DEFAULT_WEIGHT_BITS,
                source: found_by,
            },
    )
}

/// The edges of `links` from `src`: each link leads to every file whose
/// stem is its target.
pub open spec fn link_edges(
    paths: Seq<Seq<char>>,
    src: Seq<char>,
    links: Seq<ExtractedLinkView>,
) -> Seq<EdgeView> {
    concat_all(
        Seq::new(
            links.len(),
            |k: int|
                edges_to(src, identities_named(paths, links[k].target), links[k].kind.spec_name()),
        ),
    )
}

/// One `tagged` edge from `src` for each of `tags`.
pub open spec fn tag_edges(src: Seq<char>, tags: Seq<Seq<char>>) -> Seq<EdgeView> {
    Seq::new(
        tags.len(),
        |i: int|
            EdgeView {
                src_uuid: src,
                dst_uuid: tag_identity(tags[i]),
                relation: "tagged"@,
                weight_bits: DEFAULT_WEIGHT_BITS,
                source: "tag"@,
            },
    )
}

/// Index of the adapter that answers for the file at `path`, if one does.
pub open spec fn adapter_for<A: ObjectAdapter>(adapters: Seq<A>, path: Seq<char>) -> Option<int> {
    match extension(path) {
        Some(ext) => {
            let at = first_claiming(adapters, ext);
            if at < adapters.len() {
                Some(at)
            } else {
                None
            }
        },
        None => None,
    }
}

/// The edges of one object among the files in `paths`: its link edges, as
/// its adapter finds the links, then its tag edges.
pub open spec fn object_edges<A: ObjectAdapter>(
    adapters: Seq<A>,
    paths: Seq<Seq<char>>,
    object: CognitiveObjectView,
    path: Seq<char>,
) -> Seq<EdgeView> {
    let src = path_identity(path);
    let links = match adapter_for(adapters, path) {
        Some(at) => link_edges(paths, src, adapters[at].links_of(object)),
        None => Seq::empty(),
    };
    links + tag_edges(src, object.tags)
}

/// The edges of all objects, object after object.
pub open spec fn all_edges<A: ObjectAdapter>(
    adapters: Seq<A>,
    objects: Seq<(CognitiveObjectView, Seq<char>)>,
) -> Seq<EdgeView> {
    concat_all(
        Seq::new(
            objects.len(),
            |i: int| object_edges(adapters, paths_of(objects), objects[i].0, objects[i].1),
        ),
    )
}

/// The nodes of all objects, in order.
pub open spec fn all_nodes(objects: Seq<(CognitiveObjectView, Seq<char>)>, now: i64) -> Seq<
    NodeView,
> {
    Seq::new(objects.len(), |i: int| node_of(objects[i].0, objects[i].1, now))
}

/// The actions of a full synchronisation: clear the store, put every node,
/// then put every edge.
pub open spec fn full_sync_actions<A: ObjectAdapter>(
    adapters: Seq<A>,
    objects: Seq<(CognitiveObjectView, Seq<char>)>,
    now: i64,
) -> Seq<StoreActionView> {
    seq![StoreActionView::ClearAll] + node_upserts(all_nodes(objects, now)) + edge_upserts(
        all_edges(adapters, objects),
    )
}

/// The actions for a file that is gone: remove its node, then every edge
/// at its identity.
pub open spec fn removal_actions(path: Seq<char>) -> Seq<StoreActionView> {
    seq![
        StoreActionView::DeleteNode(path_identity(path)),
        StoreActionView::DeleteEdgesIncidentTo(path_identity(path)),
    ]
}

/// The actions for a file that was loaded anew: put its node, remove the
/// edges at its identity, put its tag edges.
pub open spec fn update_actions(object: CognitiveObjectView, path: Seq<char>, now: i64) -> Seq<
    StoreActionView,
> {
    seq![
        StoreActionView::UpsertNode(node_of(object, path, now)),
        StoreActionView::DeleteEdgesIncidentTo(path_identity(path)),
    ] + edge_upserts(tag_edges(path_identity(path), object.tags))
}

/// Whether a file loads: an adapter answers for its path and accepts its
/// bytes.
pub open spec fn loads<A: ObjectAdapter>(adapters: Seq<A>, file: VaultFile) -> bool {
    match adapter_for(adapters, file.relative_path@) {
        Some(at) => adapters[at].accepts(file.relative_path@, file.content@),
        None => false,
    }
}

/// The files that load, in order.
pub open spec fn loadable<A: ObjectAdapter>(adapters: Seq<A>, files: Seq<VaultFile>) -> Seq<
    VaultFile,
>
    decreases files.len(),
{
    if files.len() == 0 {
        Seq::empty()
    } else if loads(adapters, files.last()) {
        loadable(adapters, files.drop_last()).push(files.last())
    } else {
        loadable(adapters, files.drop_last())
    }
}

/// Whether `object`, standing with `path`, is what the adapter for `file`
/// gives for it.
pub open spec fn is_loaded_from<A: ObjectAdapter>(
    adapters: Seq<A>,
    file: VaultFile,
    object: CognitiveObjectView,
    path: Seq<char>,
) -> bool {
    &&& path == file.relative_path@
    &&& adapter_for(adapters, path) matches Some(at) && adapters[at].produces(
        path,
        file.content@,
        object,
    )
}

/// Whether `objects` are what loading gives for `files`: one object for
/// every file that loads, in the order of the files.
pub open spec fn are_loaded_from<A: ObjectAdapter>(
    adapters: Seq<A>,
    files: Seq<VaultFile>,
    objects: Seq<(CognitiveObjectView, Seq<char>)>,
) -> bool {
    &&& objects.len() == loadable(adapters, files).len()
    &&& forall|k: int|
        0 <= k < objects.len() ==> is_loaded_from(
            adapters,
            #[trigger] loadable(adapters, files)[k],
            objects[k].0,
            objects[k].1,
        )
}

/// A full synchronisation leads to the same store, whatever the store held
/// before. So does a second full synchronisation of the same objects at
/// the same time: it changes nothing.
pub proof fn lemma_full_sync_idempotent<A: ObjectAdapter>(
    adapters: Seq<A>,
    objects: Seq<(CognitiveObjectView, Seq<char>)>,
    now: i64,
    state: StoreState,
    other: StoreState,
)
    ensures
        state.apply_all(full_sync_actions(adapters, objects, now)) == other.apply_all(
            full_sync_actions(adapters, objects, now),
        ),
        state.apply_all(full_sync_actions(adapters, objects, now)).apply_all(
            full_sync_actions(adapters, objects, now),
        ) == state.apply_all(full_sync_actions(adapters, objects, now)),
{
    let actions = full_sync_actions(adapters, objects, now);
    lemma_clear_forgets(state, other, actions);
    lemma_clear_forgets(state.apply_all(actions), state, actions);
}

/// Two objects that hold the same give the same node at the same time, and
/// the same edges with the Obsidian adapter.
pub proof fn lemma_same_content_same_projection(
    paths: Seq<Seq<char>>,
    a: CognitiveObjectView,
    b: CognitiveObjectView,
    path: Seq<char>,
    now: i64,
)
    requires
        same_content(a, b),
    ensures
        node_of(a, path, now) == node_of(b, path, now),
        object_edges(seq![ObsidianAdapter], paths, a, path) == object_edges(
            seq![ObsidianAdapter],
            paths,
            b,
            path,
        ),
{
}

/// A full synchronisation does not depend on the moment at which the files
/// were loaded. Two loadings of the same files with the Obsidian adapter
/// give the same edges, and the same nodes for the same time `now`: so a
/// second full synchronisation of an unchanged vault writes what the first
/// wrote, but for the times of the nodes where `now` has moved on.
pub proof fn lemma_full_sync_repeats(
    files: Seq<VaultFile>,
    first: Seq<(CognitiveObjectView, Seq<char>)>,
    second: Seq<(CognitiveObjectView, Seq<char>)>,
    now: i64,
)
    requires
        are_loaded_from(seq![ObsidianAdapter], files, first),
        are_loaded_from(seq![ObsidianAdapter], files, second),
    ensures
        first.len() == second.len(),
        paths_of(first) == paths_of(second),
        all_edges(seq![ObsidianAdapter], first) == all_edges(seq![ObsidianAdapter], second),
        all_nodes(first, now) == all_nodes(second, now),
        full_sync_actions(seq![ObsidianAdapter], first, now) == full_sync_actions(
            seq![ObsidianAdapter],
            second,
            now,
        ),
{
    let adapters = seq![ObsidianAdapter];
    let from = loadable(adapters, files);
    assert forall|k: int| 0 <= k < first.len() implies first[k].1 == second[k].1 && same_content(
        first[k].0,
        second[k].0,
    ) by {
        assert(is_loaded_from(adapters, from[k], first[k].0, first[k].1));
        assert(is_loaded_from(adapters, from[k], second[k].0, second[k].1));
        let a = first[k].0;
        let b = second[k].0;
        lemma_loaded_same_content(
            first[k].1,
            from[k].content@,
            a.id,
            a.created_at,
            crate::adapters::obsidian::adapter::last_modified_of(a),
            b.id,
            b.created_at,
            crate::adapters::obsidian::adapter::last_modified_of(b),
        );
    }
    assert(paths_of(first) =~= paths_of(second));
    let paths = paths_of(first);
    assert forall|k: int| 0 <= k < first.len() implies node_of(first[k].0, first[k].1, now)
        == node_of(second[k].0, second[k].1, now) && object_edges(
        adapters,
        paths,
        first[k].0,
        first[k].1,
    ) == object_edges(adapters, paths, second[k].0, second[k].1) by {
        lemma_same_content_same_projection(paths, first[k].0, second[k].0, first[k].1, now);
    }
    assert(all_nodes(first, now) =~= all_nodes(second, now));
    assert(Seq::new(
        first.len(),
        |i: int| object_edges(adapters, paths_of(first), first[i].0, first[i].1),
    ) =~= Seq::new(
        second.len(),
        |i: int| object_edges(adapters, paths_of(second), second[i].0, second[i].1),
    ));
}

/// Whether `actions` are those of a full synchronisation of `files` at the
/// time `now`: those for some objects that loading gives for the files.
pub open spec fn plans_full_sync<A: ObjectAdapter>(
    adapters: Seq<A>,
    files: Seq<VaultFile>,
    now: i64,
    actions: Seq<StoreActionView>,
) -> bool {
    exists|objects: Seq<(CognitiveObjectView, Seq<char>)>|
        are_loaded_from(adapters, files, objects) && #[trigger] full_sync_actions(
            adapters,
            objects,
            now,
        ) == actions
}

/// Full synchronisation is determined by the files and the time. Two full
/// synchronisations of the same files at the same time with the Obsidian
/// adapter ask for the same actions, and lead to the same store whatever
/// the store held before each of them: the second changes nothing.
pub proof fn lemma_full_sync_is_determined(
    files: Seq<VaultFile>,
    now: i64,
    first: Seq<StoreActionView>,
    second: Seq<StoreActionView>,
    state: StoreState,
)
    requires
        plans_full_sync(seq![ObsidianAdapter], files, now, first),
        plans_full_sync(seq![ObsidianAdapter], files, now, second),
    ensures
        first == second,
        state.apply_all(first).apply_all(second) == state.apply_all(first),
{
    let adapters = seq![ObsidianAdapter];
    let a = choose|objects: Seq<(CognitiveObjectView, Seq<char>)>|
        are_loaded_from(adapters, files, objects) && #[trigger] full_sync_actions(
            adapters,
            objects,
            now,
        ) == first;
    let b = choose|objects: Seq<(CognitiveObjectView, Seq<char>)>|
        are_loaded_from(adapters, files, objects) && #[trigger] full_sync_actions(
            adapters,
            objects,
            now,
        ) == second;
    lemma_full_sync_repeats(files, a, b, now);
    lemma_full_sync_idempotent(adapters, a, now, state, state);
}

/// A second full synchronisation of an unchanged vault, at whatever time
/// and whatever the store held before it, leaves the store that the first
/// one left, but for the times of the nodes, which are those of the second
/// run: the same identities, under each the same path, title, content, type
/// and hash, and the same edges.
pub proof fn lemma_full_sync_at_another_time(
    files: Seq<VaultFile>,
    first_time: i64,
    second_time: i64,
    first: Seq<StoreActionView>,
    second: Seq<StoreActionView>,
    state: StoreState,
    other: StoreState,
)
    requires
        plans_full_sync(seq![ObsidianAdapter], files, first_time, first),
        plans_full_sync(seq![ObsidianAdapter], files, second_time, second),
    ensures
        other.apply_all(second) == state.apply_all(first).at(second_time),
{
    let adapters = seq![ObsidianAdapter];
    let a = choose|objects: Seq<(CognitiveObjectView, Seq<char>)>|
        are_loaded_from(adapters, files, objects) && #[trigger] full_sync_actions(
            adapters,
            objects,
            first_time,
        ) == first;
    let b = choose|objects: Seq<(CognitiveObjectView, Seq<char>)>|
        are_loaded_from(adapters, files, objects) && #[trigger] full_sync_actions(
            adapters,
            objects,
            second_time,
        ) == second;
    lemma_full_sync_repeats(files, a, b, second_time);
    let clear = seq![StoreActionView::ClearAll];
    let nodes = all_nodes(a, first_time);
    let later = all_nodes(a, second_time);
    let edges = all_edges(adapters, a);
    assert(later =~= nodes_at(nodes, second_time));
    assert(clear.drop_last() =~= Seq::empty());
    assert(state.apply_all(clear) == StoreState::empty() && other.apply_all(clear)
        == StoreState::empty()) by {
        reveal_with_fuel(StoreState::apply_all, 2);
    }
    let empty = StoreState::empty();
    assert(empty.at(second_time).nodes =~= empty.nodes);
    lemma_apply_all_add(state, clear + node_upserts(nodes), edge_upserts(edges));
    lemma_apply_all_add(state, clear, node_upserts(nodes));
    lemma_apply_all_add(other, clear + node_upserts(later), edge_upserts(edges));
    lemma_apply_all_add(other, clear, node_upserts(later));
    lemma_node_upserts_at(empty, nodes, second_time);
    lemma_edge_upserts_at(empty.apply_all(node_upserts(nodes)), edges, second_time);
}

/// After a full synchronisation the store holds a node for exactly the
/// identities of the objects, and an edge between exactly the pairs of
/// identities that an edge of the objects joins.
pub proof fn lemma_full_sync_result<A: ObjectAdapter>(
    adapters: Seq<A>,
    objects: Seq<(CognitiveObjectView, Seq<char>)>,
    now: i64,
    state: StoreState,
)
    ensures
        forall|uuid: Seq<char>| #[trigger]
            state.apply_all(full_sync_actions(adapters, objects, now)).nodes.contains_key(uuid)
                <==> has_node(all_nodes(objects, now), uuid),
        forall|src: Seq<char>, dst: Seq<char>| #[trigger]
            state.apply_all(full_sync_actions(adapters, objects, now)).edges.contains_key(
                (src, dst),
            ) <==> joins(all_edges(adapters, objects), src, dst),
{
    let clear = seq![StoreActionView::ClearAll];
    let nodes = node_upserts(all_nodes(objects, now));
    let edges = edge_upserts(all_edges(adapters, objects));
    lemma_apply_all_add(state, clear + nodes, edges);
    lemma_apply_all_add(state, clear, nodes);
    assert(clear.drop_last() =~= Seq::empty());
    assert(state.apply_all(clear) == StoreState::empty()) by {
        reveal_with_fuel(StoreState::apply_all, 2);
    }
    lemma_node_upserts(StoreState::empty(), all_nodes(objects, now));
    lemma_edge_upserts(StoreState::empty().apply_all(nodes), all_edges(adapters, objects));
}

/// After the synchronisation of a file that was loaded anew, the store
/// holds the node of the file under its identity and every other node as
/// before; and an edge joins two identities exactly where it did before and
/// touches the file at neither end, or where it is a tag edge of the file.
pub proof fn lemma_file_update_result(
    state: StoreState,
    object: CognitiveObjectView,
    path: Seq<char>,
    now: i64,
)
    ensures
        state.apply_all(update_actions(object, path, now)).nodes == state.nodes.insert(
            path_identity(path),
            node_of(object, path, now),
        ),
        forall|src: Seq<char>, dst: Seq<char>| #[trigger]
            state.apply_all(update_actions(object, path, now)).edges.contains_key((src, dst)) <==> (
            state.edges.contains_key((src, dst)) && src != path_identity(path) && dst
                != path_identity(path)) || joins(
                tag_edges(path_identity(path), object.tags),
                src,
                dst,
            ),
{
    let uuid = path_identity(path);
    let put = StoreActionView::UpsertNode(node_of(object, path, now));
    let cut = StoreActionView::DeleteEdgesIncidentTo(uuid);
    let head = seq![put, cut];
    let tags = tag_edges(uuid, object.tags);
    lemma_apply_all_add(state, head, edge_upserts(tags));
    assert(head.drop_last() =~= seq![put]);
    assert(head.drop_last().drop_last() =~= Seq::empty());
    assert(state.apply_all(head) == state.apply(put).apply(cut)) by {
        reveal_with_fuel(StoreState::apply_all, 3);
    }
    lemma_edge_upserts(state.apply(put).apply(cut), tags);
}

/// After the synchronisation of a file that is gone, the store holds no
/// node with the identity of the file and no edge that starts or ends
/// there.
pub proof fn lemma_removed_file_leaves_nothing(state: StoreState, path: Seq<char>)
    ensures
        !state.apply_all(removal_actions(path)).nodes.contains_key(path_identity(path)),
        !state.apply_all(removal_actions(path)).touches(path_identity(path)),
{
    let actions = removal_actions(path);
    let uuid = path_identity(path);
    lemma_removal_leaves_nothing(state, uuid);
    assert(actions.drop_last() =~= seq![StoreActionView::DeleteNode(uuid)]);
    assert(actions.drop_last().drop_last() =~= Seq::empty());
    assert(state.apply_all(actions.drop_last()) == state.apply(StoreActionView::DeleteNode(uuid)))
        by {
        reveal_with_fuel(StoreState::apply_all, 2);
    }
}

/// One `link` edge from `src` to each of `targets`.
fn edges_to_targets(src: &str, targets: &Vec<String>, found_by: &str) -> (r: Vec<Edge>)
    ensures
        views(r@) == edges_to(src@, views(targets@), found_by@),
{
    let mut out: Vec<Edge> = Vec::new();
    let mut i: usize = 0;
    while i < targets.len()
        invariant
            i <= targets@.len(),
            out@.len() == i,
            forall|k: int|
                0 <= k < i ==> (#[trigger] out@[k])@ == edges_to(
                    src@,
                    views(targets@),
                    found_by@,
                )[k],
        decreases targets@.len() - i,
    {
        out.push(
            Edge {
                src_uuid: src.to_owned(),
                dst_uuid: targets[i].clone(),
                relation: "link".to_owned(),
                weight_bits: DEFAULT_WEIGHT_BITS,
                source: found_by.to_owned(),
            },
        );
        i += 1;
    }
    assert(views(out@) =~= edges_to(src@, views(targets@), found_by@));
    out
}

/// The edges of `links` from `src`, resolved by `index`.
fn link_edges_of(
    index: &FilenameIndex,
    Ghost(paths): Ghost<Seq<Seq<char>>>,
    src: &str,
    links: &Vec<ExtractedLink>,
) -> (r: Vec<Edge>)
    requires
        index.represents(paths),
    ensures
        views(r@) == link_edges(paths, src@, views(links@)),
{
    let ghost all = views(links@);
    let ghost parts = Seq::new(
        all.len(),
        |k: int| edges_to(src@, identities_named(paths, all[k].target), all[k].kind.spec_name()),
    );
    let mut out: Vec<Edge> = Vec::new();
    let mut k: usize = 0;
    assert(views(out@) =~= concat_all(parts.take(0)));
    while k < links.len()
        invariant
            k <= links@.len(),
            index.represents(paths),
            all == views(links@),
            parts == Seq::new(
                all.len(),
                |k: int|
                    edges_to(
                        src@,
                        identities_named(paths, all[k].target),
                        all[k].kind.spec_name(),
                    ),
            ),
            views(out@) == concat_all(parts.take(k as int)),
        decreases links@.len() - k,
    {
        proof {
            lemma_concat_all_step(parts, k as int);
            assert(all[k as int] == links@[k as int]@);
            assert(index.spec_get(links@[k as int].target@) == identities_named(
                paths,
                links@[k as int].target@,
            ));
        }
        match index.get(links[k].target.as_str()) {
            Some(targets) => {
                let mut edges = edges_to_targets(src, targets, links[k].kind.name());
                proof {
                    lemma_views_add(out@, edges@);
                }
                out.append(&mut edges);
            },
            None => {
                assert(parts[k as int] =~= Seq::empty());
                assert(views(out@) + Seq::<EdgeView>::empty() =~= views(out@));
            },
        }
        k += 1;
    }
    assert(parts.take(links@.len() as int) == parts);
    out
}

/// One `tagged` edge from `src` for each of `tags`.
fn tag_edges_of(src: &str, tags: &Vec<String>) -> (r: Vec<Edge>)
    ensures
        views(r@) == tag_edges(src@, views(tags@)),
{
    let mut out: Vec<Edge> = Vec::new();
    let mut i: usize = 0;
    while i < tags.len()
        invariant
            i <= tags@.len(),
            out@.len() == i,
            forall|k: int|
                0 <= k < i ==> (#[trigger] out@[k])@ == tag_edges(src@, views(tags@))[k],
        decreases tags@.len() - i,
    {
        out.push(
            Edge {
                src_uuid: src.to_owned(),
                dst_uuid: tag_to_identity(tags[i].as_str()),
                relation: "tagged".to_owned(),
                weight_bits: DEFAULT_WEIGHT_BITS,
                source: "tag".to_owned(),
            },
        );
        i += 1;
    }
    assert(views(out@) =~= tag_edges(src@, views(tags@)));
    out
}

/// What the synchronisation of one file asks of the store.
#[derive(Debug, Clone, PartialEq)]
pub struct FileSync {
    /// Whether the file concerns the store: it is gone, or an adapter
    /// loaded it.
    pub handled: bool,
    /// The actions to perform, in order.
    pub actions: Vec<StoreAction>,
}

/// Decides what a synchronisation writes.
pub struct VaultSyncer<A: ObjectAdapter> {
    pub registry: AdapterRegistry<A>,
}

impl VaultSyncer<ObsidianAdapter> {
    /// A synchroniser with the adapters of the default registry.
    pub fn with_defaults() -> (r: Self)
        ensures
            r.registry.adapters@ == seq![ObsidianAdapter],
    {
        VaultSyncer { registry: AdapterRegistry::default() }
    }
}

impl<A: ObjectAdapter> VaultSyncer<A> {
    /// A synchroniser with the adapters of `registry`.
    pub fn new(registry: AdapterRegistry<A>) -> (r: Self)
        ensures
            r.registry == registry,
    {
        VaultSyncer { registry }
    }

    /// Whether an adapter answers for the file at `path`.
    pub fn supports_path(&self, path: &str) -> (r: bool)
        ensures
            r == adapter_for(self.registry.adapters@, path@) is Some,
    {
        self.registry.find_index_for_path(path).is_some()
    }

    /// Loads the files for which an adapter answers. A file that does not
    /// load is left out. The result keeps the order of the files, and every
    /// object stands with the path of its file.
    pub fn collect_objects(&self, files: &Vec<VaultFile>) -> (r: Vec<(CognitiveObject, String)>)
        ensures
            are_loaded_from(self.registry.adapters@, files@, views(r@)),
    {
        let ghost adapters = self.registry.adapters@;
        let mut out: Vec<(CognitiveObject, String)> = Vec::new();
        let mut i: usize = 0;
        assert(files@.take(0) =~= Seq::empty());
        while i < files.len()
            invariant
                i <= files@.len(),
                adapters == self.registry.adapters@,
                are_loaded_from(adapters, files@.take(i as int), views(out@)),
            decreases files@.len() - i,
        {
            let ghost seen = files@.take(i as int);
            let ghost next = files@.take(i + 1);
            let ghost before = views(out@);
            proof {
                assert(next.drop_last() == seen);
                assert(next.last() == files@[i as int]);
            }
            let path = files[i].relative_path.as_str();
            match self.registry.find_index_for_path(path) {
                Some(at) => {
                    match self.registry.adapters[at].load(path, files[i].content.as_slice()) {
                        Ok(object) => {
                            let entry = (object, files[i].relative_path.clone());
                            proof {
                                lemma_views_push(out@, entry);
                                let after = before.push(entry@);
                                assert forall|k: int| 0 <= k < after.len() implies is_loaded_from(
                                    adapters,
                                    #[trigger] loadable(adapters, next)[k],
                                    after[k].0,
                                    after[k].1,
                                ) by {
                                    if k < before.len() {
                                        assert(loadable(adapters, next)[k] == loadable(
                                            adapters,
                                            seen,
                                        )[k]);
                                        assert(after[k] == before[k]);
                                    }
                                }
                            }
                            out.push(entry);
                        },
                        Err(_) => {},
                    }
                },
                None => {},
            }
            i += 1;
        }
        assert(files@.take(files@.len() as int) == files@);
        out
    }

    /// The index from file stems to identities for `objects`.
    pub fn build_filename_index(&self, objects: &Vec<(CognitiveObject, String)>) -> (r:
        FilenameIndex)
        ensures
            r.represents(paths_of(views(objects@))),
    {
        let ghost paths = paths_of(views(objects@));
        let mut index = FilenameIndex { entries: Vec::new() };
        let mut i: usize = 0;
        proof {
            assert(paths.take(0) =~= Seq::empty());
            assert forall|stem: Seq<char>| #[trigger]
                index.spec_get(stem) == identities_named(paths.take(0), stem) by {
                lemma_position(index.stems(), stem);
            }
        }
        while i < objects.len()
            invariant
                i <= objects@.len(),
                paths == paths_of(views(objects@)),
                index.represents(paths.take(i as int)),
            decreases objects@.len() - i,
        {
            proof {
                assert(paths.take(i as int).push(objects@[i as int].1@) =~= paths.take(i + 1));
            }
            index.add(objects[i].1.as_str(), Ghost(paths.take(i as int)));
            i += 1;
        }
        assert(paths.take(objects@.len() as int) == paths);
        index
    }

    /// The node of `object`, loaded from `relative_path`, at the time
    /// `now` in seconds.
    pub fn object_to_node(&self, object: &CognitiveObject, relative_path: &str, now: i64) -> (r:
        Node)
        ensures
            r@ == node_of(object@, relative_path@, now),
    {
        let title = match object.title() {
            Some(title) => title.to_owned(),
            None => {
                let stem = file_stem_of(relative_path);
                if stem.as_str().unicode_len() > 0 {
                    stem
                } else {
                    "Untitled".to_owned()
                }
            },
        };
        let content = match object.content() {
            Some(content) => content.to_owned(),
            None => String::new(),
        };
        let node_type = match object.object_type() {
            Some(t) => t.to_owned(),
            None => "note".to_owned(),
        };
        let hash = calculate_hash(content.as_str());
        Node {
            uuid: path_to_uuid(relative_path),
            path: relative_path.to_owned(),
            title,
            content,
            node_type,
            hash,
            created_at: now,
            updated_at: now,
        }
    }

    /// The edges of one object.
    fn object_edges_of(
        &self,
        index: &FilenameIndex,
        Ghost(paths): Ghost<Seq<Seq<char>>>,
        object: &CognitiveObject,
        path: &str,
    ) -> (r: Vec<Edge>)
        requires
            index.represents(paths),
        ensures
            views(r@) == object_edges(self.registry.adapters@, paths, object@, path@),
    {
        let src = path_to_uuid(path);
        let mut out: Vec<Edge> = Vec::new();
        assert(views(out@) =~= Seq::empty());
        match self.registry.find_index_for_path(path) {
            Some(at) => {
                let links = self.registry.adapters[at].extract_links(object);
                let mut edges = link_edges_of(index, Ghost(paths), src.as_str(), &links);
                proof {
                    lemma_views_add(out@, edges@);
                }
                out.append(&mut edges);
            },
            None => {},
        }
        let mut edges = tag_edges_of(src.as_str(), object.tags());
        proof {
            lemma_views_add(out@, edges@);
        }
        out.append(&mut edges);
        out
    }

    /// The actions of a full synchronisation of `objects`, each loaded from
    /// the path it stands with, at the time `now` in seconds; and the
    /// counts of the nodes and edges that the actions put.
    pub fn plan_full_sync(&self, objects: &Vec<(CognitiveObject, String)>, now: i64) -> (r: (
        Vec<StoreAction>,
        SyncResult,
    ))
        ensures
            views(r.0@) == full_sync_actions(self.registry.adapters@, views(objects@), now),
            r.1.nodes_synced == objects@.len(),
            r.1.edges_created == all_edges(self.registry.adapters@, views(objects@)).len(),
    {
        let ghost all = views(objects@);
        let ghost paths = paths_of(all);
        let ghost nodes = all_nodes(all, now);
        let index = self.build_filename_index(objects);
        let mut actions: Vec<StoreAction> = Vec::new();
        actions.push(StoreAction::ClearAll);
        assert(views(actions@) =~= seq![StoreActionView::ClearAll]);
        let mut i: usize = 0;
        while i < objects.len()
            invariant
                i <= objects@.len(),
                all == views(objects@),
                nodes == all_nodes(all, now),
                views(actions@) == seq![StoreActionView::ClearAll] + Seq::new(
                    i as nat,
                    |k: int| StoreActionView::UpsertNode(nodes[k]),
                ),
            decreases objects@.len() - i,
        {
            let node = self.object_to_node(&objects[i].0, objects[i].1.as_str(), now);
            let action = StoreAction::UpsertNode(node);
            proof {
                lemma_views_push(actions@, action);
                assert(all[i as int] == objects@[i as int]@);
                assert((seq![StoreActionView::ClearAll] + Seq::new(
                    i as nat,
                    |k: int| StoreActionView::UpsertNode(nodes[k]),
                )).push(action@) =~= seq![StoreActionView::ClearAll] + Seq::new(
                    (i + 1) as nat,
                    |k: int| StoreActionView::UpsertNode(nodes[k]),
                ));
            }
            actions.push(action);
            i += 1;
        }
        let ghost parts = Seq::new(
            all.len(),
            |i: int| object_edges(self.registry.adapters@, paths, all[i].0, all[i].1),
        );
        let ghost head = views(actions@);
        let mut edges: Vec<Edge> = Vec::new();
        let mut j: usize = 0;
        assert(views(edges@) =~= concat_all(parts.take(0)));
        while j < objects.len()
            invariant
                j <= objects@.len(),
                all == views(objects@),
                paths == paths_of(all),
                index.represents(paths),
                parts == Seq::new(
                    all.len(),
                    |i: int| object_edges(self.registry.adapters@, paths, all[i].0, all[i].1),
                ),
                views(edges@) == concat_all(parts.take(j as int)),
            decreases objects@.len() - j,
        {
            let mut found = self.object_edges_of(
                &index,
                Ghost(paths),
                &objects[j].0,
                objects[j].1.as_str(),
            );
            proof {
                assert(all[j as int] == objects@[j as int]@);
                lemma_concat_all_step(parts, j as int);
                lemma_views_add(edges@, found@);
            }
            edges.append(&mut found);
            j += 1;
        }
        assert(parts.take(objects@.len() as int) == parts);
        let count = edges.len();
        let ghost edge_views = views(edges@);
        let mut k: usize = 0;
        while k < edges.len()
            invariant
                k <= edges@.len(),
                edge_views == views(edges@),
                views(actions@) == head + Seq::new(
                    k as nat,
                    |j: int| StoreActionView::UpsertEdge(edge_views[j]),
                ),
            decreases edges@.len() - k,
        {
            let action = StoreAction::UpsertEdge(edges[k].clone());
            proof {
                lemma_views_push(actions@, action);
                assert(action@ == StoreActionView::UpsertEdge(edge_views[k as int]));
                assert((head + Seq::new(
                    k as nat,
                    |j: int| StoreActionView::UpsertEdge(edge_views[j]),
                )).push(action@) =~= head + Seq::new(
                    (k + 1) as nat,
                    |j: int| StoreActionView::UpsertEdge(edge_views[j]),
                ));
            }
            actions.push(action);
            k += 1;
        }
        (actions, SyncResult { nodes_synced: objects.len(), edges_created: count })
    }

    /// A full synchronisation of the vault that holds `files`, at the time
    /// `now` in seconds: the actions for the objects that load, and their
    /// counts.
    pub fn sync_full(&self, files: &Vec<VaultFile>, now: i64) -> (r: (
        Vec<StoreAction>,
        SyncResult,
    ))
        ensures
            exists|objects: Seq<(CognitiveObjectView, Seq<char>)>|
                {
                    &&& are_loaded_from(self.registry.adapters@, files@, objects)
                    &&& #[trigger] full_sync_actions(self.registry.adapters@, objects, now)
                        == views(r.0@)
                    &&& r.1.nodes_synced == objects.len()
                    &&& r.1.edges_created == all_edges(self.registry.adapters@, objects).len()
                },
            plans_full_sync(self.registry.adapters@, files@, now, views(r.0@)),
    {
        let objects = self.collect_objects(files);
        let planned = self.plan_full_sync(&objects, now);
        assert(full_sync_actions(self.registry.adapters@, views(objects@), now) == views(
            planned.0@,
        ));
        planned
    }

    /// The actions for the file at `relative_path` that is gone.
    pub fn plan_file_removal(&self, relative_path: &str) -> (r: Vec<StoreAction>)
        ensures
            views(r@) == removal_actions(relative_path@),
    {
        let uuid = path_to_uuid(relative_path);
        let mut actions: Vec<StoreAction> = Vec::new();
        actions.push(StoreAction::DeleteNode(uuid.clone()));
        actions.push(StoreAction::DeleteEdgesIncidentTo(uuid));
        assert(views(actions@) =~= removal_actions(relative_path@));
        actions
    }

    /// The actions for `object`, loaded anew from `relative_path`, at the
    /// time `now` in seconds.
    pub fn plan_file_update(&self, object: &CognitiveObject, relative_path: &str, now: i64) -> (r:
        Vec<StoreAction>)
        ensures
            views(r@) == update_actions(object@, relative_path@, now),
    {
        let uuid = path_to_uuid(relative_path);
        let node = self.object_to_node(object, relative_path, now);
        let mut actions: Vec<StoreAction> = Vec::new();
        actions.push(StoreAction::UpsertNode(node));
        actions.push(StoreAction::DeleteEdgesIncidentTo(uuid.clone()));
        let edges = tag_edges_of(uuid.as_str(), object.tags());
        let ghost head = views(actions@);
        let ghost edge_views = views(edges@);
        assert(head =~= seq![
            StoreActionView::UpsertNode(node_of(object@, relative_path@, now)),
            StoreActionView::DeleteEdgesIncidentTo(path_identity(relative_path@)),
        ]);
        let mut k: usize = 0;
        assert(views(actions@) =~= head + Seq::new(
            0,
            |j: int| StoreActionView::UpsertEdge(edge_views[j]),
        ));
        while k < edges.len()
            invariant
                k <= edges@.len(),
                edge_views == views(edges@),
                views(actions@) == head + Seq::new(
                    k as nat,
                    |j: int| StoreActionView::UpsertEdge(edge_views[j]),
                ),
            decreases edges@.len() - k,
        {
            let action = StoreAction::UpsertEdge(edges[k].clone());
            proof {
                lemma_views_push(actions@, action);
                assert(action@ == StoreActionView::UpsertEdge(edge_views[k as int]));
                assert((head + Seq::new(
                    k as nat,
                    |j: int| StoreActionView::UpsertEdge(edge_views[j]),
                )).push(action@) =~= head + Seq::new(
                    (k + 1) as nat,
                    |j: int| StoreActionView::UpsertEdge(edge_views[j]),
                ));
            }
            actions.push(action);
            k += 1;
        }
        actions
    }

    /// The synchronisation of the one file at `relative_path`, at the time
    /// `now` in seconds. `content` holds the bytes of the file, or nothing
    /// where the file is gone.
    ///
    /// A file that is gone is removed from the store. A file for which no
    /// adapter answers is not handled and asks for nothing. A file that
    /// loads is written anew; one that does not load is an error.
    pub fn sync_file(&self, relative_path: &str, content: Option<&[u8]>, now: i64) -> (r: Result<
        FileSync,
        AdapterError,
    >)
        ensures
            match content {
                None => r matches Ok(sync) && sync.handled && views(sync.actions@)
                    == removal_actions(relative_path@),
                Some(bytes) => match adapter_for(self.registry.adapters@, relative_path@) {
                    None => r matches Ok(sync) && !sync.handled && sync.actions@.len() == 0,
                    Some(at) => {
                        let adapter = self.registry.adapters@[at];
                        &&& r is Ok <==> adapter.accepts(relative_path@, bytes@)
                        &&& r matches Ok(sync) ==> sync.handled && exists|
                            object: CognitiveObjectView,
                        |
                            adapter.produces(relative_path@, bytes@, object)
                                && #[trigger] update_actions(object, relative_path@, now) == views(
                                sync.actions@,
                            )
                    },
                },
            },
    {
        let bytes = match content {
            Some(bytes) => bytes,
            None => {
                return Ok(
                    FileSync { handled: true, actions: self.plan_file_removal(relative_path) },
                );
            },
        };
        let at = match self.registry.find_index_for_path(relative_path) {
            Some(at) => at,
            None => {
                return Ok(FileSync { handled: false, actions: Vec::new() });
            },
        };
        match self.registry.adapters[at].load(relative_path, bytes) {
            Ok(object) => Ok(
                FileSync {
                    handled: true,
                    actions: self.plan_file_update(&object, relative_path, now),
                },
            ),
            Err(e) => Err(e),
        }
    }
}

impl Default for VaultSyncer<ObsidianAdapter> {
    fn default() -> (r: Self)
        ensures
            r.registry.adapters@ == seq![ObsidianAdapter],
    {
        VaultSyncer::with_defaults()
    }
}

/// A full synchronisation with the default adapters; see
/// [`VaultSyncer::sync_full`].
pub fn sync_vault(files: &Vec<VaultFile>, now: i64) -> (r: Vec<StoreAction>)
    ensures
        plans_full_sync(seq![ObsidianAdapter], files@, now, views(r@)),
{
    let syncer = VaultSyncer::with_defaults();
    let (actions, _result) = syncer.sync_full(files, now);
    actions
}

} // verus!
