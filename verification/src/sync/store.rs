//! The storage projection: nodes and edges, the actions that change them,
//! and what each action does to a store.
//!
//! The projection is a query-optimised view of the object graph. It is
//! rebuilt from the objects and never edited by hand. A node is keyed by
//! its identity, an edge by the pair of its source and its destination: to
//! put a node or an edge under a key that is taken replaces what was there.
use vstd::prelude::*;

verus! {

/// The weight of an edge where nothing else is known: `1.0`, as the bits
/// of a 64-bit floating-point number.
pub const DEFAULT_WEIGHT_BITS: u64 = 0x3FF0_0000_0000_0000;

/// The projection of one object.
#[derive(Debug, PartialEq)]
pub struct Node {
    pub uuid: String,
    /// Path of the file, relative to the vault.
    pub path: String,
    pub title: String,
    pub content: String,
    pub node_type: String,
    /// Fingerprint of the content.
    pub hash: String,
    /// Time of creation, in seconds since the Unix epoch.
    pub created_at: i64,
    /// Time of the last change, in seconds since the Unix epoch.
    pub updated_at: i64,
}

/// The mathematical value of a [`Node`].
pub struct NodeView {
    pub uuid: Seq<char>,
    pub path: Seq<char>,
    pub title: Seq<char>,
    pub content: Seq<char>,
    pub node_type: Seq<char>,
    pub hash: Seq<char>,
    pub created_at: i64,
    pub updated_at: i64,
}

impl View for Node {
    type V = NodeView;

    open spec fn view(&self) -> NodeView {
        NodeView {
            uuid: self.uuid@,
            path: self.path@,
            title: self.title@,
            content: self.content@,
            node_type: self.node_type@,
            hash: self.hash@,
            created_at: self.created_at,
            updated_at: self.updated_at,
        }
    }
}

/// A relation between two identities.
#[derive(Debug, PartialEq)]
pub struct Edge {
    pub src_uuid: String,
    pub dst_uuid: String,
    /// `link` or `tagged`.
    pub relation: String,
    /// The weight, as the bits of a 64-bit floating-point number.
    pub weight_bits: u64,
    /// What found the relation.
    pub source: String,
}

/// The mathematical value of an [`Edge`].
pub struct EdgeView {
    pub src_uuid: Seq<char>,
    pub dst_uuid: Seq<char>,
    pub relation: Seq<char>,
    pub weight_bits: u64,
    pub source: Seq<char>,
}

impl View for Edge {
    type V = EdgeView;

    open spec fn view(&self) -> EdgeView {
        EdgeView {
            src_uuid: self.src_uuid@,
            dst_uuid: self.dst_uuid@,
            relation: self.relation@,
            weight_bits: self.weight_bits,
            source: self.source@,
        }
    }
}

impl Clone for Edge {
    fn clone(&self) -> (r: Self)
        ensures
            r@ == self@,
    {
        Edge {
            src_uuid: self.src_uuid.clone(),
            dst_uuid: self.dst_uuid.clone(),
            relation: self.relation.clone(),
            weight_bits: self.weight_bits,
            source: self.source.clone(),
        }
    }
}

impl Clone for Node {
    fn clone(&self) -> (r: Self)
        ensures
            r@ == self@,
    {
        Node {
            uuid: self.uuid.clone(),
            path: self.path.clone(),
            title: self.title.clone(),
            content: self.content.clone(),
            node_type: self.node_type.clone(),
            hash: self.hash.clone(),
            created_at: self.created_at,
            updated_at: self.updated_at,
        }
    }
}

/// Counts of what one synchronisation wrote.
#[derive(Debug, Clone, Copy, PartialEq, Eq, Structural)]
pub struct SyncResult {
    pub nodes_synced: usize,
    pub edges_created: usize,
}

/// One call of the storage interface.
#[derive(Debug, Clone, PartialEq)]
pub enum StoreAction {
    /// Remove every node and every edge.
    ClearAll,
    /// Put a node under its identity.
    UpsertNode(Node),
    /// Put an edge under the pair of its source and destination.
    UpsertEdge(Edge),
    /// Remove the node with this identity.
    DeleteNode(String),
    /// Remove every edge whose source or destination is this identity.
    DeleteEdgesIncidentTo(String),
}

/// The mathematical value of a [`StoreAction`].
pub enum StoreActionView {
    ClearAll,
    UpsertNode(NodeView),
    UpsertEdge(EdgeView),
    DeleteNode(Seq<char>),
    DeleteEdgesIncidentTo(Seq<char>),
}

impl View for StoreAction {
    type V = StoreActionView;

    open spec fn view(&self) -> StoreActionView {
        match self {
            StoreAction::ClearAll => StoreActionView::ClearAll,
            StoreAction::UpsertNode(node) => StoreActionView::UpsertNode(node@),
            StoreAction::UpsertEdge(edge) => StoreActionView::UpsertEdge(edge@),
            StoreAction::DeleteNode(uuid) => StoreActionView::DeleteNode(uuid@),
            StoreAction::DeleteEdgesIncidentTo(uuid) => StoreActionView::DeleteEdgesIncidentTo(
                uuid@,
            ),
        }
    }
}

/// What a store holds: nodes by identity, edges by source and destination.
#[verifier::ext_equal]
pub struct StoreState {
    pub nodes: Map<Seq<char>, NodeView>,
    pub edges: Map<(Seq<char>, Seq<char>), EdgeView>,
}

impl StoreState {
    /// The store that holds nothing.
    pub open spec fn empty() -> StoreState {
        StoreState { nodes: Map::empty(), edges: Map::empty() }
    }

    /// Whether an edge of the store starts or ends at `uuid`.
    pub open spec fn touches(self, uuid: Seq<char>) -> bool {
        exists|src: Seq<char>, dst: Seq<char>| #[trigger]
            self.edges.contains_key((src, dst)) && (src == uuid || dst == uuid)
    }

    /// The store after one action.
    pub open spec fn apply(self, action: StoreActionView) -> StoreState {
        match action {
            StoreActionView::ClearAll => StoreState::empty(),
            StoreActionView::UpsertNode(node) => StoreState {
                nodes: self.nodes.insert(node.uuid, node),
                ..self
            },
            StoreActionView::UpsertEdge(edge) => StoreState {
                edges: self.edges.insert((edge.src_uuid, edge.dst_uuid), edge),
                ..self
            },
            StoreActionView::DeleteNode(uuid) => StoreState {
                nodes: self.nodes.remove(uuid),
                ..self
            },
            StoreActionView::DeleteEdgesIncidentTo(uuid) => StoreState {
                edges: Map::new(
                    |key: (Seq<char>, Seq<char>)|
                        self.edges.contains_key(key) && key.0 != uuid && key.1 != uuid,
                    |key: (Seq<char>, Seq<char>)| self.edges[key],
                ),
                ..self
            },
        }
    }

    /// The store after `actions`, performed in order.
    pub open spec fn apply_all(self, actions: Seq<StoreActionView>) -> StoreState
        decreases actions.len(),
    {
        if actions.len() == 0 {
            self
        } else {
            self.apply_all(actions.drop_last()).apply(actions.last())
        }
    }
}

/// The actions that put `nodes`, in order.
pub open spec fn node_upserts(nodes: Seq<NodeView>) -> Seq<StoreActionView> {
    Seq::new(nodes.len(), |i: int| StoreActionView::UpsertNode(nodes[i]))
}

/// The actions that put `edges`, in order.
pub open spec fn edge_upserts(edges: Seq<EdgeView>) -> Seq<StoreActionView> {
    Seq::new(edges.len(), |j: int| StoreActionView::UpsertEdge(edges[j]))
}

/// Whether one of `nodes` has the identity `uuid`.
pub open spec fn has_node(nodes: Seq<NodeView>, uuid: Seq<char>) -> bool {
    exists|i: int| 0 <= i < nodes.len() && (#[trigger] nodes[i]).uuid == uuid
}

/// Whether one of `edges` leads from `src` to `dst`.
pub open spec fn joins(edges: Seq<EdgeView>, src: Seq<char>, dst: Seq<char>) -> bool {
    exists|j: int|
        0 <= j < edges.len() && (#[trigger] edges[j]).src_uuid == src && edges[j].dst_uuid == dst
}

/// To perform two runs of actions one after the other is to perform them
/// as one run.
pub proof fn lemma_apply_all_add(
    state: StoreState,
    first: Seq<StoreActionView>,
    second: Seq<StoreActionView>,
)
    ensures
        state.apply_all(first + second) == state.apply_all(first).apply_all(second),
    decreases second.len(),
{
    if second.len() == 0 {
        assert(first + second =~= first);
    } else {
        assert((first + second).drop_last() =~= first + second.drop_last());
        assert((first + second).last() == second.last());
        lemma_apply_all_add(state, first, second.drop_last());
    }
}

/// After nodes were put, the store has the edges it had, and a node for an
/// identity exactly where it had one or one was put.
pub proof fn lemma_node_upserts(state: StoreState, nodes: Seq<NodeView>)
    ensures
        state.apply_all(node_upserts(nodes)).edges == state.edges,
        forall|uuid: Seq<char>| #[trigger]
            state.apply_all(node_upserts(nodes)).nodes.contains_key(uuid)
                <==> state.nodes.contains_key(uuid) || has_node(nodes, uuid),
    decreases nodes.len(),
{
    let actions = node_upserts(nodes);
    if nodes.len() > 0 {
        let head = nodes.drop_last();
        assert(actions.drop_last() =~= node_upserts(head));
        assert(actions.last() == StoreActionView::UpsertNode(nodes.last()));
        lemma_node_upserts(state, head);
        let before = state.apply_all(node_upserts(head));
        let after = state.apply_all(actions);
        assert(after == before.apply(StoreActionView::UpsertNode(nodes.last())));
        assert forall|uuid: Seq<char>| #[trigger]
            after.nodes.contains_key(uuid) <==> state.nodes.contains_key(uuid) || has_node(
                nodes,
                uuid,
            ) by {
            if has_node(head, uuid) {
                let i = choose|i: int| 0 <= i < head.len() && (#[trigger] head[i]).uuid == uuid;
                assert(nodes[i].uuid == uuid);
            }
            if has_node(nodes, uuid) {
                let i = choose|i: int| 0 <= i < nodes.len() && (#[trigger] nodes[i]).uuid == uuid;
                if i < head.len() {
                    assert(head[i].uuid == uuid);
                }
            }
            if uuid == nodes.last().uuid {
                assert(nodes[nodes.len() - 1].uuid == uuid);
            }
        }
    }
}

/// After edges were put, the store has the nodes it had, and an edge
/// between two identities exactly where it had one or one was put.
pub proof fn lemma_edge_upserts(state: StoreState, edges: Seq<EdgeView>)
    ensures
        state.apply_all(edge_upserts(edges)).nodes == state.nodes,
        forall|src: Seq<char>, dst: Seq<char>| #[trigger]
            state.apply_all(edge_upserts(edges)).edges.contains_key((src, dst))
                <==> state.edges.contains_key((src, dst)) || joins(edges, src, dst),
    decreases edges.len(),
{
    let actions = edge_upserts(edges);
    if edges.len() > 0 {
        let head = edges.drop_last();
        assert(actions.drop_last() =~= edge_upserts(head));
        assert(actions.last() == StoreActionView::UpsertEdge(edges.last()));
        lemma_edge_upserts(state, head);
        let before = state.apply_all(edge_upserts(head));
        let after = state.apply_all(actions);
        assert(after == before.apply(StoreActionView::UpsertEdge(edges.last())));
        assert forall|src: Seq<char>, dst: Seq<char>| #[trigger]
            after.edges.contains_key((src, dst)) <==> state.edges.contains_key((src, dst))
                || joins(edges, src, dst) by {
            if joins(head, src, dst) {
                let j = choose|j: int|
                    0 <= j < head.len() && (#[trigger] head[j]).src_uuid == src
                        && head[j].dst_uuid == dst;
                assert(edges[j].src_uuid == src && edges[j].dst_uuid == dst);
            }
            if joins(edges, src, dst) {
                let j = choose|j: int|
                    0 <= j < edges.len() && (#[trigger] edges[j]).src_uuid == src
                        && edges[j].dst_uuid == dst;
                if j < head.len() {
                    assert(head[j].src_uuid == src && head[j].dst_uuid == dst);
                }
            }
            if (src, dst) == (edges.last().src_uuid, edges.last().dst_uuid) {
                assert(edges[edges.len() - 1].src_uuid == src);
            }
        }
    }
}

/// Actions that begin by clearing the store lead to the same store,
/// whatever the store held before.
pub proof fn lemma_clear_forgets(
    first: StoreState,
    second: StoreState,
    actions: Seq<StoreActionView>,
)
    requires
        actions.len() > 0,
        actions[0] == StoreActionView::ClearAll,
    ensures
        first.apply_all(actions) == second.apply_all(actions),
    decreases actions.len(),
{
    if actions.len() == 1 {
        assert(actions.drop_last().len() == 0);
        assert(actions.last() == StoreActionView::ClearAll);
    } else {
        lemma_clear_forgets(first, second, actions.drop_last());
    }
}

impl NodeView {
    /// The node with both of its times set to `now`.
    pub open spec fn at(self, now: i64) -> NodeView {
        NodeView { created_at: now, updated_at: now, ..self }
    }
}

impl StoreState {
    /// The store with both times of every node set to `now`: the same
    /// identities, each with the same path, title, content, type and hash,
    /// and the same edges.
    pub open spec fn at(self, now: i64) -> StoreState {
        StoreState {
            nodes: Map::new(
                |uuid: Seq<char>| self.nodes.contains_key(uuid),
                |uuid: Seq<char>| self.nodes[uuid].at(now),
            ),
            ..self
        }
    }
}

/// `nodes`, each with both of its times set to `now`.
pub open spec fn nodes_at(nodes: Seq<NodeView>, now: i64) -> Seq<NodeView> {
    Seq::new(nodes.len(), |i: int| nodes[i].at(now))
}

/// To put nodes with their times set to `now` is to put them as they are
/// and to set the times afterwards.
pub proof fn lemma_node_upserts_at(state: StoreState, nodes: Seq<NodeView>, now: i64)
    ensures
        state.at(now).apply_all(node_upserts(nodes_at(nodes, now))) == state.apply_all(
            node_upserts(nodes),
        ).at(now),
    decreases nodes.len(),
{
    if nodes.len() > 0 {
        let head = nodes.drop_last();
        assert(node_upserts(nodes).drop_last() =~= node_upserts(head));
        assert(node_upserts(nodes_at(nodes, now)).drop_last() =~= node_upserts(
            nodes_at(head, now),
        ));
        lemma_node_upserts_at(state, head, now);
        let before = state.apply_all(node_upserts(head));
        let put = StoreActionView::UpsertNode(nodes.last());
        let put_at = StoreActionView::UpsertNode(nodes.last().at(now));
        assert(node_upserts(nodes).last() == put);
        assert(node_upserts(nodes_at(nodes, now)).last() == put_at);
        assert(before.at(now).apply(put_at).nodes =~= before.apply(put).at(now).nodes);
    }
}

/// To put edges does not touch the times of the nodes.
pub proof fn lemma_edge_upserts_at(state: StoreState, edges: Seq<EdgeView>, now: i64)
    ensures
        state.at(now).apply_all(edge_upserts(edges)) == state.apply_all(edge_upserts(edges)).at(
            now,
        ),
    decreases edges.len(),
{
    if edges.len() > 0 {
        let head = edges.drop_last();
        assert(edge_upserts(edges).drop_last() =~= edge_upserts(head));
        lemma_edge_upserts_at(state, head, now);
        let before = state.apply_all(edge_upserts(head));
        let put = StoreActionView::UpsertEdge(edges.last());
        assert(edge_upserts(edges).last() == put);
        assert(before.at(now).apply(put).nodes =~= before.apply(put).at(now).nodes);
    }
}

/// To remove a node and the edges at its identity leaves no node with that
/// identity and no edge that starts or ends there.
pub proof fn lemma_removal_leaves_nothing(state: StoreState, uuid: Seq<char>)
    ensures
        !state.apply(StoreActionView::DeleteNode(uuid)).apply(
            StoreActionView::DeleteEdgesIncidentTo(uuid),
        ).nodes.contains_key(uuid),
        !state.apply(StoreActionView::DeleteNode(uuid)).apply(
            StoreActionView::DeleteEdgesIncidentTo(uuid),
        ).touches(uuid),
{
}

} // verus!
