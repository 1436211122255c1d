//! The proxy over a repository: a local mirror of the nodes and relationships
//! visited so far, addressed by identities that pair a local slot with the
//! store's identifier. Walks read the proxy's storage as it is when they are
//! stepped, so growth is visible to walks that have not yet begun.
use vstd::prelude::*;
use crate::adjacency::{
    end_of, ends_below, heads_ok, incident, lemma_heads_fresh, lemma_heads_push, lemma_incident_len,
    lemma_links_push, lemma_newest_starts_chain, lemma_push, lemma_walk_len, lemma_walk_step, links_ok,
    newest, walk,
};
use crate::model::{Node, NodeView, Relationship, RelationshipView};
use crate::traits::{GraphContainerTrait, GraphTrait, GrowableGraph, MemGraphId};

verus! {

#[derive(PartialEq, Eq, Structural, Copy, Clone, Debug, Hash)]
pub struct ProxyNodeId {
    /// The local slot; meaningful once the node is retrieved.
    pub mem_id: usize,
    pub store_id: u64,
    /// Known to the repository but not yet materialized locally.
    pub to_retrieve: bool,
}

impl MemGraphId for ProxyNodeId {
    open spec fn spec_index(&self) -> nat {
        self.mem_id as nat
    }

    fn get_index(&self) -> (r: usize) {
        self.mem_id
    }
}

impl ProxyNodeId {
    /// The identity of a node that the repository knows and that is not
    /// materialized yet.
    pub fn new(db_id: u64) -> (r: Self)
        ensures
            r == (ProxyNodeId { mem_id: 0, store_id: db_id, to_retrieve: true }),
    {
        ProxyNodeId { mem_id: 0, store_id: db_id, to_retrieve: true }
    }

    pub fn get_store_id(&self) -> (r: u64)
        ensures
            r == self.store_id,
    {
        self.store_id
    }
}

#[derive(PartialEq, Eq, Structural, Copy, Clone, Debug, Hash)]
pub struct ProxyRelationshipId {
    pub mem_id: usize,
    pub store_id: u64,
}

impl MemGraphId for ProxyRelationshipId {
    open spec fn spec_index(&self) -> nat {
        self.mem_id as nat
    }

    fn get_index(&self) -> (r: usize) {
        self.mem_id
    }
}

impl ProxyRelationshipId {
    pub fn get_store_id(&self) -> (r: u64)
        ensures
            r == self.store_id,
    {
        self.store_id
    }
}

pub struct InnerNodeData<EID: MemGraphId> {
    pub first_outbound_edge: Option<EID>,
    pub first_inbound_edge: Option<EID>,
}

#[derive(Clone, Copy)]
pub struct InnerEdgeData<NID: MemGraphId, EID: MemGraphId> {
    pub source: NID,
    pub target: NID,
    pub next_outbound_edge: Option<EID>,
    pub next_inbound_edge: Option<EID>,
}

pub type ProxyVertex = InnerNodeData<ProxyRelationshipId>;

pub type ProxyEdge = InnerEdgeData<ProxyNodeId, ProxyRelationshipId>;

/// The identities of nodes that the repository reported, none materialized yet.
pub open spec fn unretrieved_ids(db_node_ids: Seq<u64>) -> Seq<ProxyNodeId> {
    db_node_ids.map_values(|id: u64| ProxyNodeId { mem_id: 0, store_id: id, to_retrieve: true })
}

pub fn retrieve_db_nodes_ids(db_node_ids: &Vec<u64>) -> (r: Vec<ProxyNodeId>)
    ensures
        r@ == unretrieved_ids(db_node_ids@),
{
    let mut res: Vec<ProxyNodeId> = Vec::new();
    let mut i: usize = 0;
    while i < db_node_ids.len()
        invariant
            i <= db_node_ids@.len(),
            res@ == unretrieved_ids(db_node_ids@.take(i as int)),
        decreases db_node_ids@.len() - i,
    {
        res.push(ProxyNodeId::new(db_node_ids[i]));
        i = i + 1;
        assert(res@ =~= unretrieved_ids(db_node_ids@.take(i as int)));
    }
    assert(db_node_ids@.take(i as int) =~= db_node_ids@);
    res
}

pub open spec fn rel_link(o: Option<ProxyRelationshipId>) -> Option<nat> {
    match o {
        Some(e) => Some(e.mem_id as nat),
        None => None,
    }
}

pub open spec fn proxy_edge_ends(es: Seq<ProxyEdge>) -> Seq<(nat, nat)> {
    Seq::new(es.len(), |i: int| (es[i].source.mem_id as nat, es[i].target.mem_id as nat))
}

pub open spec fn proxy_edge_links(es: Seq<ProxyEdge>, outbound: bool) -> Seq<Option<nat>> {
    Seq::new(
        es.len(),
        |i: int|
            if outbound {
                rel_link(es[i].next_outbound_edge)
            } else {
                rel_link(es[i].next_inbound_edge)
            },
    )
}

pub open spec fn proxy_vertex_heads(vs: Seq<ProxyVertex>, outbound: bool) -> Seq<Option<nat>> {
    Seq::new(
        vs.len(),
        |i: int|
            if outbound {
                rel_link(vs[i].first_outbound_edge)
            } else {
                rel_link(vs[i].first_inbound_edge)
            },
    )
}

pub struct GraphProxy {
    nodes: Vec<Node>,
    relationships: Vec<Relationship>,
    vertices: Vec<ProxyVertex>,
    edges: Vec<ProxyEdge>,
    retrieved_nodes_ids: Vec<ProxyNodeId>,
    relationship_ids: Vec<ProxyRelationshipId>,
    slot_ids: Vec<ProxyNodeId>,
}

/// Every stored link names a relationship by the identity it was given.
pub open spec fn ids_match(link: Option<ProxyRelationshipId>, ids: Seq<ProxyRelationshipId>) -> bool {
    link matches Some(e) ==> e.mem_id < ids.len() && e == ids[e.mem_id as int]
}

impl GraphProxy {
    /// Relationships as (source slot, target slot) pairs, in insertion order.
    pub closed spec fn ends(&self) -> Seq<(nat, nat)> {
        proxy_edge_ends(self.edges@)
    }

    /// Number of materialized node slots.
    pub closed spec fn slot_count(&self) -> nat {
        self.vertices@.len()
    }

    pub closed spec fn relationship_count(&self) -> nat {
        self.edges@.len()
    }

    /// The node identities the proxy was created with.
    pub closed spec fn root_ids(&self) -> Seq<ProxyNodeId> {
        self.retrieved_nodes_ids@
    }

    pub closed spec fn node_views(&self) -> Seq<NodeView> {
        self.nodes@.map_values(|n: Node| n@)
    }

    pub closed spec fn relationship_views(&self) -> Seq<RelationshipView> {
        self.relationships@.map_values(|r: Relationship| r@)
    }

    /// The identity of each materialized node, by slot.
    pub closed spec fn slot_ids(&self) -> Seq<ProxyNodeId> {
        self.slot_ids@
    }

    /// The identity is that of a materialized node of this proxy.
    pub open spec fn holds(&self, n: ProxyNodeId) -> bool {
        n.mem_id < self.slot_count() && self.slot_ids()[n.mem_id as int] == n
    }

    /// The identity of each relationship, by slot.
    pub closed spec fn relationship_ids(&self) -> Seq<ProxyRelationshipId> {
        self.relationship_ids@
    }

    pub closed spec fn stored_edge(&self, i: int) -> ProxyEdge {
        self.edges@[i]
    }

    pub closed spec fn wf(&self) -> bool {
        &&& links_ok(self.ends(), proxy_edge_links(self.edges@, true), true)
        &&& links_ok(self.ends(), proxy_edge_links(self.edges@, false), false)
        &&& heads_ok(self.ends(), proxy_vertex_heads(self.vertices@, true), true)
        &&& heads_ok(self.ends(), proxy_vertex_heads(self.vertices@, false), false)
        &&& ends_below(self.ends(), self.slot_count())
        &&& self.nodes@.len() == self.vertices@.len()
        &&& self.relationships@.len() == self.edges@.len()
        &&& self.relationship_ids@.len() == self.edges@.len()
        &&& self.slot_ids@.len() == self.vertices@.len()
        &&& forall|i: int|
            0 <= i < self.slot_ids@.len() ==> (#[trigger] self.slot_ids@[i]).mem_id == i && !self.slot_ids@[i].to_retrieve
        &&& forall|i: int|
            0 <= i < self.edges@.len() ==> self.holds((#[trigger] self.edges@[i]).source) && self.holds(self.edges@[i].target)
        &&& forall|i: int| 0 <= i < self.relationship_ids@.len() ==> (#[trigger] self.relationship_ids@[i]).mem_id == i
        &&& forall|i: int|
            0 <= i < self.edges@.len() ==> ids_match((#[trigger] self.edges@[i]).next_outbound_edge, self.relationship_ids@)
                && ids_match(self.edges@[i].next_inbound_edge, self.relationship_ids@)
        &&& forall|i: int|
            0 <= i < self.vertices@.len() ==> ids_match((#[trigger] self.vertices@[i]).first_outbound_edge, self.relationship_ids@)
                && ids_match(self.vertices@[i].first_inbound_edge, self.relationship_ids@)
    }

    /// The relationships leaving slot `n`, most recently added first.
    pub open spec fn out_slots(&self, n: nat) -> Seq<nat> {
        incident(self.ends(), n, true)
    }

    /// The relationships entering slot `n`, most recently added first.
    pub open spec fn in_slots(&self, n: nat) -> Seq<nat> {
        incident(self.ends(), n, false)
    }

    /// Slots as the identities of their relationships.
    pub open spec fn ids_of(&self, slots: Seq<nat>) -> Seq<ProxyRelationshipId> {
        slots.map_values(|i: nat| self.relationship_ids()[i as int])
    }

    pub fn new(db_node_ids: &Vec<u64>) -> (r: Self)
        ensures
            r.wf(),
            r.root_ids() == unretrieved_ids(db_node_ids@),
            r.slot_count() == 0,
            r.relationship_count() == 0,
            r.ends() == Seq::<(nat, nat)>::empty(),
            r.slot_ids() == Seq::<ProxyNodeId>::empty(),
            r.relationship_ids() == Seq::<ProxyRelationshipId>::empty(),
    {
        let ids = retrieve_db_nodes_ids(db_node_ids);
        let r = GraphProxy {
            nodes: Vec::new(),
            relationships: Vec::new(),
            vertices: Vec::new(),
            edges: Vec::new(),
            retrieved_nodes_ids: ids,
            relationship_ids: Vec::new(),
            slot_ids: Vec::new(),
        };
        assert(r.ends() =~= Seq::empty());
        assert(r.slot_ids() =~= Seq::empty());
        assert(r.relationship_ids() =~= Seq::empty());
        r
    }

    /// What well-formedness gives callers: one identity per relationship,
    /// numbered by slot; one materialized identity per node slot; and each
    /// stored relationship joins the identities of two materialized nodes,
    /// with the ends the model gives it.
    pub proof fn lemma_model(&self)
        requires
            self.wf(),
        ensures
            self.relationship_ids().len() == self.ends().len(),
            self.ends().len() == self.relationship_count(),
            self.slot_ids().len() == self.slot_count(),
            forall|i: int| 0 <= i < self.relationship_count() ==> (#[trigger] self.relationship_ids()[i]).mem_id == i,
            forall|i: int|
                0 <= i < self.slot_count() ==> (#[trigger] self.slot_ids()[i]).mem_id == i && !self.slot_ids()[i].to_retrieve,
            forall|i: int|
                0 <= i < self.relationship_count() ==> self.holds((#[trigger] self.stored_edge(i)).source) && self.holds(
                    self.stored_edge(i).target,
                ) && self.ends()[i] == (self.stored_edge(i).source.mem_id as nat, self.stored_edge(i).target.mem_id as nat),
    {
    }

    /// Materializes a node of the store in a fresh local slot.
    pub fn add_node(&mut self, store_id: u64, node: Node) -> (r: ProxyNodeId)
        requires
            old(self).wf(),
        ensures
            final(self).wf(),
            r == (ProxyNodeId { mem_id: old(self).slot_count() as usize, store_id: store_id, to_retrieve: false }),
            final(self).slot_count() == old(self).slot_count() + 1,
            final(self).ends() == old(self).ends(),
            final(self).relationship_ids() == old(self).relationship_ids(),
            final(self).root_ids() == old(self).root_ids(),
            final(self).node_views() == old(self).node_views().push(node@),
            final(self).relationship_views() == old(self).relationship_views(),
            final(self).slot_ids() == old(self).slot_ids().push(r),
            forall|i: int| 0 <= i < old(self).relationship_count() ==> final(self).stored_edge(i) == old(self).stored_edge(i),
            forall|it: OutEdges| #[trigger] it.valid_in(old(self)) ==> it.valid_in(final(self)),
            forall|it: InEdges| #[trigger] it.valid_in(old(self)) ==> it.valid_in(final(self)),
    {
        let index = self.vertices.len();
        let ghost node_view = node@;
        let id = ProxyNodeId { mem_id: index, store_id: store_id, to_retrieve: false };
        self.vertices.push(InnerNodeData { first_outbound_edge: None, first_inbound_edge: None });
        self.nodes.push(node);
        self.slot_ids.push(id);
        proof {
            assert(proxy_vertex_heads(self.vertices@, true) =~= proxy_vertex_heads(old(self).vertices@, true).push(None));
            assert(proxy_vertex_heads(self.vertices@, false) =~= proxy_vertex_heads(old(self).vertices@, false).push(None));
            lemma_heads_fresh(self.ends(), proxy_vertex_heads(old(self).vertices@, true), true);
            lemma_heads_fresh(self.ends(), proxy_vertex_heads(old(self).vertices@, false), false);
            assert(self.node_views() =~= old(self).node_views().push(node_view));
            assert forall|i: int| 0 <= i < self.vertices@.len() implies ids_match(
                (#[trigger] self.vertices@[i]).first_outbound_edge,
                self.relationship_ids@,
            ) && ids_match(self.vertices@[i].first_inbound_edge, self.relationship_ids@) by {
                if i < index {
                    assert(self.vertices@[i] == old(self).vertices@[i]);
                }
            }
            assert forall|i: int| 0 <= i < self.edges@.len() implies self.holds((#[trigger] self.edges@[i]).source)
                && self.holds(self.edges@[i].target) by {
                assert(old(self).holds(old(self).edges@[i].source));
                assert(old(self).holds(old(self).edges@[i].target));
            }
            assert(self.slot_ids() =~= old(self).slot_ids().push(id));
            old(self).lemma_walks_survive_growth(*self, Seq::empty());
        }
        id
    }

    pub fn add_relationship(
        &mut self,
        store_id: u64,
        rel: Relationship,
        source: &ProxyNodeId,
        target: &ProxyNodeId,
    ) -> (r: ProxyRelationshipId)
        requires
            old(self).wf(),
            old(self).holds(*source),
            old(self).holds(*target),
        ensures
            final(self).wf(),
            r == (ProxyRelationshipId { mem_id: old(self).relationship_count() as usize, store_id: store_id }),
            final(self).ends() == old(self).ends().push((source.mem_id as nat, target.mem_id as nat)),
            final(self).relationship_ids() == old(self).relationship_ids().push(r),
            final(self).relationship_count() == old(self).relationship_count() + 1,
            final(self).slot_count() == old(self).slot_count(),
            final(self).root_ids() == old(self).root_ids(),
            final(self).node_views() == old(self).node_views(),
            final(self).relationship_views() == old(self).relationship_views().push(rel@),
            final(self).stored_edge(r.mem_id as int).source == *source,
            final(self).stored_edge(r.mem_id as int).target == *target,
            forall|i: int| 0 <= i < old(self).relationship_count() ==> final(self).stored_edge(i) == old(self).stored_edge(i),
            final(self).slot_ids() == old(self).slot_ids(),
            forall|it: OutEdges| #[trigger] it.valid_in(old(self)) ==> it.valid_in(final(self)),
            forall|it: InEdges| #[trigger] it.valid_in(old(self)) ==> it.valid_in(final(self)),
    {
        let index = self.edges.len();
        let id = ProxyRelationshipId { mem_id: index, store_id: store_id };
        let ghost before_ends = self.ends();
        let ghost before_nodes = self.vertices@;
        let ghost rel_view = rel@;
        let s = source.mem_id;
        let t = target.mem_id;
        let next_outbound_edge = self.vertices[s].first_outbound_edge;
        let next_inbound_edge = self.vertices[t].first_inbound_edge;
        self.edges.push(
            InnerEdgeData {
                source: *source,
                target: *target,
                next_outbound_edge: next_outbound_edge,
                next_inbound_edge: next_inbound_edge,
            },
        );
        self.relationships.push(rel);
        self.relationship_ids.push(id);
        let first_inbound_edge = self.vertices[s].first_inbound_edge;
        self.vertices.set(s, InnerNodeData { first_outbound_edge: Some(id), first_inbound_edge: first_inbound_edge });
        let first_outbound_edge = self.vertices[t].first_outbound_edge;
        self.vertices.set(t, InnerNodeData { first_outbound_edge: first_outbound_edge, first_inbound_edge: Some(id) });
        proof {
            let x = (s as nat, t as nat);
            assert(self.ends() =~= before_ends.push(x));
            assert(proxy_vertex_heads(before_nodes, true)[x.0 as int] == newest(before_ends, x.0, true));
            assert(proxy_vertex_heads(before_nodes, false)[x.1 as int] == newest(before_ends, x.1, false));
            lemma_links_push(before_ends, proxy_edge_links(old(self).edges@, true), x, true);
            lemma_links_push(before_ends, proxy_edge_links(old(self).edges@, false), x, false);
            assert(proxy_edge_links(self.edges@, true) =~= proxy_edge_links(old(self).edges@, true).push(newest(before_ends, x.0, true)));
            assert(proxy_edge_links(self.edges@, false) =~= proxy_edge_links(old(self).edges@, false).push(newest(before_ends, x.1, false)));
            assert(proxy_vertex_heads(self.vertices@, true) =~= proxy_vertex_heads(before_nodes, true).update(x.0 as int, Some(before_ends.len())));
            assert(proxy_vertex_heads(self.vertices@, false) =~= proxy_vertex_heads(before_nodes, false).update(x.1 as int, Some(before_ends.len())));
            lemma_heads_push(before_ends, x, proxy_vertex_heads(before_nodes, true), true);
            lemma_heads_push(before_ends, x, proxy_vertex_heads(before_nodes, false), false);
            assert(ends_below(self.ends(), self.slot_count()));
            assert(self.relationship_views() =~= old(self).relationship_views().push(rel_view));
            assert(self.node_views() =~= old(self).node_views());
            assert forall|i: int| 0 <= i < self.edges@.len() implies ids_match(
                (#[trigger] self.edges@[i]).next_outbound_edge,
                self.relationship_ids@,
            ) && ids_match(self.edges@[i].next_inbound_edge, self.relationship_ids@) by {
                if i < index {
                    assert(self.edges@[i] == old(self).edges@[i]);
                    assert(ids_match(old(self).edges@[i].next_outbound_edge, old(self).relationship_ids@));
                    assert(ids_match(old(self).edges@[i].next_inbound_edge, old(self).relationship_ids@));
                } else {
                    assert(ids_match(old(self).vertices@[s as int].first_outbound_edge, old(self).relationship_ids@));
                    assert(ids_match(old(self).vertices@[t as int].first_inbound_edge, old(self).relationship_ids@));
                }
            }
            assert forall|i: int| 0 <= i < self.vertices@.len() implies ids_match(
                (#[trigger] self.vertices@[i]).first_outbound_edge,
                self.relationship_ids@,
            ) && ids_match(self.vertices@[i].first_inbound_edge, self.relationship_ids@) by {
                assert(ids_match(old(self).vertices@[i].first_outbound_edge, old(self).relationship_ids@));
                assert(ids_match(old(self).vertices@[i].first_inbound_edge, old(self).relationship_ids@));
            }
            assert forall|i: int| 0 <= i < self.edges@.len() implies self.holds((#[trigger] self.edges@[i]).source)
                && self.holds(self.edges@[i].target) by {
                if i < index {
                    assert(old(self).holds(old(self).edges@[i].source));
                    assert(old(self).holds(old(self).edges@[i].target));
                }
            }
            assert(self.ends() =~= old(self).ends() + seq![x]);
            old(self).lemma_walks_survive_growth(*self, seq![x]);
        }
        id
    }

    /// Walks valid before the storage grows stay valid after it.
    proof fn lemma_walks_survive_growth(&self, after: GraphProxy, extra: Seq<(nat, nat)>)
        requires
            after.wf(),
            after.ends() == self.ends() + extra,
            self.slot_ids@.len() <= after.slot_ids@.len(),
            forall|i: int| 0 <= i < self.slot_ids@.len() ==> after.slot_ids@[i] == #[trigger] self.slot_ids@[i],
            self.relationship_ids@.len() <= after.relationship_ids@.len(),
            forall|i: int|
                0 <= i < self.relationship_ids@.len() ==> after.relationship_ids@[i] == #[trigger] self.relationship_ids@[i],
        ensures
            forall|it: OutEdges| #[trigger] it.valid_in(self) ==> it.valid_in(&after),
            forall|it: InEdges| #[trigger] it.valid_in(self) ==> it.valid_in(&after),
    {
        assert forall|it: OutEdges| #[trigger] it.valid_in(self) implies it.valid_in(&after) by {
            assert(after.slot_ids@[it.node.mem_id as int] == self.slot_ids@[it.node.mem_id as int]);
            if let Some(e) = it.current_edge_index {
                if it.started {
                    assert(after.relationship_ids@[e.mem_id as int] == self.relationship_ids@[e.mem_id as int]);
                    assert(after.ends()[e.mem_id as int] == self.ends()[e.mem_id as int]);
                }
            }
        }
        assert forall|it: InEdges| #[trigger] it.valid_in(self) implies it.valid_in(&after) by {
            assert(after.slot_ids@[it.node.mem_id as int] == self.slot_ids@[it.node.mem_id as int]);
            if let Some(e) = it.current_edge_index {
                if it.started {
                    assert(after.relationship_ids@[e.mem_id as int] == self.relationship_ids@[e.mem_id as int]);
                    assert(after.ends()[e.mem_id as int] == self.ends()[e.mem_id as int]);
                }
            }
        }
    }
}

/// Walks the outbound chain of a node. It reads the node's head when first
/// stepped, and reads the proxy's storage as it is at each step.
pub struct OutEdges {
    node: ProxyNodeId,
    started: bool,
    current_edge_index: Option<ProxyRelationshipId>,
}

impl OutEdges {
    pub closed spec fn is_started(&self) -> bool {
        self.started
    }

    pub closed spec fn node(&self) -> ProxyNodeId {
        self.node
    }

    pub closed spec fn valid_in(&self, g: &GraphProxy) -> bool {
        &&& g.wf()
        &&& g.holds(self.node)
        &&& self.started ==> ids_match(self.current_edge_index, g.relationship_ids@)
        &&& self.started ==> (self.current_edge_index matches Some(e) ==> e.mem_id < g.ends().len()
            && end_of(g.ends()[e.mem_id as int], true) == self.node.mem_id)
    }

    /// The slots of the relationships still to come in `g`.
    pub closed spec fn slots_in(&self, g: &GraphProxy) -> Seq<nat> {
        if !self.started {
            incident(g.ends(), self.node.mem_id as nat, true)
        } else {
            walk(g.ends(), rel_link(self.current_edge_index), true)
        }
    }

    pub fn next(&mut self, graph: &GraphProxy) -> (r: Option<ProxyRelationshipId>)
        requires
            old(self).valid_in(graph),
        ensures
            final(self).valid_in(graph),
            final(self).is_started(),
            final(self).node() == old(self).node(),
            old(self).slots_in(graph).len() == 0 ==> r.is_none() && final(self).slots_in(graph).len() == 0,
            old(self).slots_in(graph).len() > 0 ==> r == Some(graph.relationship_ids()[old(self).slots_in(graph)[0] as int])
                && final(self).slots_in(graph) == old(self).slots_in(graph).drop_first(),
            r matches Some(e) ==> graph.has_edge(e) && graph.stored_edge(e.mem_id as int).source == old(self).node(),
    {
        if !self.started {
            self.current_edge_index = graph.vertices[self.node.mem_id].first_outbound_edge;
            self.started = true;
            proof {
                assert(proxy_vertex_heads(graph.vertices@, true)[self.node.mem_id as int] == newest(
                    graph.ends(),
                    self.node.mem_id as nat,
                    true,
                ));
                lemma_newest_starts_chain(graph.ends(), self.node.mem_id as nat, true);
            }
        }
        match self.current_edge_index {
            None => None,
            Some(edge_index) => {
                proof {
                    lemma_walk_step(graph.ends(), proxy_edge_links(graph.edges@, true), edge_index.mem_id as nat, true);
                }
                proof {
                    graph.lemma_model();
                    assert(graph.stored_edge(edge_index.mem_id as int).source == graph.slot_ids()[self.node.mem_id as int]);
                }
                let ghost before = self.slots_in(graph);
                let next = graph.edges[edge_index.mem_id].next_outbound_edge;
                self.current_edge_index = next;
                assert(self.slots_in(graph) =~= before.drop_first());
                Some(edge_index)
            },
        }
    }

    /// Walks the rest of the chain in `graph` and counts its relationships.
    pub fn count(self, graph: &GraphProxy) -> (r: usize)
        requires
            self.valid_in(graph),
        ensures
            r == self.slots_in(graph).len(),
    {
        let mut it = self;
        let mut count: usize = 0;
        let total: usize = graph.edges.len();
        proof {
            if self.started {
                lemma_walk_len(graph.ends(), rel_link(self.current_edge_index), true);
            } else {
                lemma_incident_len(graph.ends(), self.node.mem_id as nat, true);
            }
        }
        loop
            invariant
                it.valid_in(graph),
                count + it.slots_in(graph).len() == self.slots_in(graph).len(),
                self.slots_in(graph).len() <= total,
            decreases it.slots_in(graph).len() + (if it.started {
                0int
            } else {
                1int
            }),
        {
            match it.next(graph) {
                None => {
                    return count;
                },
                Some(_) => {
                    count = count + 1;
                },
            }
        }
    }
}

/// A walk that has not begun sees a relationship added from its node before
/// its first step, ahead of the older ones.
pub proof fn lemma_pending_out_walk_sees_growth(it: OutEdges, before: GraphProxy, after: GraphProxy, x: (nat, nat))
    requires
        !it.is_started(),
        after.ends() == before.ends().push(x),
        end_of(x, true) == it.node().mem_id,
    ensures
        it.slots_in(&after) == seq![before.relationship_count()] + it.slots_in(&before),
{
    lemma_push(before.ends(), x, it.node().mem_id as nat, true);
}

/// A walk under way goes on as it would have after the storage grows.
pub proof fn lemma_out_walk_under_way_unchanged(it: OutEdges, before: GraphProxy, after: GraphProxy, extra: Seq<(nat, nat)>)
    requires
        it.is_started(),
        it.valid_in(&before),
        after.ends() == before.ends() + extra,
    ensures
        it.slots_in(&after) == it.slots_in(&before),
{
    if let Some(e) = it.current_edge_index {
        assert(after.ends().take(e.mem_id as int) =~= before.ends().take(e.mem_id as int));
        assert(after.ends()[e.mem_id as int] == before.ends()[e.mem_id as int]);
    }
}

/// Walks the inbound chain of a node. It reads the node's head when first
/// stepped, and reads the proxy's storage as it is at each step.
pub struct InEdges {
    node: ProxyNodeId,
    started: bool,
    current_edge_index: Option<ProxyRelationshipId>,
}

impl InEdges {
    pub closed spec fn is_started(&self) -> bool {
        self.started
    }

    pub closed spec fn node(&self) -> ProxyNodeId {
        self.node
    }

    pub closed spec fn valid_in(&self, g: &GraphProxy) -> bool {
        &&& g.wf()
        &&& g.holds(self.node)
        &&& self.started ==> ids_match(self.current_edge_index, g.relationship_ids@)
        &&& self.started ==> (self.current_edge_index matches Some(e) ==> e.mem_id < g.ends().len()
            && end_of(g.ends()[e.mem_id as int], false) == self.node.mem_id)
    }

    /// The slots of the relationships still to come in `g`.
    pub closed spec fn slots_in(&self, g: &GraphProxy) -> Seq<nat> {
        if !self.started {
            incident(g.ends(), self.node.mem_id as nat, false)
        } else {
            walk(g.ends(), rel_link(self.current_edge_index), false)
        }
    }

    pub fn next(&mut self, graph: &GraphProxy) -> (r: Option<ProxyRelationshipId>)
        requires
            old(self).valid_in(graph),
        ensures
            final(self).valid_in(graph),
            final(self).is_started(),
            final(self).node() == old(self).node(),
            old(self).slots_in(graph).len() == 0 ==> r.is_none() && final(self).slots_in(graph).len() == 0,
            old(self).slots_in(graph).len() > 0 ==> r == Some(graph.relationship_ids()[old(self).slots_in(graph)[0] as int])
                && final(self).slots_in(graph) == old(self).slots_in(graph).drop_first(),
            r matches Some(e) ==> graph.has_edge(e) && graph.stored_edge(e.mem_id as int).target == old(self).node(),
    {
        if !self.started {
            self.current_edge_index = graph.vertices[self.node.mem_id].first_inbound_edge;
            self.started = true;
            proof {
                assert(proxy_vertex_heads(graph.vertices@, false)[self.node.mem_id as int] == newest(
                    graph.ends(),
                    self.node.mem_id as nat,
                    false,
                ));
                lemma_newest_starts_chain(graph.ends(), self.node.mem_id as nat, false);
            }
        }
        match self.current_edge_index {
            None => None,
            Some(edge_index) => {
                proof {
                    lemma_walk_step(graph.ends(), proxy_edge_links(graph.edges@, false), edge_index.mem_id as nat, false);
                }
                proof {
                    graph.lemma_model();
                    assert(graph.stored_edge(edge_index.mem_id as int).target == graph.slot_ids()[self.node.mem_id as int]);
                }
                let ghost before = self.slots_in(graph);
                let next = graph.edges[edge_index.mem_id].next_inbound_edge;
                self.current_edge_index = next;
                assert(self.slots_in(graph) =~= before.drop_first());
                Some(edge_index)
            },
        }
    }

    /// Walks the rest of the chain in `graph` and counts its relationships.
    pub fn count(self, graph: &GraphProxy) -> (r: usize)
        requires
            self.valid_in(graph),
        ensures
            r == self.slots_in(graph).len(),
    {
        let mut it = self;
        let mut count: usize = 0;
        let total: usize = graph.edges.len();
        proof {
            if self.started {
                lemma_walk_len(graph.ends(), rel_link(self.current_edge_index), false);
            } else {
                lemma_incident_len(graph.ends(), self.node.mem_id as nat, false);
            }
        }
        loop
            invariant
                it.valid_in(graph),
                count + it.slots_in(graph).len() == self.slots_in(graph).len(),
                self.slots_in(graph).len() <= total,
            decreases it.slots_in(graph).len() + (if it.started {
                0int
            } else {
                1int
            }),
        {
            match it.next(graph) {
                None => {
                    return count;
                },
                Some(_) => {
                    count = count + 1;
                },
            }
        }
    }
}

/// A walk that has not begun sees a relationship added from its node before
/// its first step, ahead of the older ones.
pub proof fn lemma_pending_in_walk_sees_growth(it: InEdges, before: GraphProxy, after: GraphProxy, x: (nat, nat))
    requires
        !it.is_started(),
        after.ends() == before.ends().push(x),
        end_of(x, false) == it.node().mem_id,
    ensures
        it.slots_in(&after) == seq![before.relationship_count()] + it.slots_in(&before),
{
    lemma_push(before.ends(), x, it.node().mem_id as nat, false);
}

/// A walk under way goes on as it would have after the storage grows.
pub proof fn lemma_in_walk_under_way_unchanged(it: InEdges, before: GraphProxy, after: GraphProxy, extra: Seq<(nat, nat)>)
    requires
        it.is_started(),
        it.valid_in(&before),
        after.ends() == before.ends() + extra,
    ensures
        it.slots_in(&after) == it.slots_in(&before),
{
    if let Some(e) = it.current_edge_index {
        assert(after.ends().take(e.mem_id as int) =~= before.ends().take(e.mem_id as int));
        assert(after.ends()[e.mem_id as int] == before.ends()[e.mem_id as int]);
    }
}

impl GraphProxy {
    pub fn out_edges(&self, source: &ProxyNodeId) -> (r: OutEdges)
        requires
            self.wf(),
            self.holds(*source),
        ensures
            r.valid_in(self),
            !r.is_started(),
            r.node() == *source,
            r.slots_in(self) == self.out_slots(source.mem_id as nat),
    {
        OutEdges { node: *source, started: false, current_edge_index: None }
    }

    pub fn in_edges(&self, target: &ProxyNodeId) -> (r: InEdges)
        requires
            self.wf(),
            self.holds(*target),
        ensures
            r.valid_in(self),
            !r.is_started(),
            r.node() == *target,
            r.slots_in(self) == self.in_slots(target.mem_id as nat),
    {
        InEdges { node: *target, started: false, current_edge_index: None }
    }

    /// The identities of the nodes the repository reported for the query.
    pub fn get_root_ids(&self) -> (r: Vec<ProxyNodeId>)
        ensures
            r@ == self.root_ids(),
    {
        let mut r: Vec<ProxyNodeId> = Vec::new();
        let mut i: usize = 0;
        while i < self.retrieved_nodes_ids.len()
            invariant
                i <= self.retrieved_nodes_ids@.len(),
                r@ == self.retrieved_nodes_ids@.take(i as int),
            decreases self.retrieved_nodes_ids@.len() - i,
        {
            r.push(self.retrieved_nodes_ids[i]);
            i = i + 1;
            assert(r@ =~= self.retrieved_nodes_ids@.take(i as int));
        }
        assert(self.retrieved_nodes_ids@.take(i as int) =~= self.retrieved_nodes_ids@);
        r
    }

    pub closed spec fn node_at(&self, i: int) -> Node {
        self.nodes@[i]
    }

    pub closed spec fn relationship_at(&self, i: int) -> Relationship {
        self.relationships@[i]
    }

    /// The records are those the views describe.
    pub proof fn lemma_records(&self, i: int)
        ensures
            0 <= i < self.node_views().len() ==> self.node_at(i)@ == self.node_views()[i],
            0 <= i < self.relationship_views().len() ==> self.relationship_at(i)@ == self.relationship_views()[i],
            self.wf() ==> self.node_views().len() == self.slot_count(),
            self.wf() ==> self.relationship_views().len() == self.relationship_count(),
    {
    }
}

impl GraphTrait<ProxyNodeId, ProxyRelationshipId> for GraphProxy {
    open spec fn graph_wf(&self) -> bool {
        self.wf()
    }

    open spec fn has_node(&self, n: ProxyNodeId) -> bool {
        self.holds(n)
    }

    open spec fn has_edge(&self, e: ProxyRelationshipId) -> bool {
        e.mem_id < self.relationship_count()
    }

    open spec fn spec_nodes_len(&self) -> nat {
        self.slot_count()
    }

    open spec fn spec_edges_len(&self) -> nat {
        self.relationship_count()
    }

    /// The materialized nodes, in the order they were materialized.
    open spec fn spec_nodes_ids(&self) -> Seq<ProxyNodeId> {
        self.slot_ids()
    }

    open spec fn spec_out_edges(&self, n: ProxyNodeId) -> Seq<ProxyRelationshipId> {
        self.ids_of(self.out_slots(n.mem_id as nat))
    }

    open spec fn spec_in_edges(&self, n: ProxyNodeId) -> Seq<ProxyRelationshipId> {
        self.ids_of(self.in_slots(n.mem_id as nat))
    }

    open spec fn spec_source(&self, e: ProxyRelationshipId) -> ProxyNodeId {
        self.stored_edge(e.mem_id as int).source
    }

    open spec fn spec_target(&self, e: ProxyRelationshipId) -> ProxyNodeId {
        self.stored_edge(e.mem_id as int).target
    }

    fn get_source_index(&self, edge_index: &ProxyRelationshipId) -> (r: ProxyNodeId) {
        self.edges[edge_index.mem_id].source
    }

    fn get_target_index(&self, edge_index: &ProxyRelationshipId) -> (r: ProxyNodeId) {
        self.edges[edge_index.mem_id].target
    }

    fn nodes_len(&self) -> (r: usize) {
        self.vertices.len()
    }

    fn edges_len(&self) -> (r: usize) {
        self.edges.len()
    }

    fn get_nodes_ids(&self) -> (r: Vec<ProxyNodeId>) {
        let mut r: Vec<ProxyNodeId> = Vec::new();
        let mut i: usize = 0;
        while i < self.slot_ids.len()
            invariant
                i <= self.slot_ids@.len(),
                r@ == self.slot_ids@.take(i as int),
            decreases self.slot_ids@.len() - i,
        {
            r.push(self.slot_ids[i]);
            i = i + 1;
            assert(r@ =~= self.slot_ids@.take(i as int));
        }
        assert(self.slot_ids@.take(i as int) =~= self.slot_ids@);
        r
    }

    fn in_degree(&self, node: &ProxyNodeId) -> (r: usize) {
        self.in_edges(node).count(self)
    }

    fn out_degree(&self, node: &ProxyNodeId) -> (r: usize) {
        self.out_edges(node).count(self)
    }
}

impl GraphContainerTrait<ProxyNodeId, ProxyRelationshipId, Node, Relationship> for GraphProxy {
    open spec fn spec_node(&self, id: ProxyNodeId) -> Node {
        self.node_at(id.mem_id as int)
    }

    open spec fn spec_relationship(&self, id: ProxyRelationshipId) -> Relationship {
        self.relationship_at(id.mem_id as int)
    }

    fn get_node_ref(&self, id: &ProxyNodeId) -> (r: &Node) {
        &self.nodes[id.mem_id]
    }

    fn get_relationship_ref(&self, id: &ProxyRelationshipId) -> (r: &Relationship) {
        &self.relationships[id.mem_id]
    }

    fn get_node_mut(&mut self, id: &ProxyNodeId) -> (r: &mut Node) {
        &mut self.nodes[id.mem_id]
    }

    fn get_relationship_mut(&mut self, id: &ProxyRelationshipId) -> (r: &mut Relationship) {
        &mut self.relationships[id.mem_id]
    }
}

/// Pulling in a neighbourhood takes the repository, which the executor
/// holds: it materializes the nodes and relationships it fetched through
/// `add_node` and `add_relationship`. Here retrieval changes nothing.
impl GrowableGraph<ProxyNodeId> for GraphProxy {
    open spec fn is_retrieved(&self, n: ProxyNodeId) -> bool {
        !n.to_retrieve
    }

    fn retrieve_out_edges(&mut self, source: &ProxyNodeId) {
    }

    fn retrieve_in_edges(&mut self, target: &ProxyNodeId) {
    }
}

} // verus!
