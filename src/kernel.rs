//! The fully resident kernel graph: vertices and edges in two arrays, with
//! each vertex heading an outbound and an inbound chain through the edges.
use vstd::prelude::*;
use crate::adjacency::{
    end_of, ends_below, heads_ok, incident, lemma_chain_reverse, lemma_heads_fresh,
    lemma_heads_push, lemma_incident_absent, lemma_links_push, lemma_newest_starts_chain,
    lemma_push, lemma_walk_len, lemma_walk_step, links_ok, newest, walk,
};
use crate::traits::{GraphTrait, MemGraphId};

verus! {

#[derive(PartialEq, Eq, Structural, Copy, Clone, Debug, Hash)]
pub struct EdgeIndex {
    pub index: usize,
}

impl EdgeIndex {
    pub fn new(index: usize) -> (r: Self)
        ensures
            r.index == index,
    {
        EdgeIndex { index: index }
    }
}

impl MemGraphId for EdgeIndex {
    open spec fn spec_index(&self) -> nat {
        self.index as nat
    }

    fn get_index(&self) -> (r: usize) {
        self.index
    }
}

#[derive(PartialEq, Eq, Structural, Copy, Clone, Debug, Hash)]
pub struct NodeIndex {
    pub index: usize,
}

impl NodeIndex {
    pub fn new(index: usize) -> (r: Self)
        ensures
            r.index == index,
    {
        NodeIndex { index: index }
    }
}

impl MemGraphId for NodeIndex {
    open spec fn spec_index(&self) -> nat {
        self.index as nat
    }

    fn get_index(&self) -> (r: usize) {
        self.index
    }
}

pub struct VertexData<EID: MemGraphId> {
    pub first_outbound_edge: Option<EID>,
    pub first_inbound_edge: Option<EID>,
}

impl<EID: MemGraphId + Copy> VertexData<EID> {
    pub fn get_first_outbound_edge(&self) -> (r: Option<EID>)
        ensures
            r == self.first_outbound_edge,
    {
        self.first_outbound_edge
    }

    pub fn get_first_inbound_edge(&self) -> (r: Option<EID>)
        ensures
            r == self.first_inbound_edge,
    {
        self.first_inbound_edge
    }
}

#[derive(Clone, Copy)]
pub struct EdgeData<NID: MemGraphId, EID: MemGraphId> {
    pub source: NID,
    pub target: NID,
    pub next_outbound_edge: Option<EID>,
    pub next_inbound_edge: Option<EID>,
}

impl<NID: MemGraphId + Copy, EID: MemGraphId + Copy> EdgeData<NID, EID> {
    pub fn get_source(&self) -> (r: NID)
        ensures
            r == self.source,
    {
        self.source
    }

    pub fn get_target(&self) -> (r: NID)
        ensures
            r == self.target,
    {
        self.target
    }

    pub fn get_next_outbound_edge(&self) -> (r: Option<EID>)
        ensures
            r == self.next_outbound_edge,
    {
        self.next_outbound_edge
    }

    pub fn get_next_inbound_edge(&self) -> (r: Option<EID>)
        ensures
            r == self.next_inbound_edge,
    {
        self.next_inbound_edge
    }
}

/// An optional edge handle as an optional edge number.
pub open spec fn link(o: Option<EdgeIndex>) -> Option<nat> {
    match o {
        Some(e) => Some(e.index as nat),
        None => None,
    }
}

/// Edge numbers as handles.
pub open spec fn handles(s: Seq<nat>) -> Seq<EdgeIndex> {
    s.map_values(|i: nat| EdgeIndex { index: i as usize })
}

pub type KernelEdge = EdgeData<NodeIndex, EdgeIndex>;

/// The (source, target) pairs of stored edges, in insertion order.
pub open spec fn edge_ends(es: Seq<KernelEdge>) -> Seq<(nat, nat)> {
    Seq::new(es.len(), |i: int| (es[i].source.index as nat, es[i].target.index as nat))
}

/// The chain links stored in the edges, outbound or inbound.
pub open spec fn edge_links(es: Seq<KernelEdge>, outbound: bool) -> Seq<Option<nat>> {
    Seq::new(
        es.len(),
        |i: int|
            if outbound {
                link(es[i].next_outbound_edge)
            } else {
                link(es[i].next_inbound_edge)
            },
    )
}

/// The chain heads stored in the vertices, outbound or inbound.
pub open spec fn vertex_heads(vs: Seq<VertexData<EdgeIndex>>, outbound: bool) -> Seq<Option<nat>> {
    Seq::new(
        vs.len(),
        |i: int|
            if outbound {
                link(vs[i].first_outbound_edge)
            } else {
                link(vs[i].first_inbound_edge)
            },
    )
}

/// Stored edges whose links thread both chains correctly.
pub open spec fn edges_wf(es: Seq<KernelEdge>) -> bool {
    &&& links_ok(edge_ends(es), edge_links(es, true), true)
    &&& links_ok(edge_ends(es), edge_links(es, false), false)
}

pub struct Graph {
    nodes: Vec<VertexData<EdgeIndex>>,
    edges: Vec<KernelEdge>,
}

/// Walks the outbound chain of a vertex over a copy of the edges.
pub struct OutEdges {
    edges: Vec<KernelEdge>,
    current_edge_index: Option<EdgeIndex>,
}

/// Walks the inbound chain of a vertex over a copy of the edges.
pub struct InEdges {
    edges: Vec<KernelEdge>,
    current_edge_index: Option<EdgeIndex>,
}

impl OutEdges {
    pub closed spec fn wf(&self) -> bool {
        &&& edges_wf(self.edges@)
        &&& self.current_edge_index matches Some(e) ==> e.index < self.edges@.len()
    }

    /// The edges still to come.
    pub closed spec fn remaining(&self) -> Seq<EdgeIndex> {
        handles(walk(edge_ends(self.edges@), link(self.current_edge_index), true))
    }

    /// Walks the rest of the chain and counts its edges.
    pub fn count(self) -> (r: usize)
        requires
            self.wf(),
        ensures
            r == self.remaining().len(),
    {
        let mut it = self;
        let mut count: usize = 0;
        let total: usize = it.edges.len();
        proof {
            lemma_walk_len(edge_ends(it.edges@), link(it.current_edge_index), true);
        }
        loop
            invariant
                it.wf(),
                count + it.remaining().len() == self.remaining().len(),
                self.remaining().len() <= total,
            decreases it.remaining().len(),
        {
            match it.next() {
                None => {
                    return count;
                },
                Some(_) => {
                    count = count + 1;
                },
            }
        }
    }

    pub fn next(&mut self) -> (r: Option<EdgeIndex>)
        requires
            old(self).wf(),
        ensures
            final(self).wf(),
            old(self).remaining().len() == 0 ==> r.is_none() && final(self).remaining().len() == 0,
            old(self).remaining().len() > 0 ==> r == Some(old(self).remaining()[0])
                && final(self).remaining() == old(self).remaining().drop_first(),
    {
        match self.current_edge_index {
            None => None,
            Some(edge_index) => {
                proof {
                    lemma_walk_step(edge_ends(self.edges@), edge_links(self.edges@, true), edge_index.index as nat, true);
                }
                let ghost before = self.remaining();
                let next = self.edges[edge_index.get_index()].next_outbound_edge;
                self.current_edge_index = next;
                assert(self.remaining() =~= before.drop_first());
                Some(edge_index)
            },
        }
    }
}

impl InEdges {
    pub closed spec fn wf(&self) -> bool {
        &&& edges_wf(self.edges@)
        &&& self.current_edge_index matches Some(e) ==> e.index < self.edges@.len()
    }

    /// The edges still to come.
    pub closed spec fn remaining(&self) -> Seq<EdgeIndex> {
        handles(walk(edge_ends(self.edges@), link(self.current_edge_index), false))
    }

    /// Walks the rest of the chain and counts its edges.
    pub fn count(self) -> (r: usize)
        requires
            self.wf(),
        ensures
            r == self.remaining().len(),
    {
        let mut it = self;
        let mut count: usize = 0;
        let total: usize = it.edges.len();
        proof {
            lemma_walk_len(edge_ends(it.edges@), link(it.current_edge_index), false);
        }
        loop
            invariant
                it.wf(),
                count + it.remaining().len() == self.remaining().len(),
                self.remaining().len() <= total,
            decreases it.remaining().len(),
        {
            match it.next() {
                None => {
                    return count;
                },
                Some(_) => {
                    count = count + 1;
                },
            }
        }
    }

    pub fn next(&mut self) -> (r: Option<EdgeIndex>)
        requires
            old(self).wf(),
        ensures
            final(self).wf(),
            old(self).remaining().len() == 0 ==> r.is_none() && final(self).remaining().len() == 0,
            old(self).remaining().len() > 0 ==> r == Some(old(self).remaining()[0])
                && final(self).remaining() == old(self).remaining().drop_first(),
    {
        match self.current_edge_index {
            None => None,
            Some(edge_index) => {
                proof {
                    lemma_walk_step(edge_ends(self.edges@), edge_links(self.edges@, false), edge_index.index as nat, false);
                }
                let ghost before = self.remaining();
                let next = self.edges[edge_index.get_index()].next_inbound_edge;
                self.current_edge_index = next;
                assert(self.remaining() =~= before.drop_first());
                Some(edge_index)
            },
        }
    }
}

impl Graph {
    /// Edges as (source, target) pairs, in insertion order.
    pub closed spec fn ends(&self) -> Seq<(nat, nat)> {
        edge_ends(self.edges@)
    }

    pub closed spec fn node_count(&self) -> nat {
        self.nodes@.len()
    }

    pub closed spec fn edge_count(&self) -> nat {
        self.edges@.len()
    }

    pub closed spec fn wf(&self) -> bool {
        &&& edges_wf(self.edges@)
        &&& heads_ok(self.ends(), vertex_heads(self.nodes@, true), true)
        &&& heads_ok(self.ends(), vertex_heads(self.nodes@, false), false)
        &&& ends_below(self.ends(), self.node_count())
    }

    /// The outbound edges of `n`, most recently added first.
    pub open spec fn out_list(&self, n: nat) -> Seq<EdgeIndex> {
        handles(incident(self.ends(), n, true))
    }

    /// The inbound edges of `n`, most recently added first.
    pub open spec fn in_list(&self, n: nat) -> Seq<EdgeIndex> {
        handles(incident(self.ends(), n, false))
    }

    pub closed spec fn stored_edge(&self, i: int) -> KernelEdge {
        self.edges@[i]
    }

    pub closed spec fn stored_vertex(&self, i: int) -> VertexData<EdgeIndex> {
        self.nodes@[i]
    }

    /// The endpoints in the model are those of the stored edge.
    pub proof fn lemma_stored_ends(&self, i: int)
        requires
            0 <= i < self.edge_count(),
        ensures
            self.ends()[i] == (self.stored_edge(i).source.index as nat, self.stored_edge(i).target.index as nat),
            self.ends().len() == self.edge_count(),
    {
    }

    pub proof fn lemma_empty_ends(&self)
        requires
            self.edge_count() == 0,
        ensures
            self.ends() == Seq::<(nat, nat)>::empty(),
    {
        assert(self.ends() =~= Seq::empty());
    }

    pub fn new() -> (r: Self)
        ensures
            r.wf(),
            r.node_count() == 0,
            r.edge_count() == 0,
            r.ends() == Seq::<(nat, nat)>::empty(),
    {
        let g = Graph { nodes: Vec::new(), edges: Vec::new() };
        assert(g.ends() =~= Seq::empty());
        g
    }

    pub fn add_vertex(&mut self) -> (r: NodeIndex)
        requires
            old(self).wf(),
        ensures
            final(self).wf(),
            r.index == old(self).node_count(),
            final(self).node_count() == old(self).node_count() + 1,
            final(self).ends() == old(self).ends(),
            final(self).edge_count() == old(self).edge_count(),
            forall|i: int| 0 <= i < old(self).edge_count() ==> final(self).stored_edge(i) == old(self).stored_edge(i),
            final(self).stored_vertex(r.index as int).first_outbound_edge.is_none(),
            final(self).stored_vertex(r.index as int).first_inbound_edge.is_none(),
            forall|i: int| 0 <= i < old(self).node_count() ==> final(self).stored_vertex(i) == old(self).stored_vertex(i),
            final(self).out_list(r.index as nat) == Seq::<EdgeIndex>::empty(),
            final(self).in_list(r.index as nat) == Seq::<EdgeIndex>::empty(),
    {
        let index = self.nodes.len();
        self.nodes.push(VertexData::<EdgeIndex> { first_outbound_edge: None, first_inbound_edge: None });
        proof {
            assert(vertex_heads(self.nodes@, true) =~= vertex_heads(old(self).nodes@, true).push(None));
            assert(vertex_heads(self.nodes@, false) =~= vertex_heads(old(self).nodes@, false).push(None));
            lemma_heads_fresh(self.ends(), vertex_heads(old(self).nodes@, true), true);
            lemma_heads_fresh(self.ends(), vertex_heads(old(self).nodes@, false), false);
            lemma_incident_absent(self.ends(), index as nat, true);
            lemma_incident_absent(self.ends(), index as nat, false);
            assert(self.out_list(index as nat) =~= Seq::<EdgeIndex>::empty());
            assert(self.in_list(index as nat) =~= Seq::<EdgeIndex>::empty());
        }
        NodeIndex::new(index)
    }

    /// The vertex record: each head is the newest edge of its chain, which
    /// is the first that a walk of that chain yields.
    pub fn get_vertex(&self, id: NodeIndex) -> (r: &VertexData<EdgeIndex>)
        requires
            self.wf(),
            id.index < self.node_count(),
        ensures
            *r == self.stored_vertex(id.index as int),
            link(r.first_outbound_edge) == newest(self.ends(), id.index as nat, true),
            link(r.first_inbound_edge) == newest(self.ends(), id.index as nat, false),
            r.first_outbound_edge == (if self.out_list(id.index as nat).len() == 0 {
                None
            } else {
                Some(self.out_list(id.index as nat)[0])
            }),
            r.first_inbound_edge == (if self.in_list(id.index as nat).len() == 0 {
                None
            } else {
                Some(self.in_list(id.index as nat)[0])
            }),
    {
        proof {
            let n = id.index as nat;
            assert(vertex_heads(self.nodes@, true)[n as int] == newest(self.ends(), n, true));
            assert(vertex_heads(self.nodes@, false)[n as int] == newest(self.ends(), n, false));
            lemma_newest_starts_chain(self.ends(), n, true);
            lemma_newest_starts_chain(self.ends(), n, false);
        }
        &self.nodes[id.get_index()]
    }

    /// The edge record: its ends, and links to the newest earlier edge with
    /// the same source and with the same target.
    pub fn get_edge(&self, id: EdgeIndex) -> (r: &KernelEdge)
        requires
            self.wf(),
            id.index < self.edge_count(),
        ensures
            *r == self.stored_edge(id.index as int),
            (r.source.index as nat, r.target.index as nat) == self.ends()[id.index as int],
            link(r.next_outbound_edge) == newest(self.ends().take(id.index as int), r.source.index as nat, true),
            link(r.next_inbound_edge) == newest(self.ends().take(id.index as int), r.target.index as nat, false),
    {
        proof {
            let i = id.index as int;
            assert(edge_links(self.edges@, true)[i] == newest(self.ends().take(i), end_of(self.ends()[i], true), true));
            assert(edge_links(self.edges@, false)[i] == newest(self.ends().take(i), end_of(self.ends()[i], false), false));
        }
        &self.edges[id.get_index()]
    }
}

impl Graph {
    pub fn add_edge(&mut self, source: NodeIndex, target: NodeIndex) -> (r: EdgeIndex)
        requires
            old(self).wf(),
            source.index < old(self).node_count(),
            target.index < old(self).node_count(),
        ensures
            final(self).wf(),
            r.index == old(self).edge_count(),
            final(self).node_count() == old(self).node_count(),
            final(self).edge_count() == old(self).edge_count() + 1,
            final(self).ends() == old(self).ends().push((source.index as nat, target.index as nat)),
            final(self).stored_edge(r.index as int) == (EdgeData {
                source: source,
                target: target,
                next_outbound_edge: old(self).stored_vertex(source.index as int).first_outbound_edge,
                next_inbound_edge: old(self).stored_vertex(target.index as int).first_inbound_edge,
            }),
            forall|i: int| 0 <= i < old(self).edge_count() ==> final(self).stored_edge(i) == old(self).stored_edge(i),
            final(self).stored_vertex(source.index as int).first_outbound_edge == Some(r),
            final(self).stored_vertex(target.index as int).first_inbound_edge == Some(r),
            forall|n: int|
                0 <= n < old(self).node_count() && n != source.index ==> #[trigger] final(self).stored_vertex(n).first_outbound_edge == old(self).stored_vertex(n).first_outbound_edge,
            forall|n: int|
                0 <= n < old(self).node_count() && n != target.index ==> #[trigger] final(self).stored_vertex(n).first_inbound_edge == old(self).stored_vertex(n).first_inbound_edge,
    {
        let index = self.edges.len();
        let ghost before_ends = self.ends();
        let ghost before_nodes = self.nodes@;
        let next_outbound_edge = self.nodes[source.get_index()].first_outbound_edge;
        let next_inbound_edge = self.nodes[target.get_index()].first_inbound_edge;
        self.edges.push(
            EdgeData {
                source: source,
                target: target,
                next_inbound_edge: next_inbound_edge,
                next_outbound_edge: next_outbound_edge,
            },
        );
        let first_inbound_edge = self.nodes[source.get_index()].first_inbound_edge;
        self.nodes.set(
            source.get_index(),
            VertexData { first_outbound_edge: Some(EdgeIndex::new(index)), first_inbound_edge: first_inbound_edge },
        );
        let first_outbound_edge = self.nodes[target.get_index()].first_outbound_edge;
        self.nodes.set(
            target.get_index(),
            VertexData { first_outbound_edge: first_outbound_edge, first_inbound_edge: Some(EdgeIndex::new(index)) },
        );
        proof {
            let x = (source.index as nat, target.index as nat);
            assert(self.ends() =~= before_ends.push(x));
            assert(vertex_heads(before_nodes, true)[x.0 as int] == newest(before_ends, x.0, true));
            assert(vertex_heads(before_nodes, false)[x.1 as int] == newest(before_ends, x.1, false));
            lemma_links_push(before_ends, edge_links(old(self).edges@, true), x, true);
            lemma_links_push(before_ends, edge_links(old(self).edges@, false), x, false);
            assert(edge_links(self.edges@, true) =~= edge_links(old(self).edges@, true).push(newest(before_ends, x.0, true)));
            assert(edge_links(self.edges@, false) =~= edge_links(old(self).edges@, false).push(newest(before_ends, x.1, false)));
            assert(vertex_heads(self.nodes@, true) =~= vertex_heads(before_nodes, true).update(x.0 as int, Some(before_ends.len())));
            assert(vertex_heads(self.nodes@, false) =~= vertex_heads(before_nodes, false).update(x.1 as int, Some(before_ends.len())));
            lemma_heads_push(before_ends, x, vertex_heads(before_nodes, true), true);
            lemma_heads_push(before_ends, x, vertex_heads(before_nodes, false), false);
            assert(ends_below(self.ends(), self.node_count()));
        }
        EdgeIndex::new(index)
    }
}

impl Graph {
    pub fn out_edges(&self, source: &NodeIndex) -> (r: OutEdges)
        requires
            self.wf(),
            source.index < self.node_count(),
        ensures
            r.wf(),
            r.remaining() == self.out_list(source.index as nat),
    {
        let first_outbound_edge = self.nodes[source.get_index()].first_outbound_edge;
        let it = OutEdges { edges: self.copy_edges(), current_edge_index: first_outbound_edge };
        proof {
            assert(vertex_heads(self.nodes@, true)[source.index as int] == newest(self.ends(), source.index as nat, true));
            lemma_newest_starts_chain(self.ends(), source.index as nat, true);
        }
        it
    }

    pub fn in_edges(&self, target: &NodeIndex) -> (r: InEdges)
        requires
            self.wf(),
            target.index < self.node_count(),
        ensures
            r.wf(),
            r.remaining() == self.in_list(target.index as nat),
    {
        let first_inbound_edge = self.nodes[target.get_index()].first_inbound_edge;
        let it = InEdges { edges: self.copy_edges(), current_edge_index: first_inbound_edge };
        proof {
            assert(vertex_heads(self.nodes@, false)[target.index as int] == newest(self.ends(), target.index as nat, false));
            lemma_newest_starts_chain(self.ends(), target.index as nat, false);
        }
        it
    }

    /// A copy of the edge array, for a walk that owns its edges.
    fn copy_edges(&self) -> (r: Vec<KernelEdge>)
        ensures
            r@ == self.edges@,
    {
        let mut r: Vec<KernelEdge> = Vec::new();
        let mut i: usize = 0;
        while i < self.edges.len()
            invariant
                i <= self.edges@.len(),
                r@ == self.edges@.take(i as int),
            decreases self.edges@.len() - i,
        {
            r.push(self.edges[i]);
            i = i + 1;
            assert(r@ =~= self.edges@.take(i as int));
        }
        assert(self.edges@.take(i as int) =~= self.edges@);
        r
    }

    pub fn get_nodes(&self) -> (r: &Vec<VertexData<EdgeIndex>>)
        ensures
            r@.len() == self.node_count(),
            forall|i: int| 0 <= i < r@.len() ==> r@[i] == self.stored_vertex(i),
    {
        &self.nodes
    }

    pub fn get_edges(&self) -> (r: &Vec<KernelEdge>)
        ensures
            r@.len() == self.edge_count(),
            forall|i: int| 0 <= i < r@.len() ==> r@[i] == self.stored_edge(i),
    {
        &self.edges
    }
}

impl GraphTrait<NodeIndex, EdgeIndex> for Graph {
    open spec fn graph_wf(&self) -> bool {
        self.wf()
    }

    open spec fn has_node(&self, n: NodeIndex) -> bool {
        n.index < self.node_count()
    }

    open spec fn has_edge(&self, e: EdgeIndex) -> bool {
        e.index < self.edge_count()
    }

    open spec fn spec_nodes_len(&self) -> nat {
        self.node_count()
    }

    open spec fn spec_edges_len(&self) -> nat {
        self.edge_count()
    }

    open spec fn spec_nodes_ids(&self) -> Seq<NodeIndex> {
        Seq::new(self.node_count(), |i: int| NodeIndex { index: i as usize })
    }

    open spec fn spec_out_edges(&self, n: NodeIndex) -> Seq<EdgeIndex> {
        self.out_list(n.index as nat)
    }

    open spec fn spec_in_edges(&self, n: NodeIndex) -> Seq<EdgeIndex> {
        self.in_list(n.index as nat)
    }

    open spec fn spec_source(&self, e: EdgeIndex) -> NodeIndex {
        self.stored_edge(e.index as int).source
    }

    open spec fn spec_target(&self, e: EdgeIndex) -> NodeIndex {
        self.stored_edge(e.index as int).target
    }

    fn get_source_index(&self, edge_index: &EdgeIndex) -> (r: NodeIndex) {
        self.edges[edge_index.get_index()].source
    }

    fn get_target_index(&self, edge_index: &EdgeIndex) -> (r: NodeIndex) {
        self.edges[edge_index.get_index()].target
    }

    fn nodes_len(&self) -> (r: usize) {
        self.nodes.len()
    }

    fn edges_len(&self) -> (r: usize) {
        self.edges.len()
    }

    fn get_nodes_ids(&self) -> (r: Vec<NodeIndex>) {
        let mut r: Vec<NodeIndex> = Vec::new();
        let mut i: usize = 0;
        while i < self.nodes.len()
            invariant
                i <= self.nodes@.len(),
                r@ == self.spec_nodes_ids().take(i as int),
            decreases self.nodes@.len() - i,
        {
            r.push(NodeIndex::new(i));
            i = i + 1;
            assert(r@ =~= self.spec_nodes_ids().take(i as int));
        }
        assert(self.spec_nodes_ids().take(i as int) =~= self.spec_nodes_ids());
        r
    }

    fn in_degree(&self, node: &NodeIndex) -> (r: usize) {
        self.in_edges(node).count()
    }

    fn out_degree(&self, node: &NodeIndex) -> (r: usize) {
        self.out_edges(node).count()
    }
}

/// Edges added one after another from the same source are walked from that
/// source in the reverse of the order they were added, ahead of its older edges.
pub proof fn lemma_out_edges_reverse_insertion(before: Graph, after: Graph, extra: Seq<(nat, nat)>, source: nat)
    requires
        after.ends() == before.ends() + extra,
        forall|j: int| 0 <= j < extra.len() ==> (#[trigger] extra[j]).0 == source,
    ensures
        after.out_list(source) == handles(
            Seq::new(extra.len(), |j: int| (before.edge_count() + extra.len() - 1 - j) as nat),
        ) + before.out_list(source),
{
    lemma_chain_reverse(before.ends(), extra, source, true);
    let fresh = Seq::new(extra.len(), |j: int| (before.ends().len() + extra.len() - 1 - j) as nat);
    assert(handles(fresh + incident(before.ends(), source, true)) =~= handles(fresh) + handles(
        incident(before.ends(), source, true),
    ));
}

/// Adding an edge adds one to the out-degree of its source and one to the
/// in-degree of its target, and leaves every other degree as it was.
pub proof fn lemma_degrees_after_add_edge(before: Graph, after: Graph, source: nat, target: nat, n: nat)
    requires
        after.ends() == before.ends().push((source, target)),
    ensures
        after.out_list(n).len() == before.out_list(n).len() + (if n == source {
            1int
        } else {
            0int
        }),
        after.in_list(n).len() == before.in_list(n).len() + (if n == target {
            1int
        } else {
            0int
        }),
{
    lemma_push(before.ends(), (source, target), n, true);
    lemma_push(before.ends(), (source, target), n, false);
}

} // verus!
