//! The adjacency graph that walks borrow: handles are plain integers, and the
//! walks read the graph they were started on.
use vstd::prelude::*;
use crate::adjacency::{
    end_of, ends_below, heads_ok, incident, lemma_chain_reverse, lemma_heads_fresh,
    lemma_heads_push, lemma_incident_absent, lemma_incident_members, lemma_links_push,
    lemma_newest_starts_chain, lemma_walk_len, lemma_walk_step, links_ok, newest, walk,
};

verus! {

#[derive(PartialEq, Eq, Structural, Copy, Clone, Debug, Hash)]
pub struct EdgeIndex(pub usize);

#[derive(PartialEq, Eq, Structural, Copy, Clone, Debug, Hash)]
pub struct NodeIndex(pub usize);

pub struct NodeData {
    pub first_outbound_edge: Option<EdgeIndex>,
    pub first_inbound_edge: Option<EdgeIndex>,
}

pub struct EdgeData {
    pub source: NodeIndex,
    pub target: NodeIndex,
    pub next_outbound_edge: Option<EdgeIndex>,
    pub next_inbound_edge: Option<EdgeIndex>,
}

/// An optional edge handle as an optional edge number.
pub open spec fn link(o: Option<EdgeIndex>) -> Option<nat> {
    match o {
        Some(e) => Some(e.0 as nat),
        None => None,
    }
}

/// Edge numbers as handles.
pub open spec fn edge_handles(s: Seq<nat>) -> Seq<EdgeIndex> {
    s.map_values(|i: nat| EdgeIndex(i as usize))
}

/// The node at the chosen end of each numbered edge.
pub open spec fn end_nodes(es: Seq<(nat, nat)>, s: Seq<nat>, outbound: bool) -> Seq<NodeIndex> {
    s.map_values(|i: nat| NodeIndex(end_of(es[i as int], !outbound) as usize))
}

pub open spec fn edge_ends(es: Seq<EdgeData>) -> Seq<(nat, nat)> {
    Seq::new(es.len(), |i: int| (es[i].source.0 as nat, es[i].target.0 as nat))
}

pub open spec fn edge_links(es: Seq<EdgeData>, outbound: bool) -> Seq<Option<nat>> {
    Seq::new(
        es.len(),
        |i: int|
            if outbound {
                link(es[i].next_outbound_edge)
            } else {
                link(es[i].next_inbound_edge)
            },
    )
}

pub open spec fn node_heads(vs: Seq<NodeData>, outbound: bool) -> Seq<Option<nat>> {
    Seq::new(
        vs.len(),
        |i: int|
            if outbound {
                link(vs[i].first_outbound_edge)
            } else {
                link(vs[i].first_inbound_edge)
            },
    )
}

pub struct Graph {
    nodes: Vec<NodeData>,
    edges: Vec<EdgeData>,
}

/// Walks the outbound chain of a node, yielding the targets.
pub struct Successors<'graph> {
    graph: &'graph Graph,
    current_edge_index: Option<EdgeIndex>,
}

/// Walks the inbound chain of a node, yielding the sources.
pub struct Ancestors<'graph> {
    graph: &'graph Graph,
    current_edge_index: Option<EdgeIndex>,
}

/// Walks the outbound chain of a node, yielding the edges.
pub struct OutEdges<'graph> {
    graph: &'graph Graph,
    current_edge_index: Option<EdgeIndex>,
}

/// Walks the inbound chain of a node, yielding the edges.
pub struct InEdges<'graph> {
    graph: &'graph Graph,
    current_edge_index: Option<EdgeIndex>,
}

impl Graph {
    /// Edges as (source, target) pairs, in insertion order.
    pub closed spec fn ends(&self) -> Seq<(nat, nat)> {
        edge_ends(self.edges@)
    }

    pub closed spec fn node_count(&self) -> nat {
        self.nodes@.len()
    }

    pub closed spec fn edge_count(&self) -> nat {
        self.edges@.len()
    }

    pub closed spec fn wf(&self) -> bool {
        &&& links_ok(self.ends(), edge_links(self.edges@, true), true)
        &&& links_ok(self.ends(), edge_links(self.edges@, false), false)
        &&& heads_ok(self.ends(), node_heads(self.nodes@, true), true)
        &&& heads_ok(self.ends(), node_heads(self.nodes@, false), false)
        &&& ends_below(self.ends(), self.node_count())
    }

    pub closed spec fn stored_edge(&self, i: int) -> EdgeData {
        self.edges@[i]
    }

    pub closed spec fn stored_node(&self, i: int) -> NodeData {
        self.nodes@[i]
    }

    /// The outbound edges of `n`, most recently added first.
    pub open spec fn out_list(&self, n: nat) -> Seq<EdgeIndex> {
        edge_handles(incident(self.ends(), n, true))
    }

    /// The inbound edges of `n`, most recently added first.
    pub open spec fn in_list(&self, n: nat) -> Seq<EdgeIndex> {
        edge_handles(incident(self.ends(), n, false))
    }

    /// The targets of the outbound edges of `n`, most recently added first.
    pub open spec fn successor_list(&self, n: nat) -> Seq<NodeIndex> {
        end_nodes(self.ends(), incident(self.ends(), n, true), true)
    }

    /// The sources of the inbound edges of `n`, most recently added first.
    pub open spec fn ancestor_list(&self, n: nat) -> Seq<NodeIndex> {
        end_nodes(self.ends(), incident(self.ends(), n, false), false)
    }
}

impl<'graph> Successors<'graph> {
    pub closed spec fn wf(&self) -> bool {
        &&& self.graph.wf()
        &&& self.current_edge_index matches Some(e) ==> e.0 < self.graph.edge_count()
    }

    /// The numbers of the edges still to walk.
    closed spec fn rest(&self) -> Seq<nat> {
        walk(self.graph.ends(), link(self.current_edge_index), true)
    }

    /// What the walk still yields.
    pub closed spec fn remaining(&self) -> Seq<NodeIndex> {
        end_nodes(self.graph.ends(), self.rest(), true)
    }

    pub fn next(&mut self) -> (r: Option<NodeIndex>)
        requires
            old(self).wf(),
        ensures
            final(self).wf(),
            old(self).remaining().len() == 0 ==> r.is_none() && final(self).remaining().len() == 0,
            old(self).remaining().len() > 0 ==> r == Some(old(self).remaining()[0])
                && final(self).remaining() == old(self).remaining().drop_first(),
    {
        match self.current_edge_index {
            None => None,
            Some(edge_index) => {
                proof {
                    lemma_walk_step(self.graph.ends(), edge_links(self.graph.edges@, true), edge_index.0 as nat, true);
                }
                let ghost before = self.remaining();
                let edge = &self.graph.edges[edge_index.0];
                self.current_edge_index = edge.next_outbound_edge;
                assert(self.remaining() =~= before.drop_first());
                Some(edge.target)
            },
        }
    }

    /// Walks the rest of the chain and gathers what it yields.
    pub fn collect_vec(self) -> (r: Vec<NodeIndex>)
        requires
            self.wf(),
        ensures
            r@ == self.remaining(),
    {
        let mut it = self;
        let mut r: Vec<NodeIndex> = Vec::new();
        loop
            invariant
                it.wf(),
                r@ + it.remaining() == self.remaining(),
            decreases it.remaining().len(),
        {
            let ghost before = it.remaining();
            match it.next() {
                None => {
                    assert(r@ + it.remaining() =~= r@);
                    return r;
                },
                Some(x) => {
                    r.push(x);
                    assert(r@ + it.remaining() =~= self.remaining()) by {
                        assert(before =~= seq![x] + it.remaining());
                    }
                },
            }
        }
    }

    /// Walks the rest of the chain and counts what it yields.
    pub fn count(self) -> (r: usize)
        requires
            self.wf(),
        ensures
            r == self.remaining().len(),
    {
        let mut it = self;
        let mut count: usize = 0;
        let total: usize = it.graph.edges.len();
        proof {
            lemma_walk_len(it.graph.ends(), link(it.current_edge_index), true);
        }
        loop
            invariant
                it.wf(),
                count + it.remaining().len() == self.remaining().len(),
                self.remaining().len() <= total,
            decreases it.remaining().len(),
        {
            match it.next() {
                None => {
                    return count;
                },
                Some(_) => {
                    count = count + 1;
                },
            }
        }
    }
}

impl<'graph> Ancestors<'graph> {
    pub closed spec fn wf(&self) -> bool {
        &&& self.graph.wf()
        &&& self.current_edge_index matches Some(e) ==> e.0 < self.graph.edge_count()
    }

    /// The numbers of the edges still to walk.
    closed spec fn rest(&self) -> Seq<nat> {
        walk(self.graph.ends(), link(self.current_edge_index), false)
    }

    /// What the walk still yields.
    pub closed spec fn remaining(&self) -> Seq<NodeIndex> {
        end_nodes(self.graph.ends(), self.rest(), false)
    }

    pub fn next(&mut self) -> (r: Option<NodeIndex>)
        requires
            old(self).wf(),
        ensures
            final(self).wf(),
            old(self).remaining().len() == 0 ==> r.is_none() && final(self).remaining().len() == 0,
            old(self).remaining().len() > 0 ==> r == Some(old(self).remaining()[0])
                && final(self).remaining() == old(self).remaining().drop_first(),
    {
        match self.current_edge_index {
            None => None,
            Some(edge_index) => {
                proof {
                    lemma_walk_step(self.graph.ends(), edge_links(self.graph.edges@, false), edge_index.0 as nat, false);
                }
                let ghost before = self.remaining();
                let edge = &self.graph.edges[edge_index.0];
                self.current_edge_index = edge.next_inbound_edge;
                assert(self.remaining() =~= before.drop_first());
                Some(edge.source)
            },
        }
    }

    /// Walks the rest of the chain and gathers what it yields.
    pub fn collect_vec(self) -> (r: Vec<NodeIndex>)
        requires
            self.wf(),
        ensures
            r@ == self.remaining(),
    {
        let mut it = self;
        let mut r: Vec<NodeIndex> = Vec::new();
        loop
            invariant
                it.wf(),
                r@ + it.remaining() == self.remaining(),
            decreases it.remaining().len(),
        {
            let ghost before = it.remaining();
            match it.next() {
                None => {
                    assert(r@ + it.remaining() =~= r@);
                    return r;
                },
                Some(x) => {
                    r.push(x);
                    assert(r@ + it.remaining() =~= self.remaining()) by {
                        assert(before =~= seq![x] + it.remaining());
                    }
                },
            }
        }
    }

    /// Walks the rest of the chain and counts what it yields.
    pub fn count(self) -> (r: usize)
        requires
            self.wf(),
        ensures
            r == self.remaining().len(),
    {
        let mut it = self;
        let mut count: usize = 0;
        let total: usize = it.graph.edges.len();
        proof {
            lemma_walk_len(it.graph.ends(), link(it.current_edge_index), false);
        }
        loop
            invariant
                it.wf(),
                count + it.remaining().len() == self.remaining().len(),
                self.remaining().len() <= total,
            decreases it.remaining().len(),
        {
            match it.next() {
                None => {
                    return count;
                },
                Some(_) => {
                    count = count + 1;
                },
            }
        }
    }
}

impl<'graph> OutEdges<'graph> {
    pub closed spec fn wf(&self) -> bool {
        &&& self.graph.wf()
        &&& self.current_edge_index matches Some(e) ==> e.0 < self.graph.edge_count()
    }

    /// The numbers of the edges still to walk.
    closed spec fn rest(&self) -> Seq<nat> {
        walk(self.graph.ends(), link(self.current_edge_index), true)
    }

    /// What the walk still yields.
    pub closed spec fn remaining(&self) -> Seq<EdgeIndex> {
        edge_handles(self.rest())
    }

    pub fn next(&mut self) -> (r: Option<EdgeIndex>)
        requires
            old(self).wf(),
        ensures
            final(self).wf(),
            old(self).remaining().len() == 0 ==> r.is_none() && final(self).remaining().len() == 0,
            old(self).remaining().len() > 0 ==> r == Some(old(self).remaining()[0])
                && final(self).remaining() == old(self).remaining().drop_first(),
    {
        match self.current_edge_index {
            None => None,
            Some(edge_index) => {
                proof {
                    lemma_walk_step(self.graph.ends(), edge_links(self.graph.edges@, true), edge_index.0 as nat, true);
                }
                let ghost before = self.remaining();
                let edge = &self.graph.edges[edge_index.0];
                self.current_edge_index = edge.next_outbound_edge;
                assert(self.remaining() =~= before.drop_first());
                Some(edge_index)
            },
        }
    }

    /// Walks the rest of the chain and gathers what it yields.
    pub fn collect_vec(self) -> (r: Vec<EdgeIndex>)
        requires
            self.wf(),
        ensures
            r@ == self.remaining(),
    {
        let mut it = self;
        let mut r: Vec<EdgeIndex> = Vec::new();
        loop
            invariant
                it.wf(),
                r@ + it.remaining() == self.remaining(),
            decreases it.remaining().len(),
        {
            let ghost before = it.remaining();
            match it.next() {
                None => {
                    assert(r@ + it.remaining() =~= r@);
                    return r;
                },
                Some(x) => {
                    r.push(x);
                    assert(r@ + it.remaining() =~= self.remaining()) by {
                        assert(before =~= seq![x] + it.remaining());
                    }
                },
            }
        }
    }

    /// Walks the rest of the chain and counts what it yields.
    pub fn count(self) -> (r: usize)
        requires
            self.wf(),
        ensures
            r == self.remaining().len(),
    {
        let mut it = self;
        let mut count: usize = 0;
        let total: usize = it.graph.edges.len();
        proof {
            lemma_walk_len(it.graph.ends(), link(it.current_edge_index), true);
        }
        loop
            invariant
                it.wf(),
                count + it.remaining().len() == self.remaining().len(),
                self.remaining().len() <= total,
            decreases it.remaining().len(),
        {
            match it.next() {
                None => {
                    return count;
                },
                Some(_) => {
                    count = count + 1;
                },
            }
        }
    }
}

impl<'graph> InEdges<'graph> {
    pub closed spec fn wf(&self) -> bool {
        &&& self.graph.wf()
        &&& self.current_edge_index matches Some(e) ==> e.0 < self.graph.edge_count()
    }

    /// The numbers of the edges still to walk.
    closed spec fn rest(&self) -> Seq<nat> {
        walk(self.graph.ends(), link(self.current_edge_index), false)
    }

    /// What the walk still yields.
    pub closed spec fn remaining(&self) -> Seq<EdgeIndex> {
        edge_handles(self.rest())
    }

    pub fn next(&mut self) -> (r: Option<EdgeIndex>)
        requires
            old(self).wf(),
        ensures
            final(self).wf(),
            old(self).remaining().len() == 0 ==> r.is_none() && final(self).remaining().len() == 0,
            old(self).remaining().len() > 0 ==> r == Some(old(self).remaining()[0])
                && final(self).remaining() == old(self).remaining().drop_first(),
    {
        match self.current_edge_index {
            None => None,
            Some(edge_index) => {
                proof {
                    lemma_walk_step(self.graph.ends(), edge_links(self.graph.edges@, false), edge_index.0 as nat, false);
                }
                let ghost before = self.remaining();
                let edge = &self.graph.edges[edge_index.0];
                self.current_edge_index = edge.next_inbound_edge;
                assert(self.remaining() =~= before.drop_first());
                Some(edge_index)
            },
        }
    }

    /// Walks the rest of the chain and gathers what it yields.
    pub fn collect_vec(self) -> (r: Vec<EdgeIndex>)
        requires
            self.wf(),
        ensures
            r@ == self.remaining(),
    {
        let mut it = self;
        let mut r: Vec<EdgeIndex> = Vec::new();
        loop
            invariant
                it.wf(),
                r@ + it.remaining() == self.remaining(),
            decreases it.remaining().len(),
        {
            let ghost before = it.remaining();
            match it.next() {
                None => {
                    assert(r@ + it.remaining() =~= r@);
                    return r;
                },
                Some(x) => {
                    r.push(x);
                    assert(r@ + it.remaining() =~= self.remaining()) by {
                        assert(before =~= seq![x] + it.remaining());
                    }
                },
            }
        }
    }

    /// Walks the rest of the chain and counts what it yields.
    pub fn count(self) -> (r: usize)
        requires
            self.wf(),
        ensures
            r == self.remaining().len(),
    {
        let mut it = self;
        let mut count: usize = 0;
        let total: usize = it.graph.edges.len();
        proof {
            lemma_walk_len(it.graph.ends(), link(it.current_edge_index), false);
        }
        loop
            invariant
                it.wf(),
                count + it.remaining().len() == self.remaining().len(),
                self.remaining().len() <= total,
            decreases it.remaining().len(),
        {
            match it.next() {
                None => {
                    return count;
                },
                Some(_) => {
                    count = count + 1;
                },
            }
        }
    }
}

impl Graph {
    pub fn new() -> (r: Self)
        ensures
            r.wf(),
            r.node_count() == 0,
            r.edge_count() == 0,
            r.ends() == Seq::<(nat, nat)>::empty(),
    {
        let g = Graph { nodes: Vec::new(), edges: Vec::new() };
        assert(g.ends() =~= Seq::empty());
        g
    }

    pub fn add_node(&mut self) -> (r: NodeIndex)
        requires
            old(self).wf(),
        ensures
            final(self).wf(),
            r.0 == old(self).node_count(),
            final(self).node_count() == old(self).node_count() + 1,
            final(self).ends() == old(self).ends(),
            final(self).edge_count() == old(self).edge_count(),
            forall|i: int| 0 <= i < old(self).edge_count() ==> final(self).stored_edge(i) == old(self).stored_edge(i),
            final(self).stored_node(r.0 as int).first_outbound_edge.is_none(),
            final(self).stored_node(r.0 as int).first_inbound_edge.is_none(),
            forall|i: int| 0 <= i < old(self).node_count() ==> final(self).stored_node(i) == old(self).stored_node(i),
            final(self).out_list(r.0 as nat) == Seq::<EdgeIndex>::empty(),
            final(self).in_list(r.0 as nat) == Seq::<EdgeIndex>::empty(),
            final(self).successor_list(r.0 as nat) == Seq::<NodeIndex>::empty(),
            final(self).ancestor_list(r.0 as nat) == Seq::<NodeIndex>::empty(),
    {
        let index = self.nodes.len();
        self.nodes.push(NodeData { first_outbound_edge: None, first_inbound_edge: None });
        proof {
            assert(node_heads(self.nodes@, true) =~= node_heads(old(self).nodes@, true).push(None));
            assert(node_heads(self.nodes@, false) =~= node_heads(old(self).nodes@, false).push(None));
            lemma_heads_fresh(self.ends(), node_heads(old(self).nodes@, true), true);
            lemma_heads_fresh(self.ends(), node_heads(old(self).nodes@, false), false);
            lemma_incident_absent(self.ends(), index as nat, true);
            lemma_incident_absent(self.ends(), index as nat, false);
            assert(self.out_list(index as nat) =~= Seq::<EdgeIndex>::empty());
            assert(self.in_list(index as nat) =~= Seq::<EdgeIndex>::empty());
            assert(self.successor_list(index as nat) =~= Seq::<NodeIndex>::empty());
            assert(self.ancestor_list(index as nat) =~= Seq::<NodeIndex>::empty());
        }
        NodeIndex(index)
    }

    pub fn add_edge(&mut self, source: NodeIndex, target: NodeIndex) -> (r: EdgeIndex)
        requires
            old(self).wf(),
            source.0 < old(self).node_count(),
            target.0 < old(self).node_count(),
        ensures
            final(self).wf(),
            r.0 == old(self).edge_count(),
            final(self).node_count() == old(self).node_count(),
            final(self).edge_count() == old(self).edge_count() + 1,
            final(self).ends() == old(self).ends().push((source.0 as nat, target.0 as nat)),
            final(self).stored_edge(r.0 as int) == (EdgeData {
                source: source,
                target: target,
                next_outbound_edge: old(self).stored_node(source.0 as int).first_outbound_edge,
                next_inbound_edge: old(self).stored_node(target.0 as int).first_inbound_edge,
            }),
            forall|i: int| 0 <= i < old(self).edge_count() ==> final(self).stored_edge(i) == old(self).stored_edge(i),
            final(self).stored_node(source.0 as int).first_outbound_edge == Some(r),
            final(self).stored_node(target.0 as int).first_inbound_edge == Some(r),
            forall|n: int|
                0 <= n < old(self).node_count() && n != source.0 ==> #[trigger] final(self).stored_node(n).first_outbound_edge == old(self).stored_node(n).first_outbound_edge,
            forall|n: int|
                0 <= n < old(self).node_count() && n != target.0 ==> #[trigger] final(self).stored_node(n).first_inbound_edge == old(self).stored_node(n).first_inbound_edge,
    {
        let index = self.edges.len();
        let ghost before_ends = self.ends();
        let ghost before_nodes = self.nodes@;
        let next_outbound_edge = self.nodes[source.0].first_outbound_edge;
        let next_inbound_edge = self.nodes[target.0].first_inbound_edge;
        self.edges.push(
            EdgeData {
                source: source,
                target: target,
                next_inbound_edge: next_inbound_edge,
                next_outbound_edge: next_outbound_edge,
            },
        );
        let first_inbound_edge = self.nodes[source.0].first_inbound_edge;
        self.nodes.set(
            source.0,
            NodeData { first_outbound_edge: Some(EdgeIndex(index)), first_inbound_edge: first_inbound_edge },
        );
        let first_outbound_edge = self.nodes[target.0].first_outbound_edge;
        self.nodes.set(
            target.0,
            NodeData { first_outbound_edge: first_outbound_edge, first_inbound_edge: Some(EdgeIndex(index)) },
        );
        proof {
            let x = (source.0 as nat, target.0 as nat);
            assert(self.ends() =~= before_ends.push(x));
            assert(node_heads(before_nodes, true)[x.0 as int] == newest(before_ends, x.0, true));
            assert(node_heads(before_nodes, false)[x.1 as int] == newest(before_ends, x.1, false));
            lemma_links_push(before_ends, edge_links(old(self).edges@, true), x, true);
            lemma_links_push(before_ends, edge_links(old(self).edges@, false), x, false);
            assert(edge_links(self.edges@, true) =~= edge_links(old(self).edges@, true).push(newest(before_ends, x.0, true)));
            assert(edge_links(self.edges@, false) =~= edge_links(old(self).edges@, false).push(newest(before_ends, x.1, false)));
            assert(node_heads(self.nodes@, true) =~= node_heads(before_nodes, true).update(x.0 as int, Some(before_ends.len())));
            assert(node_heads(self.nodes@, false) =~= node_heads(before_nodes, false).update(x.1 as int, Some(before_ends.len())));
            lemma_heads_push(before_ends, x, node_heads(before_nodes, true), true);
            lemma_heads_push(before_ends, x, node_heads(before_nodes, false), false);
            assert(ends_below(self.ends(), self.node_count()));
        }
        EdgeIndex(index)
    }

    proof fn lemma_edge_count_fits(&self)
        ensures
            self.edge_count() <= usize::MAX,
            self.ends().len() == self.edge_count(),
    {
        assert(self.edges@.len() == self.edges.len());
    }

    /// The endpoints in the model are those of the stored edge.
    pub proof fn lemma_stored_ends(&self, i: int)
        requires
            0 <= i < self.edge_count(),
        ensures
            self.ends()[i] == (self.stored_edge(i).source.0 as nat, self.stored_edge(i).target.0 as nat),
            self.ends().len() == self.edge_count(),
    {
    }

    /// The node record: each head is the newest edge of its chain, which is
    /// the first that a walk of that chain yields.
    pub fn get_node(&self, id: NodeIndex) -> (r: &NodeData)
        requires
            self.wf(),
            id.0 < self.node_count(),
        ensures
            *r == self.stored_node(id.0 as int),
            link(r.first_outbound_edge) == newest(self.ends(), id.0 as nat, true),
            link(r.first_inbound_edge) == newest(self.ends(), id.0 as nat, false),
            r.first_outbound_edge == (if self.out_list(id.0 as nat).len() == 0 {
                None
            } else {
                Some(self.out_list(id.0 as nat)[0])
            }),
            r.first_inbound_edge == (if self.in_list(id.0 as nat).len() == 0 {
                None
            } else {
                Some(self.in_list(id.0 as nat)[0])
            }),
    {
        proof {
            self.lemma_head_starts_chain(id.0 as nat, true);
            self.lemma_head_starts_chain(id.0 as nat, false);
            lemma_newest_starts_chain(self.ends(), id.0 as nat, true);
            lemma_newest_starts_chain(self.ends(), id.0 as nat, false);
        }
        &self.nodes[id.0]
    }

    /// The edge record: its ends, and links to the newest earlier edge with
    /// the same source and with the same target.
    pub fn get_edge(&self, id: EdgeIndex) -> (r: &EdgeData)
        requires
            self.wf(),
            id.0 < self.edge_count(),
        ensures
            *r == self.stored_edge(id.0 as int),
            (r.source.0 as nat, r.target.0 as nat) == self.ends()[id.0 as int],
            link(r.next_outbound_edge) == newest(self.ends().take(id.0 as int), r.source.0 as nat, true),
            link(r.next_inbound_edge) == newest(self.ends().take(id.0 as int), r.target.0 as nat, false),
    {
        proof {
            let i = id.0 as int;
            assert(edge_links(self.edges@, true)[i] == newest(self.ends().take(i), end_of(self.ends()[i], true), true));
            assert(edge_links(self.edges@, false)[i] == newest(self.ends().take(i), end_of(self.ends()[i], false), false));
        }
        &self.edges[id.0]
    }

    pub fn successors(&self, source: NodeIndex) -> (r: Successors<'_>)
        requires
            self.wf(),
            source.0 < self.node_count(),
        ensures
            r.wf(),
            r.remaining() == self.successor_list(source.0 as nat),
    {
        let first_outbound_edge = self.nodes[source.0].first_outbound_edge;
        proof {
            self.lemma_head_starts_chain(source.0 as nat, true);
        }
        Successors { graph: self, current_edge_index: first_outbound_edge }
    }

    pub fn ancestors(&self, target: NodeIndex) -> (r: Ancestors<'_>)
        requires
            self.wf(),
            target.0 < self.node_count(),
        ensures
            r.wf(),
            r.remaining() == self.ancestor_list(target.0 as nat),
    {
        let first_inbound_edge = self.nodes[target.0].first_inbound_edge;
        proof {
            self.lemma_head_starts_chain(target.0 as nat, false);
        }
        Ancestors { graph: self, current_edge_index: first_inbound_edge }
    }

    pub fn out_edges(&self, source: NodeIndex) -> (r: OutEdges<'_>)
        requires
            self.wf(),
            source.0 < self.node_count(),
        ensures
            r.wf(),
            r.remaining() == self.out_list(source.0 as nat),
    {
        let first_outbound_edge = self.nodes[source.0].first_outbound_edge;
        proof {
            self.lemma_head_starts_chain(source.0 as nat, true);
        }
        OutEdges { graph: self, current_edge_index: first_outbound_edge }
    }

    pub fn in_edges(&self, target: NodeIndex) -> (r: InEdges<'_>)
        requires
            self.wf(),
            target.0 < self.node_count(),
        ensures
            r.wf(),
            r.remaining() == self.in_list(target.0 as nat),
    {
        let first_inbound_edge = self.nodes[target.0].first_inbound_edge;
        proof {
            self.lemma_head_starts_chain(target.0 as nat, false);
        }
        InEdges { graph: self, current_edge_index: first_inbound_edge }
    }

    proof fn lemma_head_starts_chain(&self, n: nat, outbound: bool)
        requires
            self.wf(),
            n < self.node_count(),
        ensures
            walk(self.ends(), node_heads(self.nodes@, outbound)[n as int], outbound) == incident(self.ends(), n, outbound),
            node_heads(self.nodes@, outbound)[n as int] matches Some(e) ==> e < self.edge_count(),
    {
        assert(node_heads(self.nodes@, outbound)[n as int] == newest(self.ends(), n, outbound));
        lemma_newest_starts_chain(self.ends(), n, outbound);
    }

    pub fn get_nodes(&self) -> (r: &Vec<NodeData>)
        ensures
            r@.len() == self.node_count(),
            forall|i: int| 0 <= i < r@.len() ==> r@[i] == self.stored_node(i),
    {
        &self.nodes
    }

    pub fn get_edges(&self) -> (r: &Vec<EdgeData>)
        ensures
            r@.len() == self.edge_count(),
            forall|i: int| 0 <= i < r@.len() ==> r@[i] == self.stored_edge(i),
    {
        &self.edges
    }
}

/// Edges added one after another from the same source are walked from that
/// source in the reverse of the order they were added, ahead of its older edges.
pub proof fn lemma_out_edges_reverse_insertion(before: Graph, after: Graph, extra: Seq<(nat, nat)>, source: nat)
    requires
        after.ends() == before.ends() + extra,
        forall|j: int| 0 <= j < extra.len() ==> (#[trigger] extra[j]).0 == source,
    ensures
        after.out_list(source) == edge_handles(
            Seq::new(extra.len(), |j: int| (before.edge_count() + extra.len() - 1 - j) as nat),
        ) + before.out_list(source),
{
    lemma_chain_reverse(before.ends(), extra, source, true);
    let fresh = Seq::new(extra.len(), |j: int| (before.ends().len() + extra.len() - 1 - j) as nat);
    assert(edge_handles(fresh + incident(before.ends(), source, true)) =~= edge_handles(fresh) + edge_handles(
        incident(before.ends(), source, true),
    ));
}

/// A node's successors are the targets of its outbound edges, and its
/// ancestors the sources of its inbound edges, in the same order.
pub proof fn lemma_neighbours_are_edge_ends(g: Graph, n: nat)
    ensures
        g.successor_list(n).len() == g.out_list(n).len(),
        g.ancestor_list(n).len() == g.in_list(n).len(),
        forall|j: int|
            0 <= j < g.out_list(n).len() ==> (#[trigger] g.out_list(n)[j]).0 < g.edge_count()
                && g.stored_edge(g.out_list(n)[j].0 as int).source.0 == n
                && g.successor_list(n)[j] == g.stored_edge(g.out_list(n)[j].0 as int).target,
        forall|j: int|
            0 <= j < g.in_list(n).len() ==> (#[trigger] g.in_list(n)[j]).0 < g.edge_count()
                && g.stored_edge(g.in_list(n)[j].0 as int).target.0 == n
                && g.ancestor_list(n)[j] == g.stored_edge(g.in_list(n)[j].0 as int).source,
{
    g.lemma_edge_count_fits();
    lemma_incident_members(g.ends(), n, true);
    lemma_incident_members(g.ends(), n, false);
    let outs = incident(g.ends(), n, true);
    let ins = incident(g.ends(), n, false);
    assert forall|j: int| 0 <= j < g.out_list(n).len() implies (#[trigger] g.out_list(n)[j]).0 < g.edge_count()
        && g.stored_edge(g.out_list(n)[j].0 as int).source.0 == n
        && g.successor_list(n)[j] == g.stored_edge(g.out_list(n)[j].0 as int).target by {
        assert(outs[j] < g.ends().len());
        assert(g.out_list(n)[j].0 as nat == outs[j]);
        g.lemma_stored_ends(outs[j] as int);
    }
    assert forall|j: int| 0 <= j < g.in_list(n).len() implies (#[trigger] g.in_list(n)[j]).0 < g.edge_count()
        && g.stored_edge(g.in_list(n)[j].0 as int).target.0 == n
        && g.ancestor_list(n)[j] == g.stored_edge(g.in_list(n)[j].0 as int).source by {
        assert(ins[j] < g.ends().len());
        assert(g.in_list(n)[j].0 as nat == ins[j]);
        g.lemma_stored_ends(ins[j] as int);
    }
}

} // verus!
