use vstd::prelude::*;

verus! {

/// A handle that addresses a slot of a dense array.
pub trait MemGraphId {
    spec fn spec_index(&self) -> nat;

    fn get_index(&self) -> (r: usize)
        ensures
            r as nat == self.spec_index(),
    ;
}

/// Forward and backward traversal over a graph of handles.
pub trait GraphTrait<NodeId: MemGraphId, EdgeId: MemGraphId> {
    spec fn graph_wf(&self) -> bool;

    spec fn has_node(&self, n: NodeId) -> bool;

    spec fn has_edge(&self, e: EdgeId) -> bool;

    spec fn spec_nodes_len(&self) -> nat;

    spec fn spec_edges_len(&self) -> nat;

    /// The nodes, in creation order.
    spec fn spec_nodes_ids(&self) -> Seq<NodeId>;

    /// The outbound edges of a node, in the order a walk yields them.
    spec fn spec_out_edges(&self, n: NodeId) -> Seq<EdgeId>;

    /// The inbound edges of a node, in the order a walk yields them.
    spec fn spec_in_edges(&self, n: NodeId) -> Seq<EdgeId>;

    spec fn spec_source(&self, e: EdgeId) -> NodeId;

    spec fn spec_target(&self, e: EdgeId) -> NodeId;

    fn get_source_index(&self, edge_index: &EdgeId) -> (r: NodeId)
        requires
            self.graph_wf(),
            self.has_edge(*edge_index),
        ensures
            r == self.spec_source(*edge_index),
    ;

    fn get_target_index(&self, edge_index: &EdgeId) -> (r: NodeId)
        requires
            self.graph_wf(),
            self.has_edge(*edge_index),
        ensures
            r == self.spec_target(*edge_index),
    ;

    fn nodes_len(&self) -> (r: usize)
        ensures
            r == self.spec_nodes_len(),
    ;

    fn edges_len(&self) -> (r: usize)
        ensures
            r == self.spec_edges_len(),
    ;

    fn get_nodes_ids(&self) -> (r: Vec<NodeId>)
        requires
            self.graph_wf(),
        ensures
            r@ == self.spec_nodes_ids(),
    ;

    /// Counts the inbound edges by walking them.
    fn in_degree(&self, node: &NodeId) -> (r: usize)
        requires
            self.graph_wf(),
            self.has_node(*node),
        ensures
            r == self.spec_in_edges(*node).len(),
    ;

    /// Counts the outbound edges by walking them.
    fn out_degree(&self, node: &NodeId) -> (r: usize)
        requires
            self.graph_wf(),
            self.has_node(*node),
        ensures
            r == self.spec_out_edges(*node).len(),
    ;
}

/// A graph whose nodes and edges carry records.
pub trait GraphContainerTrait<NID: MemGraphId, EID: MemGraphId, NODE, RELATIONSHIP>: GraphTrait<NID, EID> {
    spec fn spec_node(&self, id: NID) -> NODE;

    spec fn spec_relationship(&self, id: EID) -> RELATIONSHIP;

    fn get_node_ref(&self, id: &NID) -> (r: &NODE)
        requires
            self.graph_wf(),
            self.has_node(*id),
        ensures
            *r == self.spec_node(*id),
    ;

    fn get_relationship_ref(&self, id: &EID) -> (r: &RELATIONSHIP)
        requires
            self.graph_wf(),
            self.has_edge(*id),
        ensures
            *r == self.spec_relationship(*id),
    ;

    /// The record of a node, to change in place; the topology stays as it is.
    fn get_node_mut(&mut self, id: &NID) -> (r: &mut NODE)
        requires
            old(self).graph_wf(),
            old(self).has_node(*id),
        ensures
            *r == old(self).spec_node(*id),
            final(self).graph_wf(),
            final(self).spec_node(*id) == *final(r),
            forall|m: NID| #[trigger] old(self).has_node(m) && m.spec_index() != id.spec_index() ==> final(self).spec_node(m) == old(self).spec_node(m),
            forall|e: EID| #[trigger] final(self).spec_relationship(e) == old(self).spec_relationship(e),
            forall|n: NID| #[trigger] final(self).has_node(n) == old(self).has_node(n),
            forall|n: NID| #[trigger] final(self).spec_out_edges(n) == old(self).spec_out_edges(n),
            forall|n: NID| #[trigger] final(self).spec_in_edges(n) == old(self).spec_in_edges(n),
    ;

    /// The record of a relationship, to change in place; the topology stays as it is.
    fn get_relationship_mut(&mut self, id: &EID) -> (r: &mut RELATIONSHIP)
        requires
            old(self).graph_wf(),
            old(self).has_edge(*id),
        ensures
            *r == old(self).spec_relationship(*id),
            final(self).graph_wf(),
            final(self).spec_relationship(*id) == *final(r),
            forall|e: EID| #[trigger] old(self).has_edge(e) && e.spec_index() != id.spec_index() ==> final(self).spec_relationship(e) == old(self).spec_relationship(e),
            forall|m: NID| #[trigger] final(self).spec_node(m) == old(self).spec_node(m),
            forall|e: EID| #[trigger] final(self).has_edge(e) == old(self).has_edge(e),
            forall|n: NID| #[trigger] final(self).spec_out_edges(n) == old(self).spec_out_edges(n),
            forall|n: NID| #[trigger] final(self).spec_in_edges(n) == old(self).spec_in_edges(n),
    ;
}

/// A graph that pulls the neighbourhood of a node in from elsewhere on demand.
pub trait GrowableGraph<NodeId: MemGraphId>: Sized {
    /// The node's neighbourhood is already held locally.
    spec fn is_retrieved(&self, n: NodeId) -> bool;

    /// Pulls in the outbound edges of `source`; a no-op once it is retrieved.
    fn retrieve_out_edges(&mut self, source: &NodeId)
        ensures
            old(self).is_retrieved(*source) ==> *final(self) == *old(self),
    ;

    /// Pulls in the inbound edges of `target`; a no-op once it is retrieved.
    fn retrieve_in_edges(&mut self, target: &NodeId)
        ensures
            old(self).is_retrieved(*target) ==> *final(self) == *old(self),
    ;
}

} // verus!
