//! The state of a traversal positioned at a vertex that must already exist.
use vstd::prelude::*;
use crate::gremlin::{gvalue_to_id, identity_of, GStep, GValueOrVertex};
use crate::kernel::NodeIndex;
use crate::model::{copy_labels, Node, NodeView, PatternView, Relationship, RelationshipView, Status};
use crate::traversal::{connect_outcome, single_node_pattern, GremlinState, StateContext, StateError};

verus! {

#[derive(Debug)]
pub struct MatchVertexState {
    /// The identity the vertex must have, if one was given.
    pub vid: Option<u64>,
}

/// The pattern node for a vertex to match.
pub open spec fn match_node(vid: Option<u64>) -> NodeView {
    NodeView { id: vid, labels: Seq::empty(), properties: Seq::empty(), status: Status::Match }
}

/// Patterns and active node after a vertex is reached, by the step that led to it.
pub open spec fn match_vertex_outcome(
    vid: Option<u64>,
    previous: GStep,
    active: Option<NodeIndex>,
    ps: Seq<PatternView>,
) -> Result<(Seq<PatternView>, Option<NodeIndex>), StateError> {
    match previous {
        GStep::As(_) => Ok((ps.push(single_node_pattern(match_node(vid))), Some(NodeIndex { index: 0 }))),
        GStep::Empty => Ok((ps.push(single_node_pattern(match_node(vid))), Some(NodeIndex { index: 0 }))),
        GStep::OutE(labels) => connect_outcome(
            ps,
            active,
            match_node(vid),
            RelationshipView { labels: labels@, properties: Seq::empty(), status: Status::Match },
        ),
        GStep::AddE(label) => connect_outcome(
            ps,
            active,
            match_node(vid),
            RelationshipView { labels: seq![label], properties: Seq::empty(), status: Status::Create },
        ),
        _ => Ok((ps, active)),
    }
}

/// The state that follows a vertex, by the next step.
pub open spec fn after_match_vertex(step: GStep) -> Result<GremlinState, StateError> {
    match step {
        GStep::OutE(labels) => Ok(GremlinState::MatchOutEdge(labels)),
        GStep::As(alias) => Ok(GremlinState::AliasVertex(alias)),
        GStep::Match(bytecodes) => Ok(GremlinState::Match(bytecodes)),
        GStep::AddE(label) => Ok(GremlinState::AddEdge(label)),
        _ => Err(StateError::Invalid),
    }
}

impl MatchVertexState {
    pub fn new(gid: &Option<GValueOrVertex>) -> (r: Self)
        ensures
            r.vid == identity_of(*gid),
    {
        let vid = match gid {
            Some(GValueOrVertex::Value(v)) => gvalue_to_id(v),
            Some(GValueOrVertex::Vertex(vertex)) => gvalue_to_id(&vertex.id),
            None => None,
        };
        MatchVertexState { vid: vid }
    }

    pub fn handle_step(&self, step: &GStep, context: &mut StateContext) -> (r: Result<(), StateError>)
        requires
            old(context).wf(),
        ensures
            final(context).wf(),
            final(context).previous_step == old(context).previous_step,
            match match_vertex_outcome(self.vid, old(context).previous_step, old(context).node_index, old(context).views()) {
                Ok((ps, active)) => r is Ok && final(context).views() == ps && final(context).node_index == active,
                Err(e) => r == Err::<(), StateError>(e) && final(context).views() == old(context).views()
                    && final(context).node_index == old(context).node_index,
            },
    {
        let mut n = Node::new();
        n.set_id(self.vid);
        n.set_status(Status::Match);
        proof {
            assert(n@.labels =~= Seq::empty());
        }
        match &context.previous_step {
            GStep::As(_alias) => {
                context.init_pattern(n);
                Ok(())
            },
            GStep::Empty => {
                context.init_pattern(n);
                Ok(())
            },
            GStep::OutE(labels) => {
                let mut rel = Relationship::new();
                rel.set_labels(copy_labels(labels));
                rel.set_status(Status::Match);
                context.connect_node(n, rel)
            },
            GStep::AddE(label) => {
                let mut rel = Relationship::new();
                let mut labels: Vec<String> = Vec::new();
                labels.push(label.clone());
                proof {
                    assert(labels@ =~= seq![*label]);
                }
                rel.set_labels(labels);
                rel.set_status(Status::Create);
                context.connect_node(n, rel)
            },
            _ => Ok(()),
        }
    }

    pub fn create_state(&self, step: GStep, context: &mut StateContext) -> (r: Result<GremlinState, StateError>)
        ensures
            *final(context) == *old(context),
            r == after_match_vertex(step),
    {
        match step {
            GStep::OutE(labels) => Ok(GremlinState::MatchOutEdge(labels)),
            GStep::As(alias) => Ok(GremlinState::AliasVertex(alias)),
            GStep::Match(bytecodes) => Ok(GremlinState::Match(bytecodes)),
            GStep::AddE(label) => Ok(GremlinState::AddEdge(label)),
            _ => Err(StateError::Invalid),
        }
    }
}

/// A vertex reached through an edge-matching step joins the active pattern
/// through exactly one new relationship from the active node, carrying the
/// step's labels and tagged Match; reached through an edge-creating step, the
/// relationship is tagged Create. The new vertex carries the identity it was
/// given (none for a wildcard) and becomes the active node; the other
/// patterns stay as they were.
pub proof fn lemma_edge_step_tags_relationship(
    vid: Option<u64>,
    previous: GStep,
    from: NodeIndex,
    ps: Seq<PatternView>,
)
    requires
        previous is OutE || previous is AddE,
        ps.len() > 0,
        from.index < ps.last().nodes.len(),
    ensures
        match_vertex_outcome(vid, previous, Some(from), ps) matches Ok((qs, active)) && {
            &&& qs.len() == ps.len()
            &&& qs.drop_last() == ps.drop_last()
            &&& qs.last().nodes == ps.last().nodes.push(match_node(vid))
            &&& qs.last().nodes.last().id == vid
            &&& qs.last().relationships.len() == ps.last().relationships.len() + 1
            &&& qs.last().relationships.drop_last() == ps.last().relationships
            &&& qs.last().ends.drop_last() == ps.last().ends
            &&& qs.last().ends.last() == (from.index as nat, ps.last().nodes.len())
            &&& qs.last().relationships.last().status == (if previous is OutE {
                Status::Match
            } else {
                Status::Create
            })
            &&& qs.last().relationships.last().labels == match previous {
                GStep::OutE(labels) => labels@,
                GStep::AddE(label) => seq![label],
                _ => Seq::empty(),
            }
            &&& active == Some(NodeIndex { index: ps.last().nodes.len() as usize })
        },
{
    if let Ok((qs, _)) = match_vertex_outcome(vid, previous, Some(from), ps) {
        assert(qs.drop_last() =~= ps.drop_last());
        assert(qs.last().relationships.drop_last() =~= ps.last().relationships);
        assert(qs.last().ends.drop_last() =~= ps.last().ends);
    }
}

} // verus!
