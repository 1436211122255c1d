//! The traversal state machine's shared context, its states, and what the
//! vertex-arrival step does to the pattern stack.
use vstd::prelude::*;
use crate::gremlin::GStep;
use crate::kernel::NodeIndex;
use crate::match_vertex_state::MatchVertexState;
use crate::model::{Node, NodeView, Pattern, PatternView, Relationship, RelationshipView};
use crate::set_property_state::SetPropertyState;

verus! {

#[derive(PartialEq, Eq, Structural, Copy, Clone, Debug)]
pub enum StateError {
    /// A step that the current state cannot take, or pattern context that is missing.
    Invalid,
}

/// The state that handles the next step.
#[derive(Debug)]
pub enum GremlinState {
    MatchVertex(MatchVertexState),
    MatchOutEdge(Vec<String>),
    AliasVertex(String),
    Match(Vec<Vec<GStep>>),
    AddEdge(String),
    SetProperty(SetPropertyState),
    End,
}

/// What a traversal carries from step to step.
pub struct StateContext {
    /// Patterns under construction; the last one is the active one.
    pub patterns: Vec<Pattern>,
    /// The active node of the active pattern.
    pub node_index: Option<NodeIndex>,
    /// The step that led into the current state.
    pub previous_step: GStep,
}

pub open spec fn pattern_views(ps: Seq<Pattern>) -> Seq<PatternView> {
    ps.map_values(|p: Pattern| p@)
}

/// A pattern of one node.
pub open spec fn single_node_pattern(n: NodeView) -> PatternView {
    PatternView { nodes: seq![n], relationships: Seq::empty(), ends: Seq::empty() }
}

/// The pattern with one more node, joined to node `from` by one more relationship.
pub open spec fn extend_pattern(p: PatternView, n: NodeView, rel: RelationshipView, from: nat) -> PatternView {
    PatternView {
        nodes: p.nodes.push(n),
        relationships: p.relationships.push(rel),
        ends: p.ends.push((from, p.nodes.len())),
    }
}

/// Patterns and active node after a node is reached from the active node
/// through a relationship: the active pattern grows by both, and the new node
/// becomes the active one. Without an active node nothing changes; an empty
/// stack, or an active node outside the active pattern, is an error.
pub open spec fn connect_outcome(
    ps: Seq<PatternView>,
    active: Option<NodeIndex>,
    n: NodeView,
    rel: RelationshipView,
) -> Result<(Seq<PatternView>, Option<NodeIndex>), StateError> {
    match active {
        None => Ok((ps, active)),
        Some(from) => if ps.len() == 0 {
            Err(StateError::Invalid)
        } else if from.index >= ps.last().nodes.len() {
            Err(StateError::Invalid)
        } else {
            Ok(
                (
                    ps.update(ps.len() - 1, extend_pattern(ps.last(), n, rel, from.index as nat)),
                    Some(NodeIndex { index: ps.last().nodes.len() as usize }),
                ),
            )
        },
    }
}

impl StateContext {
    pub open spec fn wf(&self) -> bool {
        forall|i: int| 0 <= i < self.patterns@.len() ==> (#[trigger] self.patterns@[i]).wf()
    }

    pub open spec fn views(&self) -> Seq<PatternView> {
        pattern_views(self.patterns@)
    }

    pub fn new() -> (r: Self)
        ensures
            r.wf(),
            r.views() == Seq::<PatternView>::empty(),
            r.node_index.is_none(),
            r.previous_step == GStep::Empty,
    {
        let r = StateContext { patterns: Vec::new(), node_index: None, previous_step: GStep::Empty };
        assert(r.views() =~= Seq::empty());
        r
    }

    /// Starts a new active pattern whose only node is `n`, and makes that
    /// node the active one.
    pub fn init_pattern(&mut self, n: Node)
        requires
            old(self).wf(),
        ensures
            final(self).wf(),
            final(self).views() == old(self).views().push(single_node_pattern(n@)),
            final(self).node_index == Some(NodeIndex { index: 0 }),
            final(self).previous_step == old(self).previous_step,
    {
        let ghost n_view = n@;
        let mut pattern = Pattern::new();
        let nid = pattern.add_node(n);
        self.patterns.push(pattern);
        self.node_index = Some(nid);
        assert(self.views() =~= old(self).views().push(single_node_pattern(n_view))) by {
            assert(self.views().last().nodes =~= seq![n_view]);
        }
    }

    /// Adds `n` to the active pattern, joined to the active node by `rel`,
    /// and makes it the active node.
    pub fn connect_node(&mut self, n: Node, rel: Relationship) -> (r: Result<(), StateError>)
        requires
            old(self).wf(),
        ensures
            final(self).wf(),
            final(self).previous_step == old(self).previous_step,
            match connect_outcome(old(self).views(), old(self).node_index, n@, rel@) {
                Ok((ps, active)) => r is Ok && final(self).views() == ps && final(self).node_index == active,
                Err(e) => r == Err::<(), StateError>(e) && final(self).views() == old(self).views()
                    && final(self).node_index == old(self).node_index,
            },
    {
        match self.node_index {
            None => Ok(()),
            Some(from) => {
                let len = self.patterns.len();
                if len == 0 {
                    return Err(StateError::Invalid);
                }
                let last = len - 1;
                assert(self.patterns@[last as int]@ == old(self).views().last());
                if from.index >= self.patterns[last].nodes_len() {
                    return Err(StateError::Invalid);
                }
                let ghost n_view = n@;
                let ghost rel_view = rel@;
                let nid = self.patterns[last].add_node(n);
                self.patterns[last].add_relationship(rel, from, nid);
                self.node_index = Some(nid);
                assert(self.views() =~= old(self).views().update(
                    last as int,
                    extend_pattern(old(self).views().last(), n_view, rel_view, from.index as nat),
                ));
                Ok(())
            },
        }
    }
}

} // verus!
