//! The state that sets a property on the node a traversal has just added.
use vstd::prelude::*;
use crate::gremlin::{identity_of, prop_value_from_gremlin_value, prop_value_of, GStep, GValue};
use crate::kernel::NodeIndex;
use crate::match_vertex_state::MatchVertexState;
use crate::model::{NodeView, PatternView, Property};
use crate::traversal::{GremlinState, StateContext, StateError};

verus! {

#[derive(Debug)]
pub struct SetPropertyState {
    pub name: String,
    pub value: GValue,
}

/// A copy of a traversal value.
pub fn copy_value(v: &GValue) -> (r: GValue)
    ensures
        r == *v,
{
    match v {
        GValue::Null => GValue::Null,
        GValue::Bool(b) => GValue::Bool(*b),
        GValue::Int32(i) => GValue::Int32(*i),
        GValue::Int64(i) => GValue::Int64(*i),
        GValue::String(s) => GValue::String(s.clone()),
    }
}

/// The pattern with one more property on node `id`.
pub open spec fn with_node_property(p: PatternView, id: nat, prop: Property) -> PatternView {
    PatternView {
        nodes: p.nodes.update(id as int, NodeView { properties: p.nodes[id as int].properties.push(prop), ..p.nodes[id as int] }),
        ..p
    }
}

/// Patterns after a property step: only right after a vertex was added does
/// the active node get the property. An empty stack there, or an active node
/// outside the active pattern, is an error.
pub open spec fn set_property_outcome(
    name: String,
    value: GValue,
    previous: GStep,
    active: Option<NodeIndex>,
    ps: Seq<PatternView>,
) -> Result<Seq<PatternView>, StateError> {
    match previous {
        GStep::AddV(_) => if ps.len() == 0 {
            Err(StateError::Invalid)
        } else {
            match active {
                None => Ok(ps),
                Some(id) => if id.index >= ps.last().nodes.len() {
                    Err(StateError::Invalid)
                } else {
                    Ok(
                        ps.update(
                            ps.len() - 1,
                            with_node_property(
                                ps.last(),
                                id.index as nat,
                                Property { name: name, value: Some(prop_value_of(value)) },
                            ),
                        ),
                    )
                },
            }
        },
        _ => Ok(ps),
    }
}

/// The state that follows a property step, by the next step.
pub open spec fn after_set_property(step: GStep) -> Result<GremlinState, StateError> {
    match step {
        GStep::V(vid) => Ok(GremlinState::MatchVertex(MatchVertexState { vid: identity_of(vid) })),
        GStep::Empty => Ok(GremlinState::End),
        _ => Err(StateError::Invalid),
    }
}

impl SetPropertyState {
    pub fn new(name: &str, value: &GValue) -> (r: Self)
        ensures
            r.name@ == name@,
            r.value == *value,
    {
        SetPropertyState { name: name.to_owned(), value: copy_value(value) }
    }

    pub fn handle_step(&self, step: &GStep, context: &mut StateContext) -> (r: Result<(), StateError>)
        requires
            old(context).wf(),
        ensures
            final(context).wf(),
            final(context).previous_step == old(context).previous_step,
            final(context).node_index == old(context).node_index,
            match set_property_outcome(self.name, self.value, old(context).previous_step, old(context).node_index, old(context).views()) {
                Ok(ps) => r is Ok && final(context).views() == ps,
                Err(e) => r == Err::<(), StateError>(e) && final(context).views() == old(context).views(),
            },
    {
        match &context.previous_step {
            GStep::AddV(_label) => {
                let len = context.patterns.len();
                if len == 0 {
                    return Err(StateError::Invalid);
                }
                let last = len - 1;
                assert(context.patterns@[last as int]@ == old(context).views().last());
                if let Some(nid) = context.node_index {
                    if nid.index >= context.patterns[last].nodes_len() {
                        return Err(StateError::Invalid);
                    }
                    let mut prop = Property::new();
                    prop.name = self.name.clone();
                    prop.value = Some(prop_value_from_gremlin_value(&self.value));
                    let ghost prop_copy = prop;
                    context.patterns[last].add_node_property(nid, prop);
                    assert(context.views() =~= old(context).views().update(
                        last as int,
                        with_node_property(old(context).views().last(), nid.index as nat, prop_copy),
                    ));
                }
                Ok(())
            },
            _ => Ok(()),
        }
    }

    pub fn create_state(&self, step: GStep, context: &mut StateContext) -> (r: Result<GremlinState, StateError>)
        ensures
            *final(context) == *old(context),
            r == after_set_property(step),
    {
        match step {
            GStep::V(vid) => Ok(GremlinState::MatchVertex(MatchVertexState::new(&vid))),
            GStep::Empty => Ok(GremlinState::End),
            _ => Err(StateError::Invalid),
        }
    }
}

} // verus!
