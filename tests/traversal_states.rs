use one_graph::gremlin::{GStep, GValue, GValueOrVertex, GVertex};
use one_graph::kernel::{EdgeIndex, NodeIndex};
use one_graph::match_vertex_state::MatchVertexState;
use one_graph::model::{PropertyValue, Status};
use one_graph::set_property_state::SetPropertyState;
use one_graph::traversal::{GremlinState, StateContext, StateError};

fn knows() -> Vec<String> {
    vec!["KNOWS".to_string()]
}

/// Runs `V(7), As("x")` then an edge step then `V(null)`.
fn two_vertices_through(edge_step: GStep) -> StateContext {
    let mut ctx = StateContext::new();
    let first = MatchVertexState::new(&Some(GValueOrVertex::Value(GValue::Int64(7))));
    assert_eq!(first.vid, Some(7));
    assert_eq!(first.handle_step(&GStep::V(None), &mut ctx), Ok(()));
    ctx.previous_step = GStep::As("x".to_string());
    ctx.previous_step = edge_step;
    let second = MatchVertexState::new(&Some(GValueOrVertex::Value(GValue::Null)));
    assert_eq!(second.vid, None);
    assert_eq!(second.handle_step(&GStep::V(None), &mut ctx), Ok(()));
    ctx
}

#[test]
fn out_edge_step_gives_a_match_relationship() {
    let ctx = two_vertices_through(GStep::OutE(knows()));
    assert_eq!(ctx.patterns.len(), 1);
    let p = &ctx.patterns[0];
    assert_eq!(p.nodes_len(), 2);
    assert_eq!(p.relationships_len(), 1);
    let rel = p.get_relationship(EdgeIndex::new(0));
    assert_eq!(rel.labels, knows());
    assert_eq!(rel.status, Status::Match);
    assert_eq!(p.get_relationship_ends(EdgeIndex::new(0)), (NodeIndex::new(0), NodeIndex::new(1)));
    assert_eq!(p.get_node(NodeIndex::new(0)).id, Some(7));
    assert_eq!(p.get_node(NodeIndex::new(0)).status, Status::Match);
    assert_eq!(p.get_node(NodeIndex::new(1)).id, None);
    assert_eq!(p.get_node(NodeIndex::new(1)).status, Status::Match);
    assert_eq!(ctx.node_index, Some(NodeIndex::new(1)));
}

#[test]
fn add_edge_step_gives_a_create_relationship() {
    let ctx = two_vertices_through(GStep::AddE("KNOWS".to_string()));
    let p = &ctx.patterns[0];
    assert_eq!(p.relationships_len(), 1);
    let rel = p.get_relationship(EdgeIndex::new(0));
    assert_eq!(rel.labels, knows());
    assert_eq!(rel.status, Status::Create);
    assert_eq!(p.get_relationship_ends(EdgeIndex::new(0)), (NodeIndex::new(0), NodeIndex::new(1)));
    assert_eq!(p.get_node(NodeIndex::new(1)).id, None);
}

#[test]
fn alias_starts_a_new_pattern() {
    let mut ctx = StateContext::new();
    let a = MatchVertexState::new(&Some(GValueOrVertex::Value(GValue::Int32(3))));
    a.handle_step(&GStep::V(None), &mut ctx).unwrap();
    ctx.previous_step = GStep::As("y".to_string());
    let vertex = GVertex { id: GValue::Int64(9), label: "person".to_string() };
    let b = MatchVertexState::new(&Some(GValueOrVertex::Vertex(vertex)));
    assert_eq!(b.vid, Some(9));
    b.handle_step(&GStep::V(None), &mut ctx).unwrap();
    assert_eq!(ctx.patterns.len(), 2);
    assert_eq!(ctx.patterns[1].nodes_len(), 1);
    assert_eq!(ctx.patterns[1].get_node(NodeIndex::new(0)).id, Some(9));
    assert_eq!(ctx.node_index, Some(NodeIndex::new(0)));
}

#[test]
fn negative_or_text_identity_is_a_wildcard() {
    assert_eq!(MatchVertexState::new(&Some(GValueOrVertex::Value(GValue::Int64(-1)))).vid, None);
    assert_eq!(MatchVertexState::new(&Some(GValueOrVertex::Value(GValue::String("7".to_string())))).vid, None);
    assert_eq!(MatchVertexState::new(&None).vid, None);
}

#[test]
fn edge_step_without_pattern_is_invalid() {
    let mut ctx = StateContext::new();
    ctx.node_index = Some(NodeIndex::new(0));
    ctx.previous_step = GStep::OutE(knows());
    let v = MatchVertexState::new(&None);
    assert_eq!(v.handle_step(&GStep::V(None), &mut ctx), Err(StateError::Invalid));
    assert_eq!(ctx.patterns.len(), 0);
}

#[test]
fn edge_step_without_active_node_changes_nothing() {
    let mut ctx = StateContext::new();
    ctx.previous_step = GStep::OutE(knows());
    let v = MatchVertexState::new(&None);
    assert_eq!(v.handle_step(&GStep::V(None), &mut ctx), Ok(()));
    assert_eq!(ctx.patterns.len(), 0);
    assert_eq!(ctx.node_index, None);
}

#[test]
fn unrelated_previous_step_is_ignored() {
    let mut ctx = StateContext::new();
    ctx.previous_step = GStep::AddV("person".to_string());
    let v = MatchVertexState::new(&None);
    assert_eq!(v.handle_step(&GStep::V(None), &mut ctx), Ok(()));
    assert_eq!(ctx.patterns.len(), 0);
}

#[test]
fn vertex_state_transitions() {
    let mut ctx = StateContext::new();
    let v = MatchVertexState::new(&None);
    assert!(matches!(v.create_state(GStep::OutE(knows()), &mut ctx), Ok(GremlinState::MatchOutEdge(l)) if l == knows()));
    assert!(matches!(v.create_state(GStep::As("x".to_string()), &mut ctx), Ok(GremlinState::AliasVertex(a)) if a == "x"));
    assert!(matches!(v.create_state(GStep::Match(vec![vec![GStep::Empty]]), &mut ctx), Ok(GremlinState::Match(b)) if b.len() == 1));
    assert!(matches!(v.create_state(GStep::AddE("KNOWS".to_string()), &mut ctx), Ok(GremlinState::AddEdge(l)) if l == "KNOWS"));
    assert_eq!(
        v.create_state(GStep::Property("age".to_string(), GValue::Int64(3)), &mut ctx).err(),
        Some(StateError::Invalid)
    );
    assert_eq!(v.create_state(GStep::Empty, &mut ctx).err(), Some(StateError::Invalid));
    assert_eq!(v.create_state(GStep::V(None), &mut ctx).err(), Some(StateError::Invalid));
}

#[test]
fn property_lands_on_the_added_node() {
    let mut ctx = StateContext::new();
    let v = MatchVertexState::new(&Some(GValueOrVertex::Value(GValue::Int64(1))));
    v.handle_step(&GStep::V(None), &mut ctx).unwrap();
    ctx.previous_step = GStep::AddV("person".to_string());
    let set = SetPropertyState::new("age", &GValue::Int32(42));
    assert_eq!(set.name, "age");
    assert_eq!(set.handle_step(&GStep::Empty, &mut ctx), Ok(()));
    let props = &ctx.patterns[0].get_node(NodeIndex::new(0)).properties;
    assert_eq!(props.len(), 1);
    assert_eq!(props[0].name, "age");
    assert!(matches!(props[0].value, Some(PropertyValue::PInteger(42))));
    let named = SetPropertyState::new("name", &GValue::String("ann".to_string()));
    named.handle_step(&GStep::Empty, &mut ctx).unwrap();
    let props = &ctx.patterns[0].get_node(NodeIndex::new(0)).properties;
    assert_eq!(props.len(), 2);
    assert!(matches!(&props[1].value, Some(PropertyValue::PString(s)) if s == "ann"));
}

#[test]
fn property_needs_a_pattern_after_add_vertex() {
    let mut ctx = StateContext::new();
    ctx.previous_step = GStep::AddV("person".to_string());
    let set = SetPropertyState::new("age", &GValue::Bool(true));
    assert_eq!(set.handle_step(&GStep::Empty, &mut ctx), Err(StateError::Invalid));
}

#[test]
fn property_elsewhere_is_ignored() {
    let mut ctx = StateContext::new();
    let v = MatchVertexState::new(&None);
    v.handle_step(&GStep::V(None), &mut ctx).unwrap();
    ctx.previous_step = GStep::OutE(knows());
    let set = SetPropertyState::new("age", &GValue::Int64(5));
    assert_eq!(set.handle_step(&GStep::Empty, &mut ctx), Ok(()));
    assert_eq!(ctx.patterns[0].get_node(NodeIndex::new(0)).properties.len(), 0);
}

#[test]
fn property_state_transitions() {
    let mut ctx = StateContext::new();
    let set = SetPropertyState::new("age", &GValue::Int64(5));
    assert!(matches!(
        set.create_state(GStep::V(Some(GValueOrVertex::Value(GValue::Int64(4)))), &mut ctx),
        Ok(GremlinState::MatchVertex(MatchVertexState { vid: Some(4) }))
    ));
    assert!(matches!(set.create_state(GStep::Empty, &mut ctx), Ok(GremlinState::End)));
    assert_eq!(set.create_state(GStep::OutE(knows()), &mut ctx).err(), Some(StateError::Invalid));
}
