//! Traversal steps as the bytecode producer hands them over, and the values
//! they carry.
use vstd::prelude::*;
use crate::model::PropertyValue;

verus! {

#[derive(Clone, Debug)]
pub enum GValue {
    Null,
    Bool(bool),
    Int32(i32),
    Int64(i64),
    String(String),
}

#[derive(Clone, Debug)]
pub struct GVertex {
    pub id: GValue,
    pub label: String,
}

/// An identity given either as a scalar or as an already resolved vertex.
#[derive(Clone, Debug)]
pub enum GValueOrVertex {
    Value(GValue),
    Vertex(GVertex),
}

/// One unit of a traversal.
#[derive(Debug)]
pub enum GStep {
    /// No previous or next step.
    Empty,
    V(Option<GValueOrVertex>),
    OutE(Vec<String>),
    AddE(String),
    AddV(String),
    As(String),
    /// Nested step sequences.
    Match(Vec<Vec<GStep>>),
    /// Sets a named property on the current element.
    Property(String, GValue),
}

/// The value as a vertex identity: a non-negative integer.
pub open spec fn gvalue_id(v: GValue) -> Option<u64> {
    match v {
        GValue::Int32(i) => if i >= 0 {
            Some(i as u64)
        } else {
            None
        },
        GValue::Int64(i) => if i >= 0 {
            Some(i as u64)
        } else {
            None
        },
        _ => None,
    }
}

/// The vertex identity that an identity argument names, if any.
pub open spec fn identity_of(gid: Option<GValueOrVertex>) -> Option<u64> {
    match gid {
        Some(GValueOrVertex::Value(v)) => gvalue_id(v),
        Some(GValueOrVertex::Vertex(vertex)) => gvalue_id(vertex.id),
        None => None,
    }
}

pub fn gvalue_to_id(v: &GValue) -> (r: Option<u64>)
    ensures
        r == gvalue_id(*v),
{
    match v {
        GValue::Int32(i) => if *i >= 0 {
            Some(*i as u64)
        } else {
            None
        },
        GValue::Int64(i) => if *i >= 0 {
            Some(*i as u64)
        } else {
            None
        },
        _ => None,
    }
}

/// The property value that a traversal value stands for.
pub open spec fn prop_value_of(v: GValue) -> PropertyValue {
    match v {
        GValue::Null => PropertyValue::PNull,
        GValue::Bool(b) => PropertyValue::PBool(b),
        GValue::Int32(i) => PropertyValue::PInteger(i as i64),
        GValue::Int64(i) => PropertyValue::PInteger(i),
        GValue::String(s) => PropertyValue::PString(s),
    }
}

pub fn prop_value_from_gremlin_value(v: &GValue) -> (r: PropertyValue)
    ensures
        r == prop_value_of(*v),
{
    match v {
        GValue::Null => PropertyValue::PNull,
        GValue::Bool(b) => PropertyValue::PBool(*b),
        GValue::Int32(i) => PropertyValue::PInteger(*i as i64),
        GValue::Int64(i) => PropertyValue::PInteger(*i),
        GValue::String(s) => PropertyValue::PString(s.clone()),
    }
}

} // verus!
