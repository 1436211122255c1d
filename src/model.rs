//! Pattern graphs: nodes and relationships tagged with whether they must
//! already exist or must be created, laid out on the kernel graph.
use vstd::prelude::*;
use crate::kernel::{EdgeIndex, Graph, NodeIndex};
use crate::traits::GraphTrait;

verus! {

/// Whether a pattern element must already exist or must be created.
#[derive(PartialEq, Eq, Structural, Copy, Clone, Debug)]
pub enum Status {
    Match,
    Create,
}

#[derive(Clone, Debug)]
pub enum PropertyValue {
    PNull,
    PBool(bool),
    PInteger(i64),
    PString(String),
}

#[derive(Clone, Debug)]
pub struct Property {
    pub name: String,
    pub value: Option<PropertyValue>,
}

impl Property {
    pub fn new() -> (r: Self)
        ensures
            r.name@.len() == 0,
            r.value.is_none(),
    {
        Property { name: String::new(), value: None }
    }
}

/// A vertex of a pattern.
pub struct Node {
    pub id: Option<u64>,
    pub labels: Vec<String>,
    pub properties: Vec<Property>,
    pub status: Status,
}

/// An edge of a pattern.
pub struct Relationship {
    pub labels: Vec<String>,
    pub properties: Vec<Property>,
    pub status: Status,
}

pub struct NodeView {
    pub id: Option<u64>,
    pub labels: Seq<String>,
    pub properties: Seq<Property>,
    pub status: Status,
}

pub struct RelationshipView {
    pub labels: Seq<String>,
    pub properties: Seq<Property>,
    pub status: Status,
}

impl View for Node {
    type V = NodeView;

    open spec fn view(&self) -> NodeView {
        NodeView { id: self.id, labels: self.labels@, properties: self.properties@, status: self.status }
    }
}

impl View for Relationship {
    type V = RelationshipView;

    open spec fn view(&self) -> RelationshipView {
        RelationshipView { labels: self.labels@, properties: self.properties@, status: self.status }
    }
}

/// A copy of a list of labels.
pub fn copy_labels(labels: &Vec<String>) -> (r: Vec<String>)
    ensures
        r@ == labels@,
{
    let mut r: Vec<String> = Vec::new();
    let mut i: usize = 0;
    while i < labels.len()
        invariant
            i <= labels@.len(),
            r@ == labels@.take(i as int),
        decreases labels@.len() - i,
    {
        r.push(labels[i].clone());
        i = i + 1;
        assert(r@ =~= labels@.take(i as int));
    }
    assert(labels@.take(i as int) =~= labels@);
    r
}

impl Node {
    pub fn new() -> (r: Self)
        ensures
            r@ == (NodeView { id: None, labels: Seq::empty(), properties: Seq::empty(), status: Status::Match }),
    {
        let r = Node { id: None, labels: Vec::new(), properties: Vec::new(), status: Status::Match };
        assert(r@.labels =~= Seq::empty());
        assert(r@.properties =~= Seq::empty());
        r
    }

    pub fn set_id(&mut self, id: Option<u64>)
        ensures
            final(self)@ == (NodeView { id: id, ..old(self)@ }),
    {
        self.id = id;
    }

    pub fn set_status(&mut self, status: Status)
        ensures
            final(self)@ == (NodeView { status: status, ..old(self)@ }),
    {
        self.status = status;
    }
}

impl Relationship {
    pub fn new() -> (r: Self)
        ensures
            r@ == (RelationshipView { labels: Seq::empty(), properties: Seq::empty(), status: Status::Match }),
    {
        let r = Relationship { labels: Vec::new(), properties: Vec::new(), status: Status::Match };
        assert(r@.labels =~= Seq::empty());
        assert(r@.properties =~= Seq::empty());
        r
    }

    pub fn set_labels(&mut self, labels: Vec<String>)
        ensures
            final(self)@ == (RelationshipView { labels: labels@, ..old(self)@ }),
    {
        self.labels = labels;
    }

    pub fn set_status(&mut self, status: Status)
        ensures
            final(self)@ == (RelationshipView { status: status, ..old(self)@ }),
    {
        self.status = status;
    }
}

/// What a pattern holds: its nodes, its relationships, and the
/// (source, target) node numbers of each relationship.
pub struct PatternView {
    pub nodes: Seq<NodeView>,
    pub relationships: Seq<RelationshipView>,
    pub ends: Seq<(nat, nat)>,
}

/// A small graph of nodes and relationships under construction.
pub struct Pattern {
    graph: Graph,
    nodes: Vec<Node>,
    relationships: Vec<Relationship>,
}

impl View for Pattern {
    type V = PatternView;

    closed spec fn view(&self) -> PatternView {
        PatternView {
            nodes: self.nodes@.map_values(|n: Node| n@),
            relationships: self.relationships@.map_values(|r: Relationship| r@),
            ends: self.graph.ends(),
        }
    }
}

impl Pattern {
    pub closed spec fn wf(&self) -> bool {
        &&& self.graph.wf()
        &&& self.graph.node_count() == self.nodes@.len()
        &&& self.graph.edge_count() == self.relationships@.len()
    }

    pub fn new() -> (r: Self)
        ensures
            r.wf(),
            r@ == (PatternView { nodes: Seq::empty(), relationships: Seq::empty(), ends: Seq::empty() }),
    {
        let r = Pattern { graph: Graph::new(), nodes: Vec::new(), relationships: Vec::new() };
        proof {
            r.graph.lemma_empty_ends();
        }
        assert(r@.nodes =~= Seq::empty());
        assert(r@.relationships =~= Seq::empty());
        r
    }

    pub fn nodes_len(&self) -> (r: usize)
        ensures
            r == self@.nodes.len(),
    {
        self.nodes.len()
    }

    pub fn add_node(&mut self, n: Node) -> (r: NodeIndex)
        requires
            old(self).wf(),
        ensures
            final(self).wf(),
            r.index == old(self)@.nodes.len(),
            final(self)@ == (PatternView { nodes: old(self)@.nodes.push(n@), ..old(self)@ }),
    {
        let ghost n_view = n@;
        let r = self.graph.add_vertex();
        self.nodes.push(n);
        assert(self@.nodes =~= old(self)@.nodes.push(n_view));
        r
    }

    pub fn add_relationship(&mut self, rel: Relationship, source: NodeIndex, target: NodeIndex) -> (r: EdgeIndex)
        requires
            old(self).wf(),
            source.index < old(self)@.nodes.len(),
            target.index < old(self)@.nodes.len(),
        ensures
            final(self).wf(),
            r.index == old(self)@.relationships.len(),
            final(self)@ == (PatternView {
                relationships: old(self)@.relationships.push(rel@),
                ends: old(self)@.ends.push((source.index as nat, target.index as nat)),
                ..old(self)@
            }),
    {
        let ghost rel_view = rel@;
        let r = self.graph.add_edge(source, target);
        self.relationships.push(rel);
        assert(self@.relationships =~= old(self)@.relationships.push(rel_view));
        r
    }

    /// Attaches a property to a node of the pattern.
    pub fn add_node_property(&mut self, id: NodeIndex, prop: Property)
        requires
            old(self).wf(),
            id.index < old(self)@.nodes.len(),
        ensures
            final(self).wf(),
            final(self)@ == (PatternView {
                nodes: old(self)@.nodes.update(
                    id.index as int,
                    NodeView {
                        properties: old(self)@.nodes[id.index as int].properties.push(prop),
                        ..old(self)@.nodes[id.index as int]
                    },
                ),
                ..old(self)@
            }),
    {
        let ghost prop_copy = prop;
        self.nodes[id.index].properties.push(prop);
        assert(self@.nodes =~= old(self)@.nodes.update(
            id.index as int,
            NodeView {
                properties: old(self)@.nodes[id.index as int].properties.push(prop_copy),
                ..old(self)@.nodes[id.index as int]
            },
        ));
    }

    pub fn relationships_len(&self) -> (r: usize)
        ensures
            r == self@.relationships.len(),
    {
        self.relationships.len()
    }

    /// The source and target of a relationship.
    pub fn get_relationship_ends(&self, id: EdgeIndex) -> (r: (NodeIndex, NodeIndex))
        requires
            self.wf(),
            id.index < self@.relationships.len(),
        ensures
            (r.0.index as nat, r.1.index as nat) == self@.ends[id.index as int],
    {
        proof {
            self.graph.lemma_stored_ends(id.index as int);
        }
        (self.graph.get_source_index(&id), self.graph.get_target_index(&id))
    }

    pub fn get_node(&self, id: NodeIndex) -> (r: &Node)
        requires
            id.index < self@.nodes.len(),
        ensures
            r@ == self@.nodes[id.index as int],
    {
        &self.nodes[id.index]
    }

    pub fn get_relationship(&self, id: EdgeIndex) -> (r: &Relationship)
        requires
            id.index < self@.relationships.len(),
        ensures
            r@ == self@.relationships[id.index as int],
    {
        &self.relationships[id.index]
    }
}

} // verus!
