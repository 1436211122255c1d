use one_graph::model::{Node, Relationship, Status};
use one_graph::proxy::{retrieve_db_nodes_ids, GraphProxy, ProxyNodeId, ProxyRelationshipId};
use one_graph::traits::{GraphContainerTrait, GraphTrait, GrowableGraph, MemGraphId};

fn node_with_id(id: u64) -> Node {
    let mut n = Node::new();
    n.set_id(Some(id));
    n
}

#[test]
fn roots_start_unretrieved() {
    let ids = retrieve_db_nodes_ids(&vec![10, 20]);
    assert_eq!(ids.len(), 2);
    assert_eq!(ids[0], ProxyNodeId::new(10));
    assert!(ids[1].to_retrieve);
    assert_eq!(ids[1].get_store_id(), 20);
    assert_eq!(ids[1].get_index(), 0);
    let mut proxy = GraphProxy::new(&vec![10, 20]);
    assert_eq!(proxy.get_root_ids(), ids);
    assert_eq!(proxy.get_nodes_ids(), vec![]);
    assert_eq!(proxy.nodes_len(), 0);
    let a = proxy.add_node(20, Node::new());
    assert_eq!(proxy.get_nodes_ids(), vec![a]);
    assert_eq!(a, ProxyNodeId { mem_id: 0, store_id: 20, to_retrieve: false });
    assert_eq!(proxy.edges_len(), 0);
}

#[test]
fn materialized_relationships_are_walked_newest_first() {
    let mut proxy = GraphProxy::new(&vec![1]);
    let a = proxy.add_node(1, node_with_id(1));
    let b = proxy.add_node(2, node_with_id(2));
    let c = proxy.add_node(3, node_with_id(3));
    assert!(!a.to_retrieve);
    assert_eq!(b.get_index(), 1);
    let r1 = proxy.add_relationship(100, Relationship::new(), &a, &b);
    let r2 = proxy.add_relationship(200, Relationship::new(), &a, &c);
    assert_eq!(r1, ProxyRelationshipId { mem_id: 0, store_id: 100 });
    assert_eq!(r2.get_store_id(), 200);
    let mut it = proxy.out_edges(&a);
    assert_eq!(it.next(&proxy), Some(r2));
    assert_eq!(it.next(&proxy), Some(r1));
    assert_eq!(it.next(&proxy), None);
    assert_eq!(proxy.out_degree(&a), 2);
    assert_eq!(proxy.in_degree(&b), 1);
    assert_eq!(proxy.in_degree(&a), 0);
    assert_eq!(proxy.get_source_index(&r2), a);
    assert_eq!(proxy.get_nodes_ids(), vec![a, b, c]);
    assert_eq!(proxy.get_target_index(&r2), c);
    assert_eq!(proxy.nodes_len(), 3);
    assert_eq!(proxy.edges_len(), 2);
    assert_eq!(proxy.get_node_ref(&c).id, Some(3));
    assert_eq!(proxy.get_relationship_ref(&r1).status, Status::Match);
}

#[test]
fn walk_created_before_growth_sees_it() {
    let mut proxy = GraphProxy::new(&vec![]);
    let a = proxy.add_node(1, Node::new());
    let b = proxy.add_node(2, Node::new());
    let pending = proxy.out_edges(&a);
    let mut started = proxy.in_edges(&b);
    assert_eq!(started.next(&proxy), None);
    let r = proxy.add_relationship(7, Relationship::new(), &a, &b);
    let mut pending = pending;
    assert_eq!(pending.next(&proxy), Some(r));
    assert_eq!(pending.next(&proxy), None);
    assert_eq!(started.next(&proxy), None);
    assert_eq!(proxy.in_edges(&b).count(&proxy), 1);
}

#[test]
fn retrieval_of_a_retrieved_node_changes_nothing() {
    let mut proxy = GraphProxy::new(&vec![5]);
    let a = proxy.add_node(5, Node::new());
    proxy.add_relationship(9, Relationship::new(), &a, &a);
    proxy.retrieve_out_edges(&a);
    proxy.retrieve_out_edges(&a);
    proxy.retrieve_in_edges(&a);
    assert_eq!(proxy.out_degree(&a), 1);
    assert_eq!(proxy.in_degree(&a), 1);
    assert!(!a.to_retrieve);
    assert_eq!(proxy.edges_len(), 1);
}

#[test]
fn records_change_in_place() {
    let mut proxy = GraphProxy::new(&vec![]);
    let a = proxy.add_node(1, Node::new());
    let b = proxy.add_node(2, Node::new());
    let r = proxy.add_relationship(3, Relationship::new(), &a, &b);
    proxy.get_node_mut(&b).set_id(Some(2));
    proxy.get_relationship_mut(&r).set_status(Status::Create);
    assert_eq!(proxy.get_node_ref(&b).id, Some(2));
    assert_eq!(proxy.get_node_ref(&a).id, None);
    assert_eq!(proxy.get_relationship_ref(&r).status, Status::Create);
    assert_eq!(proxy.out_degree(&a), 1);
}
