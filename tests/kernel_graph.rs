use one_graph::kernel::{EdgeIndex, Graph, NodeIndex};
use one_graph::traits::{GraphTrait, MemGraphId};

#[test]
fn mod_test_small_graph_it() {
    let mut graph = Graph::new();
    let n0 = graph.add_vertex();
    let n1 = graph.add_vertex();
    let n2 = graph.add_vertex();

    let e0 = graph.add_edge(n0, n1);
    let _e1 = graph.add_edge(n1, n2);
    let e2 = graph.add_edge(n0, n2);

    let ed0 = graph.get_edge(e0);
    assert_eq!(ed0.source, n0);
    assert_eq!(ed0.target, n1);
    assert_eq!(ed0.next_outbound_edge, None);

    let nd0 = graph.get_vertex(n0);
    assert_eq!(nd0.first_outbound_edge, Some(e2));

    let ed2 = graph.get_edge(e2);
    assert_eq!(ed2.source, n0);
    assert_eq!(ed2.target, n2);
    assert_eq!(ed2.next_outbound_edge, Some(e0));
}

fn drain_out(graph: &Graph, n: &NodeIndex) -> Vec<EdgeIndex> {
    let mut it = graph.out_edges(n);
    let mut r = Vec::new();
    while let Some(e) = it.next() {
        r.push(e);
    }
    r
}

#[test]
fn out_edges_come_newest_first() {
    let mut graph = Graph::new();
    let s = graph.add_vertex();
    let a = graph.add_vertex();
    let b = graph.add_vertex();
    let c = graph.add_vertex();
    let ea = graph.add_edge(s, a);
    let eb = graph.add_edge(s, b);
    let ec = graph.add_edge(s, c);
    assert_eq!(drain_out(&graph, &s), vec![ec, eb, ea]);
    assert_eq!(drain_out(&graph, &a), vec![]);
}

#[test]
fn in_edges_come_newest_first() {
    let mut graph = Graph::new();
    let t = graph.add_vertex();
    let a = graph.add_vertex();
    let b = graph.add_vertex();
    let ea = graph.add_edge(a, t);
    let eb = graph.add_edge(b, t);
    let mut it = graph.in_edges(&t);
    assert_eq!(it.next(), Some(eb));
    assert_eq!(it.next(), Some(ea));
    assert_eq!(it.next(), None);
    assert_eq!(it.next(), None);
}

#[test]
fn degrees_match_walks_as_edges_are_added() {
    let mut graph = Graph::new();
    let n0 = graph.add_vertex();
    let n1 = graph.add_vertex();
    assert_eq!(graph.out_degree(&n0), 0);
    assert_eq!(graph.in_degree(&n1), 0);
    graph.add_edge(n0, n1);
    graph.add_edge(n0, n1);
    assert_eq!(graph.out_degree(&n0), graph.out_edges(&n0).count());
    assert_eq!(graph.out_degree(&n0), 2);
    assert_eq!(graph.in_degree(&n1), graph.in_edges(&n1).count());
    assert_eq!(graph.in_degree(&n1), 2);
    assert_eq!(graph.in_degree(&n0), 0);
    graph.add_edge(n1, n1);
    assert_eq!(graph.out_degree(&n1), 1);
    assert_eq!(graph.in_degree(&n1), 3);
    assert_eq!(graph.out_degree(&n0), 2);
}

#[test]
fn self_loop_heads_both_chains() {
    let mut graph = Graph::new();
    let n = graph.add_vertex();
    let e = graph.add_edge(n, n);
    assert_eq!(graph.get_vertex(n).get_first_outbound_edge(), Some(e));
    assert_eq!(graph.get_vertex(n).get_first_inbound_edge(), Some(e));
    assert_eq!(graph.get_edge(e).get_source(), n);
    assert_eq!(graph.get_edge(e).get_target(), n);
    assert_eq!(graph.get_edge(e).get_next_outbound_edge(), None);
    assert_eq!(graph.get_edge(e).get_next_inbound_edge(), None);
}

#[test]
fn counts_ids_and_endpoints() {
    let mut graph = Graph::new();
    assert_eq!(graph.nodes_len(), 0);
    assert_eq!(graph.get_nodes_ids(), vec![]);
    let n0 = graph.add_vertex();
    let n1 = graph.add_vertex();
    let n2 = graph.add_vertex();
    let e = graph.add_edge(n2, n0);
    assert_eq!(graph.nodes_len(), 3);
    assert_eq!(graph.edges_len(), 1);
    assert_eq!(graph.get_nodes_ids(), vec![n0, n1, n2]);
    assert_eq!(graph.get_source_index(&e), n2);
    assert_eq!(graph.get_target_index(&e), n0);
    assert_eq!(graph.get_nodes().len(), 3);
    assert_eq!(graph.get_edges().len(), 1);
    assert_eq!(n1.get_index(), 1);
    assert_eq!(e.get_index(), 0);
    assert_eq!(NodeIndex::new(5).get_index(), 5);
    assert_eq!(EdgeIndex::new(4).get_index(), 4);
}

#[test]
fn records_hold_the_newest_links() {
    let mut graph = Graph::new();
    let s = graph.add_vertex();
    let t = graph.add_vertex();
    let e0 = graph.add_edge(s, t);
    let e1 = graph.add_edge(t, s);
    let e2 = graph.add_edge(s, s);
    assert_eq!(graph.get_vertex(s).get_first_outbound_edge(), graph.out_edges(&s).next());
    assert_eq!(graph.get_vertex(s).get_first_inbound_edge(), Some(e2));
    assert_eq!(graph.get_edge(e2).get_next_outbound_edge(), Some(e0));
    assert_eq!(graph.get_edge(e2).get_next_inbound_edge(), Some(e1));
    assert_eq!(graph.get_edge(e1).get_next_outbound_edge(), None);
    let fresh = graph.add_vertex();
    assert_eq!(graph.out_degree(&fresh), 0);
    assert_eq!(graph.get_vertex(fresh).get_first_inbound_edge(), None);
}
