use one_graph::graph::{Graph, NodeIndex};

#[test]
fn test_small_graph_it() {
    let mut graph = Graph::new();
    let n0 = graph.add_node();
    let n1 = graph.add_node();
    let n2 = graph.add_node();

    let e0 = graph.add_edge(n0, n1);
    let _e1 = graph.add_edge(n1, n2);
    let e2 = graph.add_edge(n0, n2);

    let ed0 = graph.get_edge(e0);
    assert_eq!(ed0.source, n0);
    assert_eq!(ed0.target, n1);
    assert_eq!(ed0.next_outbound_edge, None);

    let nd0 = graph.get_node(n0);
    assert_eq!(nd0.first_outbound_edge, Some(e2));

    let ed2 = graph.get_edge(e2);
    assert_eq!(ed2.source, n0);
    assert_eq!(ed2.target, n2);
    assert_eq!(ed2.next_outbound_edge, Some(e0));

    let targets = graph.successors(n0).collect_vec();
    assert_eq!(targets[0], n2);
    assert_eq!(targets[1], n1);
    assert_eq!(targets.len(), 2);

    let sources = graph.ancestors(n2).collect_vec();
    assert_eq!(sources.len(), 2);
}

#[test]
fn successors_and_ancestors_in_reverse_insertion() {
    let mut graph = Graph::new();
    let n0 = graph.add_node();
    let n1 = graph.add_node();
    let n2 = graph.add_node();
    let e0 = graph.add_edge(n0, n1);
    let e1 = graph.add_edge(n1, n2);
    let e2 = graph.add_edge(n0, n2);
    assert_eq!(graph.successors(n0).collect_vec(), vec![n2, n1]);
    assert_eq!(graph.ancestors(n2).collect_vec(), vec![n0, n1]);
    assert_eq!(graph.get_edge(e0).source, NodeIndex(0));
    assert_eq!(graph.out_edges(n0).collect_vec(), vec![e2, e0]);
    assert_eq!(graph.in_edges(n2).collect_vec(), vec![e2, e1]);
    assert_eq!(graph.out_edges(n2).count(), 0);
    assert_eq!(graph.in_edges(n2).count(), 2);
    assert_eq!(graph.successors(n1).count(), 1);
    assert_eq!(graph.ancestors(n0).collect_vec(), vec![]);
    assert_eq!(graph.get_nodes().len(), 3);
    assert_eq!(graph.get_edges().len(), 3);
}

#[test]
fn walk_steps_one_at_a_time() {
    let mut graph = Graph::new();
    let a = graph.add_node();
    let b = graph.add_node();
    graph.add_edge(a, b);
    let mut it = graph.successors(a);
    assert_eq!(it.next(), Some(b));
    assert_eq!(it.next(), None);
    let mut back = graph.ancestors(b);
    assert_eq!(back.next(), Some(a));
    assert_eq!(back.next(), None);
}

#[test]
fn new_node_has_no_neighbours() {
    let mut graph = Graph::new();
    let a = graph.add_node();
    graph.add_edge(a, a);
    let b = graph.add_node();
    assert_eq!(graph.successors(b).count(), 0);
    assert_eq!(graph.ancestors(b).count(), 0);
    let e = graph.add_edge(a, b);
    assert_eq!(graph.out_edges(a).next(), Some(e));
    assert_eq!(graph.in_edges(b).next(), Some(e));
    let targets: Vec<NodeIndex> = graph.out_edges(a).collect_vec().iter().map(|x| graph.get_edge(*x).target).collect();
    assert_eq!(graph.successors(a).collect_vec(), targets);
}
