use gsvg::graph::Traversal;
use gsvg::{Edge, EdgeKind, Graph};

use gsvg::EdgeKind::{BackEdge, CrossEdge, ForwardEdge, TreeEdge};

fn kinds(g: &Graph) -> Vec<EdgeKind> {
    g.edges.iter().map(|e| e.kind).collect()
}

fn ends(g: &Graph) -> Vec<(usize, usize)> {
    g.edges.iter().map(|e| (e.tail, e.head)).collect()
}

fn agrees(g: &Graph, t: &Traversal) {
    let n = g.n;
    let mut entered = t.entered.clone();
    let mut left = t.left.clone();
    entered.sort();
    left.sort();
    let places: Vec<usize> = (1..=n).collect();
    assert_eq!(entered, places);
    assert_eq!(left, places);
    for e in g.edges.iter() {
        let (eu, ev) = (t.entered[e.tail], t.entered[e.head]);
        let (lu, lv) = (t.left[e.tail], t.left[e.head]);
        match e.kind {
            TreeEdge | ForwardEdge => assert!(eu < ev && lv < lu),
            BackEdge => assert!(ev <= eu && lu <= lv),
            CrossEdge => assert!(ev < eu && lv < lu),
        }
    }
    for (j, e) in g.edges.iter().enumerate() {
        assert_eq!(e.kind == TreeEdge, t.via[e.head] == Some(j));
    }
}

#[test]
fn fresh_graph_has_no_edges() {
    let g = Graph::new(3);
    assert_eq!(g.n, 3);
    assert!(g.edges.is_empty());
}

#[test]
fn directed_pairs_give_one_edge_each() {
    let mut g = Graph::new(3);
    g.init_with_edges(vec![vec![0, 1], vec![2, 1], vec![1, 1]], true);
    assert_eq!(ends(&g), vec![(0, 1), (2, 1), (1, 1)]);
    assert_eq!(kinds(&g), vec![TreeEdge, TreeEdge, TreeEdge]);
    assert_eq!(g.n, 3);
}

#[test]
fn undirected_pairs_give_both_directions() {
    let mut g = Graph::new(3);
    g.edges.push(Edge { tail: 2, head: 2, kind: BackEdge });
    g.init_with_edges(vec![vec![0, 1], vec![2, 1]], false);
    assert_eq!(ends(&g), vec![(0, 1), (1, 0), (2, 1), (1, 2)]);
    g.init_with_edges(vec![], false);
    assert!(g.edges.is_empty());
}

#[test]
fn directed_graph_shows_every_class() {
    let mut g = Graph::new(4);
    g.init_with_edges(
        vec![vec![0, 1], vec![1, 2], vec![2, 0], vec![0, 2], vec![3, 2], vec![3, 3]],
        true,
    );
    let t = g.travase();
    assert_eq!(kinds(&g), vec![TreeEdge, TreeEdge, BackEdge, ForwardEdge, CrossEdge, BackEdge]);
    assert_eq!(ends(&g), vec![(0, 1), (1, 2), (2, 0), (0, 2), (3, 2), (3, 3)]);
    assert_eq!(t.entered, vec![1, 2, 3, 4]);
    assert_eq!(t.left, vec![3, 2, 1, 4]);
    assert_eq!(t.via, vec![None, Some(0), Some(1), None]);
    agrees(&g, &t);
}

#[test]
fn undirected_graph_has_tree_back_and_forward_edges() {
    let mut g = Graph::new(5);
    g.init_with_edges(
        vec![vec![1, 0], vec![2, 0], vec![3, 0], vec![4, 1], vec![4, 2], vec![4, 0]],
        false,
    );
    let t = g.travase();
    assert_eq!(
        kinds(&g),
        vec![
            BackEdge,
            TreeEdge,
            BackEdge,
            ForwardEdge,
            BackEdge,
            TreeEdge,
            BackEdge,
            TreeEdge,
            TreeEdge,
            BackEdge,
            BackEdge,
            ForwardEdge
        ]
    );
    assert_eq!(t.entered, vec![1, 2, 4, 5, 3]);
    assert_eq!(t.left, vec![5, 3, 1, 4, 2]);
    assert_eq!(t.via, vec![None, Some(1), Some(8), Some(5), Some(7)]);
    agrees(&g, &t);
}

#[test]
fn parallel_edges_first_is_the_tree_edge() {
    let mut g = Graph::new(2);
    g.init_with_edges(vec![vec![0, 1], vec![0, 1], vec![1, 0]], true);
    let t = g.travase();
    assert_eq!(kinds(&g), vec![TreeEdge, ForwardEdge, BackEdge]);
    assert_eq!(t.via, vec![None, Some(0)]);
    agrees(&g, &t);
}

#[test]
fn traversal_without_edges_starts_at_every_node() {
    let mut g = Graph::new(3);
    let t = g.travase();
    assert_eq!(t.entered, vec![1, 2, 3]);
    assert_eq!(t.left, vec![1, 2, 3]);
    assert_eq!(t.via, vec![None, None, None]);
    let mut none = Graph::new(0);
    let t = none.travase();
    assert!(t.entered.is_empty() && t.left.is_empty() && t.via.is_empty());
}

#[test]
fn a_second_traversal_gives_the_same_classes() {
    let mut g = Graph::new(4);
    g.init_with_edges(vec![vec![1, 2], vec![2, 3], vec![3, 1], vec![0, 3], vec![2, 0]], true);
    let first = g.travase();
    let once = kinds(&g);
    let second = g.travase();
    assert_eq!(kinds(&g), once);
    assert_eq!(first.entered, second.entered);
    assert_eq!(first.left, second.left);
    assert_eq!(first.via, second.via);
    agrees(&g, &first);
}
