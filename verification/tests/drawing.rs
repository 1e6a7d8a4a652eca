use gsvg::decimal::{int_to_string, nat_to_string};
use gsvg::{
    is_nul_free, make_attr, make_attrs, value_of, Attrs, Draw, DrawTree, Edge, EdgeKind, Graph,
    TreeLink, TreeNode, GSVG,
};

fn pairs(attrs: &Attrs) -> Vec<(String, String, String)> {
    attrs.iter().map(|a| (a.key.clone(), a.value.clone(), a.default.clone())).collect()
}

fn triple(k: &str, v: &str) -> (String, String, String) {
    (k.to_string(), v.to_string(), String::new())
}

fn leaf(val: i32) -> TreeLink {
    Some(Box::new(TreeNode::new(val)))
}

fn labels(g: &GSVG) -> Vec<String> {
    (0..g.node_count()).map(|i| g.node_at(i).attrs[1].value.clone()).collect()
}

fn ends(g: &GSVG) -> Vec<(usize, usize)> {
    (0..g.edge_count()).map(|j| (g.edge_at(j).tail, g.edge_at(j).head)).collect()
}

#[test]
fn decimal_of_naturals() {
    assert_eq!(nat_to_string(0), "0");
    assert_eq!(nat_to_string(7), "7");
    assert_eq!(nat_to_string(10), "10");
    assert_eq!(nat_to_string(1234567890), "1234567890");
    assert_eq!(nat_to_string(u64::MAX), u64::MAX.to_string());
}

#[test]
fn decimal_of_signed() {
    assert_eq!(int_to_string(0), "0");
    assert_eq!(int_to_string(-1), "-1");
    assert_eq!(int_to_string(42), "42");
    assert_eq!(int_to_string(i32::MAX), "2147483647");
    assert_eq!(int_to_string(i32::MIN), "-2147483648");
}

#[test]
fn nul_is_found() {
    assert!(is_nul_free(""));
    assert!(is_nul_free("label"));
    assert!(is_nul_free("gr\u{e4}ph \u{1F600}"));
    assert!(!is_nul_free("\0"));
    assert!(!is_nul_free("ab\0cd"));
    assert!(!is_nul_free("abcd\0"));
}

#[test]
fn one_attribute() {
    let a = make_attr("shape", "box");
    assert_eq!(a.key, "shape");
    assert_eq!(a.value, "box");
    assert_eq!(a.default, "");
}

#[test]
fn attributes_keep_order() {
    let attrs = make_attrs(vec![("b", "2"), ("a", "1"), ("b", "3")]);
    assert_eq!(pairs(&attrs), vec![triple("b", "2"), triple("a", "1"), triple("b", "3")]);
    assert!(make_attrs(vec![]).is_empty());
}

#[test]
fn fresh_drawing() {
    let g = GSVG::new("Caption");
    assert_eq!(g.name(), "Caption");
    assert_eq!(pairs(g.attrs()), vec![triple("label", "Caption"), triple("rankdir", "TB")]);
    assert_eq!(g.node_count(), 0);
    assert_eq!(g.edge_count(), 0);
}

#[test]
fn nodes_are_numbered() {
    let mut g = GSVG::new("g");
    g.node(5);
    g.node(-3);
    assert_eq!(g.node_count(), 2);
    assert_eq!(g.node_at(0).name, "0");
    assert_eq!(
        pairs(&g.node_at(0).attrs),
        vec![
            triple("id", "0"),
            triple("label", "5"),
            triple("shape", "circle"),
            triple("style", "filled")
        ]
    );
    assert_eq!(g.node_at(1).name, "1");
    assert_eq!(
        pairs(&g.node_at(1).attrs),
        vec![
            triple("id", "1"),
            triple("label", "-3"),
            triple("shape", "circle"),
            triple("style", "filled")
        ]
    );
    assert_eq!(g.edge_count(), 0);
}

#[test]
fn edges_are_numbered() {
    let mut g = GSVG::new("g");
    g.node(1);
    g.node(2);
    g.edge(0, 1, false, false);
    g.edge(1, 0, true, false);
    g.edge(1, 1, false, true);
    g.edge(0, 0, true, true);
    assert_eq!(g.edge_count(), 4);
    assert_eq!(ends(&g), vec![(0, 1), (1, 0), (1, 1), (0, 0)]);
    assert_eq!(g.edge_at(0).name, "0");
    assert_eq!(
        pairs(&g.edge_at(0).attrs),
        vec![triple("id", "0"), triple("dir", "none"), triple("style", "filled")]
    );
    assert_eq!(
        pairs(&g.edge_at(1).attrs),
        vec![triple("id", "1"), triple("dir", "forward"), triple("style", "filled")]
    );
    assert_eq!(
        pairs(&g.edge_at(2).attrs),
        vec![triple("id", "2"), triple("dir", "none"), triple("style", "dotted")]
    );
    assert_eq!(
        pairs(&g.edge_at(3).attrs),
        vec![triple("id", "3"), triple("dir", "forward"), triple("style", "dotted")]
    );
    assert_eq!(g.node_count(), 2);
}

#[test]
fn updates_are_appended() {
    let mut g = GSVG::new("g");
    g.node(1);
    g.node(2);
    g.edge(0, 1, false, false);
    g.update_nodes(vec![
        vec![("color".to_string(), "red".to_string()), ("label".to_string(), "x".to_string())],
        vec![],
    ]);
    assert_eq!(
        pairs(&g.node_at(0).attrs),
        vec![
            triple("id", "0"),
            triple("label", "1"),
            triple("shape", "circle"),
            triple("style", "filled"),
            triple("color", "red"),
            triple("label", "x")
        ]
    );
    assert_eq!(g.node_at(1).attrs.len(), 4);
    assert_eq!(g.node_at(0).name, "0");
    assert_eq!(ends(&g), vec![(0, 1)]);
}

#[test]
fn test_tree() {
    let root: TreeLink =
        TreeNode::branch(1, TreeNode::branch(2, leaf(3), None), leaf(4));
    let g = root.draw("Test Tree");
    assert_eq!(g.name(), "Test Tree");
    assert_eq!(labels(&g), vec!["1", "2", "3", "4"]);
    assert_eq!(ends(&g), vec![(0, 1), (1, 2), (0, 3)]);
    for j in 0..g.edge_count() {
        assert_eq!(g.edge_at(j).attrs[1].value, "none");
        assert_eq!(g.edge_at(j).attrs[2].value, "filled");
    }
}

#[test]
fn empty_tree() {
    let root: TreeLink = None;
    let g = root.draw("nothing");
    assert_eq!(g.node_count(), 0);
    assert_eq!(g.edge_count(), 0);
}

#[test]
fn subtree_below_a_parent() {
    let mut g = GSVG::new("g");
    g.node(10);
    let mut id = 1;
    let sub: TreeLink = TreeNode::branch(7, None, leaf(8));
    sub.draw_r(Some(0), &mut id, &mut g);
    assert_eq!(id, 3);
    assert_eq!(labels(&g), vec!["10", "7", "8"]);
    assert_eq!(ends(&g), vec![(0, 1), (1, 2)]);
}

#[test]
fn adjacency_lists() {
    let adj: Vec<Vec<usize>> = vec![vec![1, 2], vec![], vec![0, 2]];
    let g = adj.draw("adj");
    assert_eq!(labels(&g), vec!["0", "1", "2"]);
    assert_eq!(ends(&g), vec![(0, 1), (0, 2), (2, 0), (2, 2)]);
    assert_eq!(g.edge_at(3).attrs[1].value, "none");
    assert_eq!(g.edge_at(3).attrs[2].value, "filled");
    let none: Vec<Vec<usize>> = vec![];
    assert_eq!(none.draw("e").node_count(), 0);
}

#[test]
fn classes_choose_the_style() {
    let mut graph = Graph::new(5);
    graph.edges.push(Edge { tail: 0, head: 1, kind: EdgeKind::TreeEdge });
    graph.edges.push(Edge { tail: 1, head: 4, kind: EdgeKind::TreeEdge });
    graph.edges.push(Edge { tail: 4, head: 0, kind: EdgeKind::BackEdge });
    graph.edges.push(Edge { tail: 0, head: 4, kind: EdgeKind::ForwardEdge });
    graph.edges.push(Edge { tail: 3, head: 2, kind: EdgeKind::CrossEdge });
    let g = graph.draw("Test Graph");
    assert_eq!(labels(&g), vec!["0", "1", "2", "3", "4"]);
    assert_eq!(ends(&g), vec![(0, 1), (1, 4), (4, 0), (0, 4), (3, 2)]);
    let styles: Vec<String> =
        (0..5).map(|j| g.edge_at(j).attrs[2].value.clone()).collect();
    assert_eq!(styles, vec!["filled", "filled", "dotted", "dotted", "dotted"]);
    for j in 0..5 {
        assert_eq!(g.edge_at(j).attrs[1].value, "forward");
    }
}

#[test]
fn test_graph() {
    let n = 5;
    let mut graph: Graph = Graph::new(n);
    let edges = vec![vec![1, 0], vec![2, 0], vec![3, 0], vec![4, 1], vec![4, 2], vec![4, 0]];
    graph.init_with_edges(edges, false);
    graph.travase();
    let g = graph.draw("Test Graph");
    assert_eq!(g.name(), "Test Graph");
    assert_eq!(labels(&g), vec!["0", "1", "2", "3", "4"]);
    assert_eq!(
        ends(&g),
        vec![
            (1, 0),
            (0, 1),
            (2, 0),
            (0, 2),
            (3, 0),
            (0, 3),
            (4, 1),
            (1, 4),
            (4, 2),
            (2, 4),
            (4, 0),
            (0, 4)
        ]
    );
    let styles: Vec<String> =
        (0..g.edge_count()).map(|j| g.edge_at(j).attrs[2].value.clone()).collect();
    assert_eq!(
        styles,
        vec![
            "dotted", "filled", "dotted", "dotted", "dotted", "filled", "dotted", "filled",
            "filled", "dotted", "dotted", "dotted"
        ]
    );
}

#[test]
fn the_last_value_of_a_key_counts() {
    let attrs = make_attrs(vec![("b", "2"), ("a", "1"), ("b", "3")]);
    assert_eq!(value_of(&attrs, &"b".to_string()), Some("3".to_string()));
    assert_eq!(value_of(&attrs, &"a".to_string()), Some("1".to_string()));
    assert_eq!(value_of(&attrs, &"c".to_string()), None);
    assert_eq!(value_of(&make_attrs(vec![]), &"a".to_string()), None);
}

#[test]
fn an_update_overrides_the_label() {
    let mut g = GSVG::new("g");
    g.node(1);
    g.node(2);
    g.update_nodes(vec![
        vec![("label".to_string(), "x".to_string()), ("label".to_string(), "y".to_string())],
        vec![("color".to_string(), "red".to_string())],
    ]);
    let label = "label".to_string();
    assert_eq!(value_of(&g.node_at(0).attrs, &label), Some("y".to_string()));
    assert_eq!(value_of(&g.node_at(1).attrs, &label), Some("2".to_string()));
    assert_eq!(value_of(&g.node_at(1).attrs, &"color".to_string()), Some("red".to_string()));
    assert_eq!(value_of(&g.node_at(0).attrs, &"shape".to_string()), Some("circle".to_string()));
}

#[test]
fn names_differ() {
    let mut g = GSVG::new("g");
    for i in 0..120 {
        g.node(i);
    }
    let mut names: Vec<String> = (0..120).map(|i| g.node_at(i).name.clone()).collect();
    assert_eq!(names[119], "119");
    names.sort();
    names.dedup();
    assert_eq!(names.len(), 120);
}

#[test]
fn nodes_are_labelled_by_index() {
    let adj: Vec<Vec<usize>> = vec![vec![], vec![0]];
    let g = adj.draw("two");
    assert_eq!(labels(&g), vec!["0", "1"]);
    assert_eq!(ends(&g), vec![(1, 0)]);
}
