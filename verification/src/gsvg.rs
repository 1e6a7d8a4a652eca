//! A drawing under construction: a named graph with its nodes and edges, each
//! carrying the attributes that were set on it, in order.
use crate::attrs::{
    attr, attrs_plain, attrs_view, lemma_lookup_concat, lookup, make_attr, nul_free, pairs_attrs,
    pairs_plain, AttrView, Attrs,
};
use crate::decimal::{
    int_text, int_to_string, lemma_int_text_plain, lemma_nat_text_injective, lemma_nat_text_plain,
    nat_text, nat_to_string,
};
use vstd::prelude::*;
use vstd::string::StringExecFns;

verus! {

/// A node of a drawing: its name and the attributes set on it.
pub struct NodeRecord {
    pub name: String,
    pub attrs: Attrs,
}

/// An edge of a drawing: its name, the indices of its tail and head nodes, and
/// the attributes set on it.
pub struct EdgeRecord {
    pub name: String,
    pub tail: usize,
    pub head: usize,
    pub attrs: Attrs,
}

/// The mathematical content of a [`NodeRecord`].
pub struct NodeView {
    pub name: Seq<char>,
    pub attrs: Seq<AttrView>,
}

/// The mathematical content of an [`EdgeRecord`].
pub struct EdgeView {
    pub name: Seq<char>,
    pub tail: nat,
    pub head: nat,
    pub attrs: Seq<AttrView>,
}

impl View for NodeRecord {
    type V = NodeView;

    open spec fn view(&self) -> NodeView {
        NodeView { name: self.name@, attrs: attrs_view(self.attrs@) }
    }
}

impl View for EdgeRecord {
    type V = EdgeView;

    open spec fn view(&self) -> EdgeView {
        EdgeView {
            name: self.name@,
            tail: self.tail as nat,
            head: self.head as nat,
            attrs: attrs_view(self.attrs@),
        }
    }
}

/// The attributes of a fresh graph with the given caption.
pub open spec fn graph_attrs(name: Seq<char>) -> Seq<AttrView> {
    seq![attr("label"@, name), attr("rankdir"@, "TB"@)]
}

/// The attributes of a fresh node: its index as identifier, its value as
/// label, drawn as a filled circle.
pub open spec fn node_attrs(id: nat, val: int) -> Seq<AttrView> {
    seq![
        attr("id"@, nat_text(id)),
        attr("label"@, int_text(val)),
        attr("shape"@, "circle"@),
        attr("style"@, "filled"@),
    ]
}

/// The text of an edge's direction attribute.
pub open spec fn dir_text(forward: bool) -> Seq<char> {
    if forward {
        "forward"@
    } else {
        "none"@
    }
}

/// The text of an edge's style attribute.
pub open spec fn style_text(dotted: bool) -> Seq<char> {
    if dotted {
        "dotted"@
    } else {
        "filled"@
    }
}

/// The attributes of a fresh edge: its index as identifier, whether it shows
/// an arrow head, and whether it is dotted.
pub open spec fn edge_attrs(id: nat, forward: bool, dotted: bool) -> Seq<AttrView> {
    seq![
        attr("id"@, nat_text(id)),
        attr("dir"@, dir_text(forward)),
        attr("style"@, style_text(dotted)),
    ]
}

/// The mathematical content of a drawing.
pub struct GsvgView {
    pub name: Seq<char>,
    pub attrs: Seq<AttrView>,
    pub nodes: Seq<NodeView>,
    pub edges: Seq<EdgeView>,
}

impl GsvgView {
    /// The empty drawing with the given caption.
    pub open spec fn blank(name: Seq<char>) -> GsvgView {
        GsvgView { name, attrs: graph_attrs(name), nodes: Seq::empty(), edges: Seq::empty() }
    }

    /// The drawing with one more node, labelled `val`.
    pub open spec fn with_node(self, val: int) -> GsvgView {
        GsvgView {
            nodes: self.nodes.push(
                NodeView { name: nat_text(self.nodes.len()), attrs: node_attrs(self.nodes.len(), val) },
            ),
            ..self
        }
    }

    /// The drawing with one more edge, from node `t` to node `h`.
    pub open spec fn with_edge(self, t: nat, h: nat, forward: bool, dotted: bool) -> GsvgView {
        GsvgView {
            edges: self.edges.push(
                EdgeView {
                    name: nat_text(self.edges.len()),
                    tail: t,
                    head: h,
                    attrs: edge_attrs(self.edges.len(), forward, dotted),
                },
            ),
            ..self
        }
    }

    /// The drawing after the pairs of `updates[i]` have been set, in order, on
    /// node `i`, for every node.
    pub open spec fn with_node_attrs(self, updates: Seq<Seq<(Seq<char>, Seq<char>)>>) -> GsvgView {
        GsvgView {
            nodes: Seq::new(
                self.nodes.len(),
                |i: int|
                    NodeView {
                        name: self.nodes[i].name,
                        attrs: self.nodes[i].attrs + pairs_attrs(updates[i]),
                    },
            ),
            ..self
        }
    }

    /// Whether the drawing can be handed to a layout engine: no text holds a
    /// NUL character, every node and edge is named by its index, and every
    /// edge joins two nodes of the drawing.
    pub open spec fn wf(self) -> bool {
        &&& nul_free(self.name)
        &&& attrs_plain(self.attrs)
        &&& forall|i: int|
            0 <= i < self.nodes.len() ==> {
                &&& (#[trigger] self.nodes[i]).name == nat_text(i as nat)
                &&& attrs_plain(self.nodes[i].attrs)
            }
        &&& forall|j: int|
            0 <= j < self.edges.len() ==> {
                &&& (#[trigger] self.edges[j]).name == nat_text(j as nat)
                &&& self.edges[j].tail < self.nodes.len()
                &&& self.edges[j].head < self.nodes.len()
                &&& attrs_plain(self.edges[j].attrs)
            }
    }
}

/// A drawing: a graph with a caption, nodes that show an integer each, and
/// edges between them.
pub struct GSVG {
    name: String,
    attrs: Attrs,
    nodes: Vec<NodeRecord>,
    edges: Vec<EdgeRecord>,
}

impl View for GSVG {
    type V = GsvgView;

    closed spec fn view(&self) -> GsvgView {
        GsvgView {
            name: self.name@,
            attrs: attrs_view(self.attrs@),
            nodes: Seq::new(self.nodes@.len(), |i: int| self.nodes@[i]@),
            edges: Seq::new(self.edges@.len(), |j: int| self.edges@[j]@),
        }
    }
}

/// The texts of one node's list of updates.
pub open spec fn update_view(pairs: Seq<(String, String)>) -> Seq<(Seq<char>, Seq<char>)> {
    Seq::new(pairs.len(), |k: int| (pairs[k].0@, pairs[k].1@))
}

/// The texts of the lists of updates, one list per node.
pub open spec fn updates_view(n_attrs: Seq<Vec<(String, String)>>) -> Seq<
    Seq<(Seq<char>, Seq<char>)>,
> {
    Seq::new(n_attrs.len(), |i: int| update_view(n_attrs[i]@))
}

/// Whether every key and value of every list of updates is free of NUL
/// characters.
pub open spec fn updates_plain(updates: Seq<Seq<(Seq<char>, Seq<char>)>>) -> bool {
    forall|i: int| 0 <= i < updates.len() ==> pairs_plain(#[trigger] updates[i])
}

/// The nodes of a well-formed drawing have different names, and so have its
/// edges.
pub proof fn lemma_names_distinct(g: GsvgView, i: int, j: int)
    requires
        g.wf(),
        i != j,
    ensures
        0 <= i < g.nodes.len() && 0 <= j < g.nodes.len() ==> g.nodes[i].name != g.nodes[j].name,
        0 <= i < g.edges.len() && 0 <= j < g.edges.len() ==> g.edges[i].name != g.edges[j].name,
{
    if 0 <= i && 0 <= j && nat_text(i as nat) == nat_text(j as nat) {
        lemma_nat_text_injective(i as nat, j as nat);
    }
}

/// After an update, a key that the update sets on a node has the value from
/// the update, the last one where it sets the key more than once. Every other
/// key of the node is as before.
pub proof fn lemma_update_lookup(
    g: GsvgView,
    updates: Seq<Seq<(Seq<char>, Seq<char>)>>,
    i: int,
    key: Seq<char>,
)
    requires
        0 <= i < g.nodes.len(),
    ensures
        lookup(g.with_node_attrs(updates).nodes[i].attrs, key) == match lookup(
            pairs_attrs(updates[i]),
            key,
        ) {
            Some(value) => Some(value),
            None => lookup(g.nodes[i].attrs, key),
        },
{
    lemma_lookup_concat(g.nodes[i].attrs, pairs_attrs(updates[i]), key);
}

proof fn lemma_literals_plain()
    ensures
        nul_free("label"@),
        nul_free("rankdir"@),
        nul_free("TB"@),
        nul_free("id"@),
        nul_free("shape"@),
        nul_free("circle"@),
        nul_free("style"@),
        nul_free("filled"@),
        nul_free("dir"@),
        nul_free("forward"@),
        nul_free("none"@),
        nul_free("dotted"@),
{
    reveal_strlit("label");
    reveal_strlit("rankdir");
    reveal_strlit("TB");
    reveal_strlit("id");
    reveal_strlit("shape");
    reveal_strlit("circle");
    reveal_strlit("style");
    reveal_strlit("filled");
    reveal_strlit("dir");
    reveal_strlit("forward");
    reveal_strlit("none");
    reveal_strlit("dotted");
}

impl GSVG {
    /// Whether the drawing can be handed to a layout engine.
    pub open spec fn wf(&self) -> bool {
        self@.wf()
    }

    /// Starts an empty drawing with the given caption, laid out from top to
    /// bottom.
    pub fn new(name: &str) -> (g: GSVG)
        requires
            nul_free(name@),
        ensures
            g@ == GsvgView::blank(name@),
            g.wf(),
    {
        proof {
            lemma_literals_plain();
        }
        let mut attrs: Attrs = Vec::new();
        attrs.push(make_attr("label", name));
        attrs.push(make_attr("rankdir", "TB"));
        let g = GSVG { name: String::from_str(name), attrs, nodes: Vec::new(), edges: Vec::new() };
        assert(g@.attrs =~= graph_attrs(name@));
        assert(g@.nodes =~= Seq::empty());
        assert(g@.edges =~= Seq::empty());
        g
    }

    /// Adds a node that shows `val`. Its index is the number of nodes added
    /// before it.
    pub fn node(&mut self, val: i32)
        requires
            old(self).wf(),
        ensures
            final(self)@ == old(self)@.with_node(val as int),
            final(self).wf(),
    {
        proof {
            lemma_literals_plain();
            lemma_nat_text_plain(self.nodes@.len());
            lemma_int_text_plain(val as int);
        }
        let id = nat_to_string(self.nodes.len() as u64);
        let label = int_to_string(val);
        let mut attrs: Attrs = Vec::new();
        attrs.push(make_attr("id", id.as_str()));
        attrs.push(make_attr("label", label.as_str()));
        attrs.push(make_attr("shape", "circle"));
        attrs.push(make_attr("style", "filled"));
        assert(attrs_view(attrs@) =~= node_attrs(self.nodes@.len(), val as int));
        self.nodes.push(NodeRecord { name: id, attrs });
        assert(self@.nodes =~= old(self)@.with_node(val as int).nodes);
        assert(self@.edges =~= old(self)@.edges);
    }

    /// Adds an edge from node `t` to node `h`, with an arrow head if `forward`
    /// and drawn dotted if `dotted`.
    pub fn edge(&mut self, t: usize, h: usize, forward: bool, dotted: bool)
        requires
            old(self).wf(),
            t < old(self)@.nodes.len(),
            h < old(self)@.nodes.len(),
        ensures
            final(self)@ == old(self)@.with_edge(t as nat, h as nat, forward, dotted),
            final(self).wf(),
    {
        proof {
            lemma_literals_plain();
            lemma_nat_text_plain(self.edges@.len());
        }
        let id = nat_to_string(self.edges.len() as u64);
        let mut attrs: Attrs = Vec::new();
        attrs.push(make_attr("id", id.as_str()));
        attrs.push(make_attr("dir", if forward { "forward" } else { "none" }));
        attrs.push(make_attr("style", if dotted { "dotted" } else { "filled" }));
        assert(attrs_view(attrs@) =~= edge_attrs(self.edges@.len(), forward, dotted));
        self.edges.push(EdgeRecord { name: id, tail: t, head: h, attrs });
        assert(self@.edges =~= old(self)@.with_edge(t as nat, h as nat, forward, dotted).edges);
        assert(self@.nodes =~= old(self)@.nodes);
    }

    /// Sets further attributes on the nodes: the pairs of `n_attrs[i]` on node
    /// `i`, in order. A key that was set before takes the new value.
    pub fn update_nodes(&mut self, n_attrs: Vec<Vec<(String, String)>>)
        requires
            old(self).wf(),
            n_attrs@.len() == old(self)@.nodes.len(),
            updates_plain(updates_view(n_attrs@)),
        ensures
            final(self)@ == old(self)@.with_node_attrs(updates_view(n_attrs@)),
            final(self).wf(),
    {
        let ghost updates = updates_view(n_attrs@);
        let n: usize = self.nodes.len();
        let mut i: usize = 0;
        while i < n
            invariant
                n == self.nodes@.len(),
                n == n_attrs@.len(),
                n == old(self)@.nodes.len(),
                i <= n,
                updates == updates_view(n_attrs@),
                updates_plain(updates),
                old(self).wf(),
                self.name == old(self).name,
                self.attrs == old(self).attrs,
                self.edges == old(self).edges,
                forall|j: int|
                    i <= j < n ==> (#[trigger] self.nodes@[j])@ == old(self)@.nodes[j],
                forall|j: int|
                    0 <= j < i ==> (#[trigger] self.nodes@[j])@ == old(self)@.with_node_attrs(
                        updates,
                    ).nodes[j],
            decreases n - i,
        {
            let pairs = &n_attrs[i];
            let m: usize = pairs.len();
            let ghost start = attrs_view(self.nodes@[i as int].attrs@);
            let ghost texts = updates[i as int];
            assert(texts == update_view(pairs@));
            assert(pairs_plain(texts));
            let mut k: usize = 0;
            while k < m
                invariant
                    n == self.nodes@.len(),
                    i < n,
                    m == pairs@.len(),
                    k <= m,
                    texts == update_view(pairs@),
                    pairs_plain(texts),
                    self.name == old(self).name,
                    self.attrs == old(self).attrs,
                    self.edges == old(self).edges,
                    n == old(self)@.nodes.len(),
                    self.nodes@[i as int].name@ == old(self)@.nodes[i as int].name,
                    start == old(self)@.nodes[i as int].attrs,
                    attrs_view(self.nodes@[i as int].attrs@) == start + pairs_attrs(
                        texts.subrange(0, k as int),
                    ),
                    forall|j: int|
                        i < j < n ==> (#[trigger] self.nodes@[j])@ == old(self)@.nodes[j],
                    forall|j: int|
                        0 <= j < i ==> (#[trigger] self.nodes@[j])@ == old(self)@.with_node_attrs(
                            updates,
                        ).nodes[j],
                decreases m - k,
            {
                assert(texts[k as int] == (pairs@[k as int].0@, pairs@[k as int].1@));
                let a = make_attr(pairs[k].0.as_str(), pairs[k].1.as_str());
                let ghost before = attrs_view(self.nodes@[i as int].attrs@);
                self.nodes[i].attrs.push(a);
                assert(attrs_view(self.nodes@[i as int].attrs@) =~= before.push(a@));
                assert(pairs_attrs(texts.subrange(0, k + 1)) =~= pairs_attrs(
                    texts.subrange(0, k as int),
                ).push(a@));
                k = k + 1;
            }
            assert(texts.subrange(0, m as int) =~= texts);
            i = i + 1;
        }
        assert(self@.nodes =~= old(self)@.with_node_attrs(updates).nodes);
        assert(self@.edges =~= old(self)@.edges);
        proof {
            let g = self@;
            assert forall|j: int| 0 <= j < g.nodes.len() implies attrs_plain(
                (#[trigger] g.nodes[j]).attrs,
            ) by {
                let extra = pairs_attrs(updates[j]);
                assert(pairs_plain(updates[j]));
                assert forall|q: int| 0 <= q < g.nodes[j].attrs.len() implies crate::attrs::attr_plain(
                    #[trigger] g.nodes[j].attrs[q],
                ) by {
                    let base = old(self)@.nodes[j].attrs;
                    if q < base.len() {
                        assert(g.nodes[j].attrs[q] == base[q]);
                    } else {
                        assert(g.nodes[j].attrs[q] == extra[q - base.len()]);
                        assert(nul_free(updates[j][q - base.len()].0));
                    }
                }
            }
        }
    }

    /// The caption that the drawing was started with.
    pub fn name(&self) -> (name: &String)
        ensures
            name@ == self@.name,
    {
        &self.name
    }

    /// The attributes of the graph itself.
    pub fn attrs(&self) -> (attrs: &Attrs)
        ensures
            attrs_view(attrs@) == self@.attrs,
    {
        &self.attrs
    }

    /// The number of nodes.
    pub fn node_count(&self) -> (n: usize)
        ensures
            n == self@.nodes.len(),
    {
        self.nodes.len()
    }

    /// The number of edges.
    pub fn edge_count(&self) -> (n: usize)
        ensures
            n == self@.edges.len(),
    {
        self.edges.len()
    }

    /// The node with index `i`.
    pub fn node_at(&self, i: usize) -> (node: &NodeRecord)
        requires
            i < self@.nodes.len(),
        ensures
            node@ == self@.nodes[i as int],
    {
        &self.nodes[i]
    }

    /// The edge with index `j`.
    pub fn edge_at(&self, j: usize) -> (edge: &EdgeRecord)
        requires
            j < self@.edges.len(),
        ensures
            edge@ == self@.edges[j as int],
    {
        &self.edges[j]
    }
}

} // verus!
