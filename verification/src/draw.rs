//! Drawing trees and graphs: which nodes and edges each of them becomes.
use crate::attrs::nul_free;
use crate::decimal::nat_text;
use crate::graph::{Edge, EdgeKind, Graph};
use crate::gsvg::{node_attrs, GsvgView, NodeView, GSVG};
use crate::tree::{preorder, tree_size, TreeLink};
use vstd::prelude::*;

verus! {

/// The index that a parent was drawn under, if there is a parent.
pub open spec fn parent_view(parent_id: Option<usize>) -> Option<nat> {
    match parent_id {
        None => None,
        Some(pid) => Some(pid as nat),
    }
}

/// The drawing `g` with the tree `t` added below `parent`, the nodes numbered
/// from `id` on: the root, joined to its parent if it has one, then the left
/// subtree, then the right subtree.
pub open spec fn tree_drawn(g: GsvgView, t: TreeLink, parent: Option<nat>, id: nat) -> GsvgView
    decreases t,
{
    match t {
        None => g,
        Some(node) => {
            let with_root = g.with_node(node.val as int);
            let joined = match parent {
                None => with_root,
                Some(pid) => with_root.with_edge(pid, id, false, false),
            };
            let with_left = tree_drawn(joined, node.left, Some(id), id + 1);
            tree_drawn(with_left, node.right, Some(id), id + 1 + tree_size(node.left))
        },
    }
}

/// Whether the tree `t` can be added below `parent` with numbers from `id` on
/// to a drawing of `count` nodes: every edge then joins nodes that exist, and
/// the numbers stay within the machine's range.
pub open spec fn tree_fits(t: TreeLink, parent: Option<nat>, id: nat, count: nat) -> bool {
    match t {
        None => true,
        Some(node) => {
            &&& id + tree_size(t) <= usize::MAX
            &&& parent matches Some(pid) ==> pid <= count
            &&& (parent is Some || node.left is Some || node.right is Some) ==> id <= count
        },
    }
}

/// Something that can be shown as a drawing.
pub trait Draw {
    /// Whether a drawing of this value exists.
    spec fn drawable(&self) -> bool;

    /// The drawing of this value under a caption.
    spec fn drawing(&self, caption: Seq<char>) -> GsvgView;

    /// Draws this value under the given caption.
    fn draw(&self, caption: &str) -> (g: GSVG)
        requires
            self.drawable(),
            nul_free(caption@),
        ensures
            g@ == self.drawing(caption@),
            g.wf(),
    ;
}

/// A tree that can be added to a drawing, node by node.
pub trait DrawTree {
    /// The number of nodes that drawing adds.
    spec fn size(&self) -> nat;

    /// Whether the tree can be added to a drawing of `count` nodes.
    spec fn fits(&self, parent: Option<nat>, id: nat, count: nat) -> bool;

    /// The drawing `g` with this tree added.
    spec fn drawn(&self, g: GsvgView, parent: Option<nat>, id: nat) -> GsvgView;

    /// Adds this tree to `gsvg` below the node `parent_id`, numbering its
    /// nodes from `*id` on, and leaves in `*id` the next free number.
    fn draw_r(&self, parent_id: Option<usize>, id: &mut usize, gsvg: &mut GSVG)
        requires
            old(gsvg).wf(),
            self.fits(parent_view(parent_id), *old(id) as nat, old(gsvg)@.nodes.len()),
        ensures
            final(gsvg)@ == self.drawn(old(gsvg)@, parent_view(parent_id), *old(id) as nat),
            *final(id) == *old(id) + self.size(),
            final(gsvg).wf(),
    ;
}

/// The node that shows `val` at index `i` of a drawing.
pub open spec fn fresh_node(i: nat, val: int) -> NodeView {
    NodeView { name: nat_text(i), attrs: node_attrs(i, val) }
}

/// The number of edges that drawing the tree `t` below `parent` adds: one for
/// each node but a root without a parent.
pub open spec fn tree_edge_count(t: TreeLink, parent: Option<nat>) -> nat {
    if t is Some && parent is None {
        (tree_size(t) - 1) as nat
    } else {
        tree_size(t)
    }
}

/// Drawing a tree keeps the caption, the graph's attributes, the nodes and
/// the edges that were there. It adds one node for each node of the tree, in
/// the order root, left subtree, right subtree, each showing its value, and
/// one edge for each node that has a parent.
pub proof fn lemma_tree_drawn_nodes(g: GsvgView, t: TreeLink, parent: Option<nat>, id: nat)
    ensures
        tree_drawn(g, t, parent, id).name == g.name,
        tree_drawn(g, t, parent, id).attrs == g.attrs,
        tree_drawn(g, t, parent, id).nodes.len() == g.nodes.len() + tree_size(t),
        tree_drawn(g, t, parent, id).nodes.subrange(0, g.nodes.len() as int) == g.nodes,
        forall|i: int|
            0 <= i < tree_size(t) ==> #[trigger] tree_drawn(g, t, parent, id).nodes[g.nodes.len()
                + i] == fresh_node((g.nodes.len() + i) as nat, preorder(t)[i] as int),
        tree_drawn(g, t, parent, id).edges.len() == g.edges.len() + tree_edge_count(t, parent),
        tree_drawn(g, t, parent, id).edges.subrange(0, g.edges.len() as int) == g.edges,
    decreases t,
{
    let out = tree_drawn(g, t, parent, id);
    if let Some(node) = t {
        let with_root = g.with_node(node.val as int);
        let joined = match parent {
            None => with_root,
            Some(pid) => with_root.with_edge(pid, id, false, false),
        };
        lemma_tree_drawn_nodes(joined, node.left, Some(id), id + 1);
        let with_left = tree_drawn(joined, node.left, Some(id), id + 1);
        lemma_tree_drawn_nodes(with_left, node.right, Some(id), id + 1 + tree_size(node.left));
        crate::tree::lemma_preorder_len(node.left);
        crate::tree::lemma_preorder_len(node.right);
        let base = g.nodes.len() as int;
        let nl = tree_size(node.left) as int;
        assert(joined.nodes == g.nodes.push(fresh_node(g.nodes.len(), node.val as int)));
        assert forall|i: int| 0 <= i < joined.nodes.len() implies out.nodes[i] == joined.nodes[i] by {
            assert(with_left.nodes.subrange(0, joined.nodes.len() as int)[i] == joined.nodes[i]);
            assert(out.nodes.subrange(0, with_left.nodes.len() as int)[i] == with_left.nodes[i]);
        }
        assert forall|i: int| 0 <= i < with_left.nodes.len() implies out.nodes[i]
            == with_left.nodes[i] by {
            assert(out.nodes.subrange(0, with_left.nodes.len() as int)[i] == with_left.nodes[i]);
        }
        assert(out.nodes.subrange(0, base) =~= g.nodes);
        assert forall|i: int| 0 <= i < tree_size(t) implies #[trigger] out.nodes[base + i]
            == fresh_node((base + i) as nat, preorder(t)[i] as int) by {
            if i == 0 {
                assert(out.nodes[base] == joined.nodes[base]);
            } else if i <= nl {
                assert(with_left.nodes[joined.nodes.len() + (i - 1)] == fresh_node(
                    (joined.nodes.len() + (i - 1)) as nat,
                    preorder(node.left)[i - 1] as int,
                ));
                assert(out.nodes[base + i] == with_left.nodes[base + i]);
            } else {
                assert(out.nodes[with_left.nodes.len() + (i - 1 - nl)] == fresh_node(
                    (with_left.nodes.len() + (i - 1 - nl)) as nat,
                    preorder(node.right)[i - 1 - nl] as int,
                ));
            }
        }
        assert forall|j: int| 0 <= j < joined.edges.len() implies out.edges[j] == joined.edges[j] by {
            assert(with_left.edges.subrange(0, joined.edges.len() as int)[j] == joined.edges[j]);
            assert(out.edges.subrange(0, with_left.edges.len() as int)[j] == with_left.edges[j]);
        }
        assert(out.edges.subrange(0, g.edges.len() as int) =~= g.edges);
    } else {
        assert(out.nodes.subrange(0, g.nodes.len() as int) =~= g.nodes);
        assert(out.edges.subrange(0, g.edges.len() as int) =~= g.edges);
    }
}

impl DrawTree for TreeLink {
    open spec fn size(&self) -> nat {
        tree_size(*self)
    }

    open spec fn fits(&self, parent: Option<nat>, id: nat, count: nat) -> bool {
        tree_fits(*self, parent, id, count)
    }

    open spec fn drawn(&self, g: GsvgView, parent: Option<nat>, id: nat) -> GsvgView {
        tree_drawn(g, *self, parent, id)
    }

    fn draw_r(&self, parent_id: Option<usize>, id: &mut usize, gsvg: &mut GSVG)
        decreases *self,
    {
        if let Some(node) = self {
            let nid: usize = *id;
            gsvg.node(node.val);
            if let Some(pid) = parent_id {
                gsvg.edge(pid, nid, false, false);
            }
            *id = nid + 1;
            let ghost g1 = gsvg@;
            node.left.draw_r(Some(nid), id, gsvg);
            proof {
                lemma_tree_drawn_nodes(g1, node.left, Some(nid as nat), (nid + 1) as nat);
            }
            node.right.draw_r(Some(nid), id, gsvg);
        }
    }
}

impl Draw for TreeLink {
    open spec fn drawable(&self) -> bool {
        tree_size(*self) <= usize::MAX
    }

    open spec fn drawing(&self, caption: Seq<char>) -> GsvgView {
        tree_drawn(GsvgView::blank(caption), *self, None, 0)
    }

    fn draw(&self, caption: &str) -> (g: GSVG) {
        let mut gsvg = GSVG::new(caption);
        let mut id: usize = 0;
        self.draw_r(None, &mut id, &mut gsvg);
        gsvg
    }
}

/// The label of the node that stands for the index `i`: the index as a 32-bit
/// signed integer, of which only the low 32 bits are kept.
pub open spec fn index_label(i: nat) -> int {
    (i as i32) as int
}

/// The drawing `g` with `n` more nodes, labelled `0`, `1`, and so on.
pub open spec fn with_nodes(g: GsvgView, n: nat) -> GsvgView
    decreases n,
{
    if n == 0 {
        g
    } else {
        with_nodes(g, (n - 1) as nat).with_node(index_label((n - 1) as nat))
    }
}

/// An index that fits in 32 bits with a sign is its own label.
pub proof fn lemma_index_label_small(i: nat)
    requires
        i <= i32::MAX,
    ensures
        index_label(i) == i,
{
}

/// Adding numbered nodes keeps what was there and adds one node for each
/// number, in order.
pub proof fn lemma_with_nodes(g: GsvgView, n: nat)
    ensures
        with_nodes(g, n).name == g.name,
        with_nodes(g, n).attrs == g.attrs,
        with_nodes(g, n).edges == g.edges,
        with_nodes(g, n).nodes.len() == g.nodes.len() + n,
        with_nodes(g, n).nodes.subrange(0, g.nodes.len() as int) == g.nodes,
        forall|i: int|
            0 <= i < n ==> #[trigger] with_nodes(g, n).nodes[g.nodes.len() + i] == fresh_node(
                (g.nodes.len() + i) as nat,
                index_label(i as nat),
            ),
    decreases n,
{
    let out = with_nodes(g, n);
    if n > 0 {
        let before = with_nodes(g, (n - 1) as nat);
        lemma_with_nodes(g, (n - 1) as nat);
        assert forall|i: int| 0 <= i < g.nodes.len() implies out.nodes[i] == g.nodes[i] by {
            assert(before.nodes.subrange(0, g.nodes.len() as int)[i] == g.nodes[i]);
        }
        assert forall|i: int| 0 <= i < n implies #[trigger] out.nodes[g.nodes.len() + i]
            == fresh_node((g.nodes.len() + i) as nat, index_label(i as nat)) by {
            if i < n - 1 {
                assert(out.nodes[g.nodes.len() + i] == before.nodes[g.nodes.len() + i]);
            }
        }
    }
    assert(out.nodes.subrange(0, g.nodes.len() as int) =~= g.nodes);
}

/// The drawing `g` with a plain edge from node `u` to each node of `vs`, in
/// order.
pub open spec fn with_row(g: GsvgView, u: nat, vs: Seq<usize>) -> GsvgView
    decreases vs.len(),
{
    if vs.len() == 0 {
        g
    } else {
        with_row(g, u, vs.drop_last()).with_edge(u, vs.last() as nat, false, false)
    }
}

/// The drawing `g` with the edges of the adjacency lists `rows`: those of
/// node `0` first, then those of node `1`, and so on.
pub open spec fn with_rows(g: GsvgView, rows: Seq<Seq<usize>>) -> GsvgView
    decreases rows.len(),
{
    if rows.len() == 0 {
        g
    } else {
        with_row(with_rows(g, rows.drop_last()), (rows.len() - 1) as nat, rows.last())
    }
}

/// The adjacency lists that a vector of vectors holds.
pub open spec fn rows_view(adj: Seq<Vec<usize>>) -> Seq<Seq<usize>> {
    Seq::new(adj.len(), |u: int| adj[u]@)
}

/// The drawing `g` with one arrow for each edge of `edges`, in order: solid
/// for a tree edge, dotted for any other.
pub open spec fn with_classified(g: GsvgView, edges: Seq<Edge>) -> GsvgView
    decreases edges.len(),
{
    if edges.len() == 0 {
        g
    } else {
        let e = edges.last();
        with_classified(g, edges.drop_last()).with_edge(
            e.tail as nat,
            e.head as nat,
            true,
            e.kind != EdgeKind::TreeEdge,
        )
    }
}

/// Adds `n` nodes labelled by their position to a drawing.
fn add_nodes(gsvg: &mut GSVG, n: usize)
    requires
        old(gsvg).wf(),
    ensures
        final(gsvg)@ == with_nodes(old(gsvg)@, n as nat),
        final(gsvg)@.nodes.len() == old(gsvg)@.nodes.len() + n,
        final(gsvg).wf(),
{
    let mut i: usize = 0;
    while i < n
        invariant
            i <= n,
            gsvg.wf(),
            gsvg@ == with_nodes(old(gsvg)@, i as nat),
            gsvg@.nodes.len() == old(gsvg)@.nodes.len() + i,
        decreases n - i,
    {
        gsvg.node(#[verifier::truncate] (i as i32));
        i = i + 1;
    }
}

impl Draw for Vec<Vec<usize>> {
    open spec fn drawable(&self) -> bool {
        forall|u: int, k: int|
            0 <= u < self@.len() && 0 <= k < self@[u]@.len() ==> (#[trigger] self@[u]@[k])
                < self@.len()
    }

    open spec fn drawing(&self, caption: Seq<char>) -> GsvgView {
        with_rows(with_nodes(GsvgView::blank(caption), self@.len()), rows_view(self@))
    }

    fn draw(&self, caption: &str) -> (g: GSVG) {
        let mut gsvg = GSVG::new(caption);
        let n: usize = self.len();
        add_nodes(&mut gsvg, n);
        let ghost base = gsvg@;
        let ghost rows = rows_view(self@);
        let mut u: usize = 0;
        while u < n
            invariant
                n == self@.len(),
                u <= n,
                self.drawable(),
                rows == rows_view(self@),
                gsvg.wf(),
                gsvg@.nodes.len() == n,
                gsvg@ == with_rows(base, rows.subrange(0, u as int)),
            decreases n - u,
        {
            let vs = &self[u];
            let m: usize = vs.len();
            let ghost start = gsvg@;
            let mut k: usize = 0;
            while k < m
                invariant
                    n == self@.len(),
                    u < n,
                    self.drawable(),
                    vs == &self@[u as int],
                    m == vs@.len(),
                    k <= m,
                    gsvg.wf(),
                    gsvg@.nodes.len() == n,
                    gsvg@ == with_row(start, u as nat, vs@.subrange(0, k as int)),
                decreases m - k,
            {
                let v: usize = vs[k];
                assert(self@[u as int]@[k as int] < self@.len());
                gsvg.edge(u, v, false, false);
                proof {
                    let upto = vs@.subrange(0, k + 1);
                    assert(upto.drop_last() =~= vs@.subrange(0, k as int));
                    assert(upto.last() == v);
                }
                k = k + 1;
            }
            proof {
                assert(vs@.subrange(0, m as int) =~= vs@);
                let upto = rows.subrange(0, u + 1);
                assert(upto.drop_last() =~= rows.subrange(0, u as int));
                assert(upto.last() == vs@);
            }
            u = u + 1;
        }
        assert(rows.subrange(0, n as int) =~= rows);
        gsvg
    }
}

impl Draw for Graph {
    open spec fn drawable(&self) -> bool {
        self.wf()
    }

    open spec fn drawing(&self, caption: Seq<char>) -> GsvgView {
        with_classified(with_nodes(GsvgView::blank(caption), self.n as nat), self.edges@)
    }

    fn draw(&self, caption: &str) -> (g: GSVG) {
        let mut gsvg = GSVG::new(caption);
        let n: usize = self.n;
        add_nodes(&mut gsvg, n);
        let ghost base = gsvg@;
        let m: usize = self.edges.len();
        let mut j: usize = 0;
        while j < m
            invariant
                n == self.n,
                m == self.edges@.len(),
                j <= m,
                self.wf(),
                gsvg.wf(),
                gsvg@.nodes.len() == n,
                gsvg@ == with_classified(base, self.edges@.subrange(0, j as int)),
            decreases m - j,
        {
            let e = &self.edges[j];
            match e.kind {
                EdgeKind::TreeEdge => gsvg.edge(e.tail, e.head, true, false),
                _ => gsvg.edge(e.tail, e.head, true, true),
            }
            proof {
                let upto = self.edges@.subrange(0, j + 1);
                assert(upto.drop_last() =~= self.edges@.subrange(0, j as int));
                assert(upto.last() == *e);
            }
            j = j + 1;
        }
        assert(self.edges@.subrange(0, m as int) =~= self.edges@);
        gsvg
    }
}

} // verus!
