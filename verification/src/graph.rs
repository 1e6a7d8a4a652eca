//! Graphs whose edges carry the class that a depth-first traversal gives them.
use vstd::prelude::*;
use vstd::set_lib::{lemma_int_range, lemma_len_subset, set_int_range};

verus! {

/// The class of an edge with respect to a depth-first traversal.
#[derive(Clone, Copy, Debug, PartialEq, Eq, Structural)]
pub enum EdgeKind {
    /// The edge by which its head was first reached.
    TreeEdge,
    /// An edge to a node that was still being explored: to the tail itself or
    /// to one of the nodes above it.
    BackEdge,
    /// A further edge to a node that had been reached from below the tail.
    ForwardEdge,
    /// An edge to a node that had been explored before the tail was reached.
    CrossEdge,
}

/// A directed edge from `tail` to `head`.
#[derive(Clone, Copy, Debug, PartialEq, Eq, Structural)]
pub struct Edge {
    pub tail: usize,
    pub head: usize,
    pub kind: EdgeKind,
}

/// A graph on the nodes `0 .. n`.
pub struct Graph {
    pub n: usize,
    pub edges: Vec<Edge>,
}

/// The two numberings that a depth-first traversal gives the nodes.
pub struct Traversal {
    /// `entered[u]` is the place of `u`, counted from 1, in the order in which
    /// the nodes are first reached.
    pub entered: Vec<usize>,
    /// `left[u]` is the place of `u`, counted from 1, in the order in which
    /// the exploration of the nodes ends.
    pub left: Vec<usize>,
    /// `via[v]` is the index of the edge by which `v` was first reached, or
    /// `None` where the traversal started anew at `v`.
    pub via: Vec<Option<usize>>,
}

/// Whether every entry of `pairs` names two nodes of a graph on `n` nodes.
pub open spec fn pairs_fit(pairs: Seq<Vec<i32>>, n: nat) -> bool {
    forall|k: int|
        0 <= k < pairs.len() ==> (#[trigger] pairs[k])@.len() == 2 && 0 <= pairs[k]@[0] < n && 0
            <= pairs[k]@[1] < n
}

/// The edge from `tail` to `head` before any traversal has classified it: it
/// counts as a tree edge.
pub open spec fn plain_edge(tail: int, head: int) -> Edge {
    Edge { tail: tail as usize, head: head as usize, kind: EdgeKind::TreeEdge }
}

/// The edges that a list of pairs stands for, in order. A pair `[a, b]` gives
/// the edge from `a` to `b`, and unless the graph is directed it also gives,
/// right after it, the edge from `b` to `a`.
pub open spec fn edges_of(pairs: Seq<Vec<i32>>, directed: bool) -> Seq<Edge>
    decreases pairs.len(),
{
    if pairs.len() == 0 {
        Seq::empty()
    } else {
        let p = pairs.last()@;
        let before = edges_of(pairs.drop_last(), directed).push(plain_edge(p[0] as int, p[1] as int));
        if directed {
            before
        } else {
            before.push(plain_edge(p[1] as int, p[0] as int))
        }
    }
}

/// Whether an edge of class `kind` agrees with the places of its ends: `eu`
/// and `ev` are the places at which tail and head were entered, `lu` and `lv`
/// those at which they were left.
///
/// The head of a tree or forward edge is entered after the tail and left
/// before it. The head of a back edge is entered no later than the tail and
/// left no earlier. The head of a cross edge is entered and left before the
/// tail.
pub open spec fn kind_fits(kind: EdgeKind, eu: int, ev: int, lu: int, lv: int) -> bool {
    match kind {
        EdgeKind::TreeEdge => eu < ev && lv < lu,
        EdgeKind::ForwardEdge => eu < ev && lv < lu,
        EdgeKind::BackEdge => ev <= eu && lu <= lv,
        EdgeKind::CrossEdge => ev < eu && lv < lu,
    }
}

/// Whether two edge lists join the same nodes in the same order.
pub open spec fn same_ends(a: Seq<Edge>, b: Seq<Edge>) -> bool {
    &&& a.len() == b.len()
    &&& forall|j: int|
        0 <= j < a.len() ==> (#[trigger] a[j]).tail == b[j].tail && a[j].head == b[j].head
}

/// Whether `places` numbers the nodes `0 .. n` from 1 to `n`, each number
/// used once.
pub open spec fn numbering(places: Seq<usize>, n: nat) -> bool {
    &&& places.len() == n
    &&& forall|u: int| 0 <= u < n ==> 1 <= #[trigger] places[u] <= n
    &&& forall|u: int, v: int| 0 <= u < n && 0 <= v < n && u != v ==> places[u] != places[v]
}

/// Whether every edge has the class that the two numberings give it.
pub open spec fn classified(edges: Seq<Edge>, entered: Seq<usize>, left: Seq<usize>) -> bool {
    forall|j: int|
        0 <= j < edges.len() ==> kind_fits(
            (#[trigger] edges[j]).kind,
            entered[edges[j].tail as int] as int,
            entered[edges[j].head as int] as int,
            left[edges[j].tail as int] as int,
            left[edges[j].head as int] as int,
        )
}

/// Whether no node that was entered after the place `after` and before the
/// node `v` was still being explored when `v` was left.
pub open spec fn nothing_between(entered: Seq<usize>, left: Seq<usize>, after: int, v: int) -> bool {
    forall|x: int|
        0 <= x < entered.len() && after < #[trigger] entered[x] < entered[v] ==> left[x] < left[v]
}

/// Whether the heads of all edges that leave `edges[j]`'s tail and stand
/// before it in the list were entered before the node `v`.
pub open spec fn earlier_edges_done(edges: Seq<Edge>, entered: Seq<usize>, j: int, v: int) -> bool {
    forall|i: int|
        0 <= i < j && (#[trigger] edges[i]).tail == edges[j].tail ==> entered[edges[i].head as int]
            < entered[v]
}

/// Whether `via` names, for every node, how the traversal came to it.
///
/// A node without such an edge is a start: all nodes of smaller index were
/// entered before it, and none of them was still being explored. A node
/// with such an edge is the head of that edge, which is a tree edge; its tail
/// is the last node entered before it that was still being explored, and the
/// edges that leave the tail earlier in the list had been followed. Every tree
/// edge is the edge of its head.
pub open spec fn forest(
    edges: Seq<Edge>,
    entered: Seq<usize>,
    left: Seq<usize>,
    via: Seq<Option<usize>>,
) -> bool {
    &&& via.len() == entered.len()
    &&& forall|v: int|
        0 <= v < via.len() ==> match #[trigger] via[v] {
            None => {
                &&& nothing_between(entered, left, 0, v)
                &&& forall|x: int| 0 <= x < v ==> #[trigger] entered[x] < entered[v]
            },
            Some(j) => {
                &&& j < edges.len()
                &&& edges[j as int].head == v
                &&& edges[j as int].kind == EdgeKind::TreeEdge
                &&& nothing_between(entered, left, entered[edges[j as int].tail as int] as int, v)
                &&& earlier_edges_done(edges, entered, j as int, v)
            },
        }
    &&& forall|j: int|
        0 <= j < edges.len() && (#[trigger] edges[j]).kind == EdgeKind::TreeEdge ==> via[edges[j].head as int]
            == Some(j as usize)
}

/// As [`nothing_between`], while some nodes have no place yet: the nodes in
/// between have been left.
spec fn settled_between(entered: Seq<usize>, left: Seq<usize>, after: int, v: int) -> bool {
    forall|x: int|
        0 <= x < entered.len() && after < #[trigger] entered[x] < entered[v] ==> 0 < left[x]
            < left[v]
}

/// As [`earlier_edges_done`], while some nodes have no place yet: the heads
/// have been entered.
spec fn earlier_heads(edges: Seq<Edge>, entered: Seq<usize>, j: int, v: int) -> bool {
    forall|i: int|
        0 <= i < j && (#[trigger] edges[i]).tail == edges[j].tail ==> 0
            < entered[edges[i].head as int] < entered[v]
}

/// What is known of an edge while nodes are still being explored: a place
/// that is 0 has not been given yet.
spec fn fits_so_far(kind: EdgeKind, eu: int, ev: int, lu: int, lv: int) -> bool {
    match kind {
        EdgeKind::TreeEdge => 0 < eu < ev && lv > 0 && (lu > 0 ==> lv < lu),
        EdgeKind::ForwardEdge => 0 < eu < ev && lv > 0 && (lu > 0 ==> lv < lu),
        EdgeKind::BackEdge => 0 < ev <= eu && (lv > 0 ==> 0 < lu <= lv),
        EdgeKind::CrossEdge => 0 < ev < eu && lv > 0 && (lu > 0 ==> lv < lu),
    }
}

/// The state of a traversal that is under way.
struct Walk {
    entered: Vec<usize>,
    left: Vec<usize>,
    kinds: Vec<EdgeKind>,
    via: Vec<Option<usize>>,
    n_entered: usize,
    n_left: usize,
    found: Ghost<Set<int>>,
    open_count: Ghost<nat>,
    seen: Ghost<Seq<bool>>,
}

impl Walk {
    spec fn inv(&self, g: &Graph) -> bool {
        let n = g.n as int;
        &&& g.wf()
        &&& self.entered@.len() == n
        &&& self.left@.len() == n
        &&& self.kinds@.len() == g.edges@.len()
        &&& self.via@.len() == n
        &&& self.seen@.len() == g.edges@.len()
        &&& self.n_entered <= n
        &&& self.n_entered == self.n_left + self.open_count@
        &&& self.found@.finite()
        &&& self.found@.len() == self.n_entered
        &&& forall|u: int| self.found@.contains(u) <==> 0 <= u < n && self.entered@[u] > 0
        &&& forall|u: int| 0 <= u < n ==> #[trigger] self.entered@[u] <= self.n_entered
        &&& forall|u: int| 0 <= u < n ==> #[trigger] self.left@[u] <= self.n_left
        &&& forall|u: int| 0 <= u < n && #[trigger] self.left@[u] > 0 ==> self.entered@[u] > 0
        &&& forall|u: int, v: int|
            0 <= u < n && 0 <= v < n && u != v && #[trigger] self.entered@[u] > 0
                && #[trigger] self.entered@[v] > 0 ==> self.entered@[u] != self.entered@[v]
        &&& forall|u: int, v: int|
            0 <= u < n && 0 <= v < n && u != v && #[trigger] self.left@[u] > 0
                && #[trigger] self.left@[v] > 0 ==> self.left@[u] != self.left@[v]
        &&& forall|j: int|
            0 <= j < g.edges@.len() && #[trigger] self.seen@[j] ==> fits_so_far(
                self.kinds@[j],
                self.entered@[g.edges@[j].tail as int] as int,
                self.entered@[g.edges@[j].head as int] as int,
                self.left@[g.edges@[j].tail as int] as int,
                self.left@[g.edges@[j].head as int] as int,
            )
        &&& forall|j: int|
            0 <= j < g.edges@.len() && self.left@[(#[trigger] g.edges@[j]).tail as int] > 0
                ==> self.seen@[j]
        &&& forall|v: int| 0 <= v < n && self.entered@[v] == 0 ==> #[trigger] self.via@[v] is None
        &&& forall|v: int|
            0 <= v < n && #[trigger] self.via@[v] is Some ==> self.reached_by(g, v, self.via@[v]->0)
        &&& forall|j: int|
            0 <= j < g.edges@.len() && #[trigger] self.seen@[j] && self.kinds@[j]
                == EdgeKind::TreeEdge ==> self.via@[g.edges@[j].head as int] == Some(j as usize)
    }

    /// What holds of a node `v` that was first reached by the edge `j`.
    spec fn reached_by(&self, g: &Graph, v: int, j: usize) -> bool {
        &&& j < g.edges@.len()
        &&& self.seen@[j as int]
        &&& self.kinds@[j as int] == EdgeKind::TreeEdge
        &&& g.edges@[j as int].head == v
        &&& self.left@[v] > 0
        &&& settled_between(
            self.entered@,
            self.left@,
            self.entered@[g.edges@[j as int].tail as int] as int,
            v,
        )
        &&& earlier_heads(g.edges@, self.entered@, j as int, v)
    }

    /// How the state after a visit relates to the state before it: places
    /// that were given stay, nodes under exploration stay so, and every node
    /// that was entered meanwhile has been left again.
    spec fn grown_from(&self, before: &Walk, n: int) -> bool {
        &&& self.n_entered >= before.n_entered
        &&& self.n_left >= before.n_left
        &&& self.open_count@ == before.open_count@
        &&& forall|u: int|
            0 <= u < n && #[trigger] before.entered@[u] > 0 ==> self.entered@[u]
                == before.entered@[u] && self.left@[u] == before.left@[u]
        &&& forall|u: int|
            0 <= u < n && #[trigger] before.entered@[u] == 0 && self.entered@[u] > 0
                ==> self.entered@[u] > before.n_entered && self.left@[u] > before.n_left
        &&& forall|u: int|
            0 <= u < n && #[trigger] before.entered@[u] > 0 ==> self.via@[u] == before.via@[u]
        &&& forall|j: int| 0 <= j < before.seen@.len() && #[trigger] before.seen@[j] ==> self.seen@[j]
    }

    /// What holds of a node `v` at which the traversal started anew.
    spec fn started_at(&self, v: int) -> bool {
        &&& settled_between(self.entered@, self.left@, 0, v)
        &&& forall|x: int| 0 <= x < v ==> 0 < #[trigger] self.entered@[x] < self.entered@[v]
    }

    /// Whether every edge that has been examined since `before` leaves a node
    /// that had not been entered then.
    spec fn examined_since(&self, before: &Walk, g: &Graph) -> bool {
        forall|j: int|
            0 <= j < g.edges@.len() && #[trigger] self.seen@[j] && !before.seen@[j]
                ==> before.entered@[g.edges@[j].tail as int] == 0
    }
}

/// Whether `rows[u]` lists the indices of the first `upto` edges that leave
/// the node `u`, in increasing order, for every node `u`.
spec fn indexed(rows: Seq<Vec<usize>>, edges: Seq<Edge>, n: int, upto: int) -> bool {
    &&& rows.len() == n
    &&& forall|u: int, k: int|
        0 <= u < n && 0 <= k < rows[u]@.len() ==> (#[trigger] rows[u]@[k]) < upto
            && edges[rows[u]@[k] as int].tail == u
    &&& forall|u: int, k: int, l: int|
        0 <= u < n && 0 <= k < l < rows[u]@.len() ==> (#[trigger] rows[u]@[k])
            < (#[trigger] rows[u]@[l])
    &&& forall|j: int| 0 <= j < upto ==> listed(rows, #[trigger] edges[j], j)
}

/// Whether the edge `e`, which has the index `j`, stands in the row of its
/// tail.
spec fn listed(rows: Seq<Vec<usize>>, e: Edge, j: int) -> bool {
    exists|k: int| 0 <= k < rows[e.tail as int]@.len() && #[trigger] rows[e.tail as int]@[k] == j
}

/// The index of the edge at place `k` of a row, or the number of edges
/// where the row ends before that place.
spec fn next_index(row: Seq<usize>, k: int, m: int) -> int {
    if k < row.len() {
        row[k] as int
    } else {
        m
    }
}

/// An edge that leaves `u` stands before place `k` of `u`'s row exactly if
/// its index is below that of the edge at place `k`.
proof fn lemma_place(rows: Seq<Vec<usize>>, edges: Seq<Edge>, n: int, u: int, k: int, i: int)
    requires
        indexed(rows, edges, n, edges.len() as int),
        0 <= u < n,
        0 <= k <= rows[u]@.len(),
        0 <= i < edges.len(),
        edges[i].tail == u,
    ensures
        i < next_index(rows[u]@, k, edges.len() as int) <==> exists|l: int|
            0 <= l < k && #[trigger] rows[u]@[l] == i,
{
    assert(listed(rows, edges[i], i));
    let p = choose|p: int| 0 <= p < rows[u]@.len() && #[trigger] rows[u]@[p] == i;
    if p < k {
        assert(rows[u]@[p] == i);
        if k < rows[u]@.len() {
            assert(rows[u]@[p] < rows[u]@[k]);
        }
    } else {
        if p > k {
            assert(rows[u]@[k] < rows[u]@[p]);
        }
        if exists|l: int| 0 <= l < k && #[trigger] rows[u]@[l] == i {
            let l = choose|l: int| 0 <= l < k && #[trigger] rows[u]@[l] == i;
            assert(rows[u]@[l] < rows[u]@[p]);
        }
    }
}

/// Lists, for every node, the indices of the edges that leave it.
fn index_edges(g: &Graph) -> (rows: Vec<Vec<usize>>)
    requires
        g.wf(),
    ensures
        indexed(rows@, g.edges@, g.n as int, g.edges@.len() as int),
{
    let n: usize = g.n;
    let mut rows: Vec<Vec<usize>> = Vec::new();
    let mut u: usize = 0;
    while u < n
        invariant
            u <= n,
            rows@.len() == u,
            forall|x: int| 0 <= x < u ==> (#[trigger] rows@[x])@.len() == 0,
        decreases n - u,
    {
        rows.push(Vec::new());
        u = u + 1;
    }
    let m: usize = g.edges.len();
    let mut j: usize = 0;
    while j < m
        invariant
            n == g.n,
            m == g.edges@.len(),
            j <= m,
            g.wf(),
            indexed(rows@, g.edges@, n as int, j as int),
        decreases m - j,
    {
        let t: usize = g.edges[j].tail;
        let ghost before = rows@;
        rows[t].push(j);
        proof {
            assert(rows@.len() == n);
            assert forall|x: int| 0 <= x < n && x != t implies #[trigger] rows@[x] == before[x] by {}
            assert(rows@[t as int]@ == before[t as int]@.push(j));
            assert forall|i: int| 0 <= i < j + 1 implies listed(rows@, #[trigger] g.edges@[i], i) by {
                if i < j {
                    assert(listed(before, g.edges@[i], i));
                    let e = g.edges@[i];
                    let k = choose|k: int|
                        0 <= k < before[e.tail as int]@.len() && #[trigger] before[e.tail as int]@[k]
                            == i;
                    assert(rows@[e.tail as int]@[k] == i);
                } else {
                    assert(rows@[t as int]@[before[t as int]@.len() as int] == j);
                }
            }
            assert forall|x: int, k: int|
                0 <= x < n && 0 <= k < rows@[x]@.len() implies (#[trigger] rows@[x]@[k]) < j + 1
                && g.edges@[rows@[x]@[k] as int].tail == x by {
                if x == t && k == before[t as int]@.len() {
                } else {
                    assert(before[x]@[k] < j);
                }
            }
            assert forall|x: int, k: int, l: int|
                0 <= x < n && 0 <= k < l < rows@[x]@.len() implies (#[trigger] rows@[x]@[k])
                < (#[trigger] rows@[x]@[l]) by {
                if x == t && l == before[t as int]@.len() {
                    assert(before[x]@[k] < j);
                } else {
                    assert(before[x]@[k] < before[x]@[l]);
                }
            }
        }
        j = j + 1;
    }
    rows
}

/// Fewer than `n` nodes have been entered while one of them has not.
proof fn lemma_room(found: Set<int>, n: int, u: int)
    requires
        0 <= u < n,
        !found.contains(u),
        forall|x: int| found.contains(x) ==> 0 <= x < n,
    ensures
        found.len() < n,
{
    lemma_int_range(0, n);
    let others = set_int_range(0, n).remove(u);
    assert(found.subset_of(others));
    lemma_len_subset(found, others);
}

/// Explores the node `u`, which has not been entered yet, and all that is
/// reached from it for the first time.
fn visit(g: &Graph, rows: &Vec<Vec<usize>>, w: &mut Walk, u: usize)
    requires
        old(w).inv(g),
        indexed(rows@, g.edges@, g.n as int, g.edges@.len() as int),
        u < g.n,
        old(w).entered@[u as int] == 0,
    ensures
        final(w).inv(g),
        final(w).grown_from(old(w), g.n as int),
        final(w).examined_since(old(w), g),
        final(w).entered@[u as int] == old(w).n_entered + 1,
        final(w).left@[u as int] == final(w).n_left,
        final(w).left@[u as int] > 0,
        final(w).via@[u as int] is None,
        forall|x: int|
            0 <= x < g.n && x != u && old(w).entered@[x] == 0 && final(w).entered@[x] > 0
                ==> #[trigger] final(w).via@[x] is Some,
    decreases g.n - old(w).n_entered,
{
    let ghost n = g.n as int;
    proof {
        lemma_room(w.found@, n, u as int);
    }
    w.n_entered = w.n_entered + 1;
    w.entered.set(u, w.n_entered);
    proof {
        w.found = Ghost(w.found@.insert(u as int));
        w.open_count = Ghost(w.open_count@ + 1);
    }
    let ghost start = *w;
    assert(w.inv(g)) by {
        assert forall|v: int| 0 <= v < n && #[trigger] w.via@[v] is Some implies w.reached_by(
            g,
            v,
            w.via@[v]->0,
        ) by {
            assert(old(w).reached_by(g, v, old(w).via@[v]->0));
        }
    }
    let m: usize = g.edges.len();
    let row = &rows[u];
    let len: usize = row.len();
    let mut k: usize = 0;
    while k < len
        invariant
            m == g.edges@.len(),
            indexed(rows@, g.edges@, n, m as int),
            row@ == rows@[u as int]@,
            len == row@.len(),
            k <= len,
            u < g.n,
            n == g.n,
            w.inv(g),
            w.grown_from(&start, n),
            start.entered@.len() == n,
            start.left@.len() == n,
            start.via@.len() == n,
            start.seen@.len() == m,
            start.entered@[u as int] > 0,
            start.left@[u as int] == 0,
            start.via@[u as int] is None,
            start.n_entered == old(w).n_entered + 1,
            start.entered@[u as int] == start.n_entered,
            w.open_count@ >= 1,
            forall|x: int|
                0 <= x < n && w.entered@[x] > w.entered@[u as int] ==> #[trigger] w.left@[x] > 0,
            forall|x: int|
                0 <= x < n && start.entered@[x] == 0 && w.entered@[x] > 0 ==> #[trigger] w.via@[x] is Some,
            forall|i: int|
                0 <= i < next_index(row@, k as int, m as int) && (#[trigger] g.edges@[i]).tail == u
                    ==> w.seen@[i],
            forall|i: int|
                next_index(row@, k as int, m as int) <= i < m && (#[trigger] g.edges@[i]).tail == u
                    ==> !w.seen@[i],
            forall|i: int|
                0 <= i < m && #[trigger] w.seen@[i] && !old(w).seen@[i] ==> old(w).entered@[g.edges@[i].tail as int]
                    == 0,
            old(w).seen@.len() == m,
            old(w).entered@.len() == n,
            old(w).entered@[u as int] == 0,
            forall|x: int|
                0 <= x < n && x != u ==> #[trigger] old(w).entered@[x] == start.entered@[x],
            forall|i: int| 0 <= i < m ==> #[trigger] old(w).seen@[i] == start.seen@[i],
        decreases len - k,
    {
        let j: usize = row[k];
        assert(rows@[u as int]@[k as int] < m && g.edges@[j as int].tail == u);
        let ghost top = *w;
        let v: usize = g.edges[j].head;
        if w.entered[v] == 0 {
            let ghost before = *w;
            visit(g, rows, w, v);
            let ghost after = *w;
            w.via.set(v, Some(j));
            w.kinds.set(j, EdgeKind::TreeEdge);
            proof {
                w.seen = Ghost(w.seen@.update(j as int, true));
                assert forall|x: int| 0 <= x < n && #[trigger] start.entered@[x] > 0 implies w.entered@[x]
                    == start.entered@[x] && w.left@[x] == start.left@[x] && w.via@[x]
                    == start.via@[x] by {
                    assert(before.entered@[x] > 0);
                }
                assert forall|x: int|
                    0 <= x < n && #[trigger] start.entered@[x] == 0 && w.entered@[x]
                        > 0 implies w.entered@[x] > start.n_entered && w.left@[x]
                    > start.n_left by {
                    if before.entered@[x] > 0 {
                    }
                }
                assert forall|i: int| 0 <= i < m && #[trigger] start.seen@[i] implies w.seen@[i] by {
                    assert(before.seen@[i]);
                }
                assert forall|x: int|
                    0 <= x < n && w.entered@[x] > w.entered@[u as int] implies #[trigger] w.left@[x]
                        > 0 by {
                    if before.entered@[x] > 0 {
                        assert(before.left@[x] > 0);
                    }
                }
                assert forall|x: int|
                    0 <= x < n && start.entered@[x] == 0 && w.entered@[x]
                        > 0 implies #[trigger] w.via@[x] is Some by {
                    if x != v && before.entered@[x] > 0 {
                        assert(before.via@[x] is Some);
                    }
                }
                assert forall|i: int|
                    0 <= i < m && #[trigger] w.seen@[i] && !old(w).seen@[i] implies old(w).entered@[g.edges@[i].tail as int]
                    == 0 by {
                    if i != j && !before.seen@[i] {
                        assert(after.seen@[i]);
                        assert(before.entered@[g.edges@[i].tail as int] == 0);
                    }
                }
                assert forall|i: int| j < i < m && (#[trigger] g.edges@[i]).tail == u implies !w.seen@[i] by {
                    assert(!before.seen@[i]);
                    if after.seen@[i] {
                        assert(before.entered@[g.edges@[i].tail as int] == 0);
                    }
                }
                assert(settled_between(
                    w.entered@,
                    w.left@,
                    w.entered@[u as int] as int,
                    v as int,
                )) by {
                    assert forall|x: int|
                        0 <= x < n && w.entered@[u as int] < #[trigger] w.entered@[x]
                            < w.entered@[v as int] implies 0 < w.left@[x] < w.left@[v as int] by {
                        if before.entered@[x] == 0 {
                        } else {
                            assert(before.left@[x] > 0);
                            assert(before.left@[x] <= before.n_left);
                        }
                    }
                }
                assert(earlier_heads(g.edges@, w.entered@, j as int, v as int)) by {
                    assert forall|i: int|
                        0 <= i < j && (#[trigger] g.edges@[i]).tail
                            == g.edges@[j as int].tail implies 0 < w.entered@[g.edges@[i].head as int]
                        < w.entered@[v as int] by {
                        assert(before.seen@[i]);
                        let h = g.edges@[i].head as int;
                        assert(before.entered@[h] > 0);
                        assert(before.entered@[h] <= before.n_entered);
                    }
                }
                assert(w.reached_by(g, v as int, j));
                assert forall|x: int| 0 <= x < n && #[trigger] w.via@[x] is Some implies w.reached_by(
                    g,
                    x,
                    w.via@[x]->0,
                ) by {
                    if x != v {
                        assert(after.reached_by(g, x, after.via@[x]->0));
                    }
                }
                assert forall|i: int|
                    0 <= i < m && #[trigger] w.seen@[i] && w.kinds@[i]
                        == EdgeKind::TreeEdge implies w.via@[g.edges@[i].head as int] == Some(
                        i as usize,
                    ) by {
                    if i != j {
                        assert(after.seen@[i]);
                        assert(after.via@[g.edges@[i].head as int] == Some(i as usize));
                        assert(after.via@[v as int] is None);
                    }
                }
            }
        } else {
            let kind = if w.left[v] == 0 {
                EdgeKind::BackEdge
            } else if w.entered[u] < w.entered[v] {
                EdgeKind::ForwardEdge
            } else {
                EdgeKind::CrossEdge
            };
            let ghost before = *w;
            w.kinds.set(j, kind);
            proof {
                w.seen = Ghost(w.seen@.update(j as int, true));
                assert forall|x: int| 0 <= x < n && #[trigger] w.via@[x] is Some implies w.reached_by(
                    g,
                    x,
                    w.via@[x]->0,
                ) by {
                    assert(before.reached_by(g, x, before.via@[x]->0));
                    assert(!before.seen@[j as int]);
                }
            }
        }
        proof {
            assert forall|i: int|
                0 <= i < next_index(row@, k + 1, m as int) && (#[trigger] g.edges@[i]).tail
                    == u implies w.seen@[i] by {
                lemma_place(rows@, g.edges@, n, u as int, k + 1, i);
                let l = choose|l: int| 0 <= l < k + 1 && #[trigger] rows@[u as int]@[l] == i;
                if l < k {
                    lemma_place(rows@, g.edges@, n, u as int, k as int, i);
                    assert(top.seen@[i]);
                }
            }
            assert forall|i: int|
                next_index(row@, k + 1, m as int) <= i < m && (#[trigger] g.edges@[i]).tail
                    == u implies !w.seen@[i] by {
                if k + 1 < len {
                    assert(rows@[u as int]@[k as int] < rows@[u as int]@[k + 1]);
                }
                assert(i > j);
                assert(!top.seen@[i]);
            }
        }
        k = k + 1;
    }
    let ghost done = *w;
    w.n_left = w.n_left + 1;
    w.left.set(u, w.n_left);
    proof {
        w.open_count = Ghost((w.open_count@ - 1) as nat);
        assert forall|x: int| 0 <= x < n && #[trigger] old(w).entered@[x] > 0 implies w.entered@[x]
            == old(w).entered@[x] && w.left@[x] == old(w).left@[x] && w.via@[x] == old(w).via@[x] by {
            assert(start.entered@[x] > 0);
        }
        assert forall|x: int|
            0 <= x < n && #[trigger] old(w).entered@[x] == 0 && w.entered@[x] > 0 implies w.entered@[x]
                > old(w).n_entered && w.left@[x] > old(w).n_left by {
            if x != u {
                assert(start.entered@[x] == 0);
                assert(done.left@[x] > start.n_left);
            }
        }
        assert forall|i: int| 0 <= i < m && #[trigger] old(w).seen@[i] implies w.seen@[i] by {
            assert(start.seen@[i]);
        }
        assert forall|x: int| 0 <= x < n && #[trigger] w.via@[x] is Some implies w.reached_by(
            g,
            x,
            w.via@[x]->0,
        ) by {
            assert(done.reached_by(g, x, done.via@[x]->0));
        }
        assert forall|x: int|
            0 <= x < g.n && x != u && old(w).entered@[x] == 0 && w.entered@[x]
                > 0 implies #[trigger] w.via@[x] is Some by {
            assert(start.entered@[x] == 0);
        }
    }
}

impl Graph {
    /// Whether every edge joins two nodes of the graph.
    pub open spec fn wf(&self) -> bool {
        forall|j: int|
            0 <= j < self.edges@.len() ==> (#[trigger] self.edges@[j]).tail < self.n
                && self.edges@[j].head < self.n
    }

    /// The graph on `n` nodes without edges.
    pub fn new(n: usize) -> (g: Graph)
        ensures
            g.n == n,
            g.edges@ == Seq::<Edge>::empty(),
            g.wf(),
    {
        Graph { n, edges: Vec::new() }
    }

    /// Replaces the edges of the graph by those that `edges` names: one for
    /// each pair, or one in each direction unless the graph is directed.
    pub fn init_with_edges(&mut self, edges: Vec<Vec<i32>>, directed: bool)
        requires
            pairs_fit(edges@, old(self).n as nat),
        ensures
            final(self).n == old(self).n,
            final(self).edges@ == edges_of(edges@, directed),
            final(self).wf(),
    {
        let mut list: Vec<Edge> = Vec::new();
        let count: usize = edges.len();
        let mut k: usize = 0;
        while k < count
            invariant
                count == edges@.len(),
                k <= count,
                pairs_fit(edges@, self.n as nat),
                list@ == edges_of(edges@.subrange(0, k as int), directed),
                forall|j: int|
                    0 <= j < list@.len() ==> (#[trigger] list@[j]).tail < self.n && list@[j].head
                        < self.n,
            decreases count - k,
        {
            let pair = &edges[k];
            let a: usize = pair[0] as usize;
            let b: usize = pair[1] as usize;
            proof {
                let upto = edges@.subrange(0, k + 1);
                assert(upto.drop_last() =~= edges@.subrange(0, k as int));
                assert(upto.last() == edges@[k as int]);
            }
            list.push(Edge { tail: a, head: b, kind: EdgeKind::TreeEdge });
            if !directed {
                list.push(Edge { tail: b, head: a, kind: EdgeKind::TreeEdge });
            }
            k = k + 1;
        }
        assert(edges@.subrange(0, count as int) =~= edges@);
        self.edges = list;
    }

    /// Explores the graph depth first: from node `0`, then from each further
    /// node that has not been entered by then, in increasing order, following
    /// the edges of a node in the order of the edge list. Gives every edge its
    /// class and returns the places at which the nodes were entered and left.
    pub fn travase(&mut self) -> (t: Traversal)
        requires
            old(self).wf(),
        ensures
            final(self).n == old(self).n,
            same_ends(final(self).edges@, old(self).edges@),
            final(self).wf(),
            numbering(t.entered@, old(self).n as nat),
            numbering(t.left@, old(self).n as nat),
            classified(final(self).edges@, t.entered@, t.left@),
            forest(final(self).edges@, t.entered@, t.left@, t.via@),
    {
        let n: usize = self.n;
        let m: usize = self.edges.len();
        let mut w = Walk {
            entered: zeros(n),
            left: zeros(n),
            kinds: tree_kinds(m),
            via: no_edges(n),
            n_entered: 0,
            n_left: 0,
            found: Ghost(Set::empty()),
            open_count: Ghost(0),
            seen: Ghost(Seq::new(m as nat, |j: int| false)),
        };
        let rows = index_edges(self);
        let mut u: usize = 0;
        while u < n
            invariant
                n == self.n,
                m == self.edges@.len(),
                u <= n,
                *self == *old(self),
                indexed(rows@, self.edges@, n as int, m as int),
                w.inv(self),
                w.open_count@ == 0,
                forall|x: int| 0 <= x < n && w.entered@[x] > 0 ==> #[trigger] w.left@[x] > 0,
                forall|x: int| 0 <= x < u ==> #[trigger] w.entered@[x] > 0,
                forall|v: int|
                    0 <= v < n && w.entered@[v] > 0 && #[trigger] w.via@[v] is None ==> w.started_at(v),
            decreases n - u,
        {
            if w.entered[u] == 0 {
                let ghost before = w;
                visit(self, &rows, &mut w, u);
                proof {
                    assert forall|x: int| 0 <= x < n && w.entered@[x] > 0 implies #[trigger] w.left@[x]
                        > 0 by {
                        if before.entered@[x] > 0 {
                            assert(before.left@[x] > 0);
                        }
                    }
                    assert forall|x: int| 0 <= x < u implies #[trigger] w.entered@[x] > 0 by {
                        assert(before.entered@[x] > 0);
                    }
                    assert forall|v: int|
                        0 <= v < n && w.entered@[v] > 0 && #[trigger] w.via@[v] is None implies w.started_at(
                        v,
                    ) by {
                        if v == u {
                            assert forall|x: int|
                                0 <= x < n && 0 < #[trigger] w.entered@[x] < w.entered@[v] implies 0
                                < w.left@[x] < w.left@[v] by {
                                assert(before.entered@[x] > 0);
                                assert(before.left@[x] > 0);
                                assert(before.left@[x] <= before.n_left);
                            }
                            assert forall|x: int| 0 <= x < v implies 0 < #[trigger] w.entered@[x]
                                < w.entered@[v] by {
                                assert(before.entered@[x] > 0);
                                assert(before.entered@[x] <= before.n_entered);
                            }
                        } else {
                            assert(before.entered@[v] > 0);
                            assert(before.started_at(v));
                            assert(before.entered@[v] <= before.n_entered);
                            assert forall|x: int|
                                0 <= x < n && 0 < #[trigger] w.entered@[x] < w.entered@[v] implies 0
                                < w.left@[x] < w.left@[v] by {
                                if before.entered@[x] > 0 {
                                }
                            }
                            assert forall|x: int| 0 <= x < v implies 0 < #[trigger] w.entered@[x]
                                < w.entered@[v] by {
                                assert(0 < before.entered@[x] < before.entered@[v]);
                            }
                        }
                    }
                }
            }
            u = u + 1;
        }
        let mut edges: Vec<Edge> = Vec::new();
        let mut j: usize = 0;
        while j < m
            invariant
                m == self.edges@.len(),
                m == w.kinds@.len(),
                j <= m,
                edges@.len() == j,
                forall|i: int|
                    0 <= i < j ==> (#[trigger] edges@[i]) == (Edge {
                        tail: self.edges@[i].tail,
                        head: self.edges@[i].head,
                        kind: w.kinds@[i],
                    }),
            decreases m - j,
        {
            edges.push(Edge { tail: self.edges[j].tail, head: self.edges[j].head, kind: w.kinds[j] });
            j = j + 1;
        }
        proof {
            assert forall|i: int| 0 <= i < m implies kind_fits(
                (#[trigger] edges@[i]).kind,
                w.entered@[edges@[i].tail as int] as int,
                w.entered@[edges@[i].head as int] as int,
                w.left@[edges@[i].tail as int] as int,
                w.left@[edges@[i].head as int] as int,
            ) by {
                let e = self.edges@[i];
                assert(w.entered@[e.tail as int] > 0);
                assert(w.left@[e.tail as int] > 0);
                assert(w.entered@[e.head as int] > 0);
                assert(w.left@[e.head as int] > 0);
                assert(w.seen@[i]);
            }
            assert forall|x: int| 0 <= x < n implies 1 <= #[trigger] w.left@[x] <= n by {
                assert(w.entered@[x] > 0);
            }
            assert forall|v: int| 0 <= v < n implies match #[trigger] w.via@[v] {
                None => {
                    &&& nothing_between(w.entered@, w.left@, 0, v)
                    &&& forall|x: int| 0 <= x < v ==> #[trigger] w.entered@[x] < w.entered@[v]
                },
                Some(j) => {
                    &&& j < edges@.len()
                    &&& edges@[j as int].head == v
                    &&& edges@[j as int].kind == EdgeKind::TreeEdge
                    &&& nothing_between(
                        w.entered@,
                        w.left@,
                        w.entered@[edges@[j as int].tail as int] as int,
                        v,
                    )
                    &&& earlier_edges_done(edges@, w.entered@, j as int, v)
                },
            } by {
                assert(w.entered@[v] > 0);
                match w.via@[v] {
                    None => {
                        assert(w.started_at(v));
                    },
                    Some(j) => {
                        assert(w.reached_by(self, v, j));
                        assert(edges@[j as int].tail == self.edges@[j as int].tail);
                        assert forall|i: int|
                            0 <= i < j && (#[trigger] edges@[i]).tail
                                == edges@[j as int].tail implies w.entered@[edges@[i].head as int]
                            < w.entered@[v] by {
                            assert(self.edges@[i].tail == self.edges@[j as int].tail);
                        }
                    },
                }
            }
            assert forall|i: int|
                0 <= i < m && (#[trigger] edges@[i]).kind == EdgeKind::TreeEdge implies w.via@[edges@[i].head as int]
                == Some(i as usize) by {
                assert(w.left@[self.edges@[i].tail as int] > 0);
                assert(w.seen@[i]);
            }
        }
        self.edges = edges;
        Traversal { entered: w.entered, left: w.left, via: w.via }
    }
}

/// A vector of `n` zeros.
fn zeros(n: usize) -> (v: Vec<usize>)
    ensures
        v@.len() == n,
        forall|i: int| 0 <= i < n ==> #[trigger] v@[i] == 0,
{
    let mut v: Vec<usize> = Vec::new();
    let mut i: usize = 0;
    while i < n
        invariant
            i <= n,
            v@.len() == i,
            forall|k: int| 0 <= k < i ==> #[trigger] v@[k] == 0,
        decreases n - i,
    {
        v.push(0);
        i = i + 1;
    }
    v
}

/// A vector of `n` times `None`.
fn no_edges(n: usize) -> (v: Vec<Option<usize>>)
    ensures
        v@.len() == n,
        forall|i: int| 0 <= i < n ==> #[trigger] v@[i] is None,
{
    let mut v: Vec<Option<usize>> = Vec::new();
    let mut i: usize = 0;
    while i < n
        invariant
            i <= n,
            v@.len() == i,
            forall|k: int| 0 <= k < i ==> #[trigger] v@[k] is None,
        decreases n - i,
    {
        v.push(None);
        i = i + 1;
    }
    v
}

/// A vector of `m` edge classes, to be overwritten.
fn tree_kinds(m: usize) -> (v: Vec<EdgeKind>)
    ensures
        v@.len() == m,
{
    let mut v: Vec<EdgeKind> = Vec::new();
    let mut i: usize = 0;
    while i < m
        invariant
            i <= m,
            v@.len() == i,
        decreases m - i,
    {
        v.push(EdgeKind::TreeEdge);
        i = i + 1;
    }
    v
}

} // verus!
