//! A directed graph of nodes that feed into one another, kept free of cycles.

use vstd::prelude::*;

verus! {

/// Whether `edges` holds an edge from `a` to `b`.
pub open spec fn linked(edges: Seq<(usize, usize)>, a: usize, b: usize) -> bool {
    exists|i: int| 0 <= i < edges.len() && #[trigger] edges[i] == (a, b)
}

/// Whether `path` is a walk along `edges`: at least one node, and an edge from
/// each node to the next.
pub open spec fn walk(edges: Seq<(usize, usize)>, path: Seq<usize>) -> bool {
    &&& path.len() > 0
    &&& forall|i: int| 0 <= i < path.len() - 1 ==> linked(edges, #[trigger] path[i], path[i + 1])
}

/// Whether a walk along `edges` leads from `a` to `b`. Every node reaches
/// itself.
pub open spec fn reaches(edges: Seq<(usize, usize)>, a: usize, b: usize) -> bool {
    exists|path: Seq<usize>| #[trigger] walk(edges, path) && path.first() == a && path.last() == b
}

/// Whether no edge of `edges` lies on a cycle: no edge's end reaches its start.
pub open spec fn acyclic(edges: Seq<(usize, usize)>) -> bool {
    forall|i: int| 0 <= i < edges.len() ==> !reaches(edges, (#[trigger] edges[i]).1, edges[i].0)
}

/// Whether both ends of every edge are below `count`.
pub open spec fn bounded(edges: Seq<(usize, usize)>, count: nat) -> bool {
    forall|i: int| 0 <= i < edges.len() ==> (#[trigger] edges[i]).0 < count && edges[i].1 < count
}

/// The starts of the edges that end in `node`, the edge added last first.
pub open spec fn sources(edges: Seq<(usize, usize)>, node: usize) -> Seq<usize>
    decreases edges.len(),
{
    if edges.len() == 0 {
        Seq::empty()
    } else if edges.last().1 == node {
        seq![edges.last().0] + sources(edges.drop_last(), node)
    } else {
        sources(edges.drop_last(), node)
    }
}

/// Every node reaches itself.
pub proof fn lemma_reaches_self(edges: Seq<(usize, usize)>, a: usize)
    ensures
        reaches(edges, a, a),
{
    let path = seq![a];
    assert(walk(edges, path));
}

/// A walk goes on along one more edge.
pub proof fn lemma_reaches_step(edges: Seq<(usize, usize)>, a: usize, b: usize, c: usize)
    requires
        reaches(edges, a, b),
        linked(edges, b, c),
    ensures
        reaches(edges, a, c),
{
    let path = choose|path: Seq<usize>| #[trigger]
        walk(edges, path) && path.first() == a && path.last() == b;
    let longer = path.push(c);
    assert forall|i: int| 0 <= i < longer.len() - 1 implies linked(
        edges,
        #[trigger] longer[i],
        longer[i + 1],
    ) by {
        if i < path.len() - 1 {
            assert(longer[i] == path[i] && longer[i + 1] == path[i + 1]);
        }
    }
    assert(walk(edges, longer));
}

/// Two walks that meet make one.
pub proof fn lemma_reaches_trans(edges: Seq<(usize, usize)>, a: usize, b: usize, c: usize)
    requires
        reaches(edges, a, b),
        reaches(edges, b, c),
    ensures
        reaches(edges, a, c),
{
    let second = choose|path: Seq<usize>| #[trigger]
        walk(edges, path) && path.first() == b && path.last() == c;
    lemma_reaches_along(edges, a, second);
}

/// What reaches the start of a walk reaches its end.
proof fn lemma_reaches_along(edges: Seq<(usize, usize)>, a: usize, path: Seq<usize>)
    requires
        walk(edges, path),
        reaches(edges, a, path.first()),
    ensures
        reaches(edges, a, path.last()),
    decreases path.len(),
{
    if path.len() > 1 {
        let shorter = path.drop_last();
        assert forall|i: int| 0 <= i < shorter.len() - 1 implies linked(
            edges,
            #[trigger] shorter[i],
            shorter[i + 1],
        ) by {
            assert(shorter[i] == path[i] && shorter[i + 1] == path[i + 1]);
        }
        lemma_reaches_along(edges, a, shorter);
        assert(shorter.last() == path[path.len() - 2]);
        lemma_reaches_step(edges, a, shorter.last(), path.last());
    }
}

/// A walk along edges with one more edge `s -> d` either is a walk along the
/// edges without it, or goes to `s` and on from `d` along them.
proof fn lemma_walk_through(
    edges: Seq<(usize, usize)>,
    s: usize,
    d: usize,
    path: Seq<usize>,
)
    requires
        walk(edges.push((s, d)), path),
    ensures
        reaches(edges, path.first(), path.last()) || (reaches(edges, path.first(), s) && reaches(
            edges,
            d,
            path.last(),
        )),
    decreases path.len(),
{
    let more = edges.push((s, d));
    if path.len() == 1 {
        lemma_reaches_self(edges, path.first());
    } else {
        let shorter = path.drop_last();
        let x = shorter.last();
        let b = path.last();
        assert forall|i: int| 0 <= i < shorter.len() - 1 implies linked(
            more,
            #[trigger] shorter[i],
            shorter[i + 1],
        ) by {
            assert(shorter[i] == path[i] && shorter[i + 1] == path[i + 1]);
        }
        lemma_walk_through(edges, s, d, shorter);
        assert(x == path[path.len() - 2]);
        assert(linked(more, x, b));
        let k = choose|k: int| 0 <= k < more.len() && #[trigger] more[k] == (x, b);
        if k < edges.len() {
            assert(edges[k] == (x, b));
            assert(linked(edges, x, b));
            if reaches(edges, path.first(), x) {
                lemma_reaches_step(edges, path.first(), x, b);
            } else {
                lemma_reaches_step(edges, d, x, b);
            }
        } else {
            assert(x == s && b == d);
            lemma_reaches_self(edges, d);
        }
    }
}

/// An edge whose end does not reach its start can join a graph without
/// cycles, and the graph stays without cycles.
pub proof fn lemma_acyclic_push(edges: Seq<(usize, usize)>, s: usize, d: usize)
    requires
        acyclic(edges),
        !reaches(edges, d, s),
    ensures
        acyclic(edges.push((s, d))),
{
    let more = edges.push((s, d));
    assert forall|i: int| 0 <= i < more.len() implies !reaches(
        more,
        (#[trigger] more[i]).1,
        more[i].0,
    ) by {
        let a = more[i].0;
        let b = more[i].1;
        if reaches(more, b, a) {
            let path = choose|path: Seq<usize>| #[trigger]
                walk(more, path) && path.first() == b && path.last() == a;
            lemma_walk_through(edges, s, d, path);
            if i < edges.len() {
                assert(edges[i] == (a, b));
                assert(linked(edges, a, b));
                // b reaches s, and d reaches a: so d reaches s over a -> b
                lemma_reaches_step(edges, d, a, b);
                lemma_reaches_trans(edges, d, b, s);
            } else {
                assert(a == s && b == d);
                if !reaches(edges, d, s) {
                    lemma_reaches_trans(edges, d, s, s);
                }
            }
        }
    }
}

/// In a graph whose edges stay below `count`, a walk that starts below
/// `count` stays below it, and a walk that ends at `count` or above has not
/// moved.
pub proof fn lemma_walk_bounded(edges: Seq<(usize, usize)>, count: nat, path: Seq<usize>)
    requires
        bounded(edges, count),
        walk(edges, path),
    ensures
        path.len() > 1 ==> path.last() < count && path.first() < count,
{
    if path.len() > 1 {
        assert(linked(edges, path[path.len() - 2], path[path.len() - 1]));
        assert(linked(edges, path[0], path[1]));
    }
}

/// How many of `seen` are not set.
pub open spec fn unseen(seen: Seq<bool>) -> nat
    decreases seen.len(),
{
    if seen.len() == 0 {
        0
    } else {
        unseen(seen.drop_last()) + if seen.last() {
            0nat
        } else {
            1nat
        }
    }
}

/// Setting one that was not set leaves one fewer unset.
proof fn lemma_unseen_mark(seen: Seq<bool>, at: int)
    requires
        0 <= at < seen.len(),
        !seen[at],
    ensures
        unseen(seen.update(at, true)) + 1 == unseen(seen),
    decreases seen.len(),
{
    let marked = seen.update(at, true);
    if at == seen.len() - 1 {
        assert(marked.drop_last() == seen.drop_last());
    } else {
        assert(marked.drop_last() == seen.drop_last().update(at, true));
        lemma_unseen_mark(seen.drop_last(), at);
    }
}

/// Whether `seen` is closed under `edges`: the end of every edge that starts
/// in it is in it.
pub open spec fn closed(seen: Seq<bool>, edges: Seq<(usize, usize)>) -> bool {
    forall|j: int| 0 <= j < edges.len() && seen[(#[trigger] edges[j]).0 as int] ==> seen[edges[j].1 as int]
}

/// A set that is closed under the edges holds the end of every walk that
/// starts in it.
proof fn lemma_closed_holds(seen: Seq<bool>, edges: Seq<(usize, usize)>, path: Seq<usize>)
    requires
        bounded(edges, seen.len()),
        closed(seen, edges),
        walk(edges, path),
        path.first() < seen.len(),
        seen[path.first() as int],
    ensures
        seen[path.last() as int],
    decreases path.len(),
{
    if path.len() > 1 {
        let shorter = path.drop_last();
        assert forall|i: int| 0 <= i < shorter.len() - 1 implies linked(
            edges,
            #[trigger] shorter[i],
            shorter[i + 1],
        ) by {
            assert(shorter[i] == path[i] && shorter[i + 1] == path[i + 1]);
        }
        lemma_closed_holds(seen, edges, shorter);
        assert(shorter.last() == path[path.len() - 2]);
        assert(linked(edges, shorter.last(), path.last()));
    }
}

/// The answer to an edge that would close a cycle.
#[derive(Debug, Clone, Copy, PartialEq, Eq, Structural)]
pub struct WouldCycle;

/// A graph, as mathematics: the nodes, the edges as pairs of a start and an
/// end among them, and the master node if one is set.
pub struct GraphView<N> {
    pub nodes: Seq<N>,
    pub edges: Seq<(usize, usize)>,
    pub master: Option<usize>,
}

impl<N> GraphView<N> {
    /// What holds of every graph: the edges and the master lie among the
    /// nodes, and no edge lies on a cycle.
    pub open spec fn wf(self) -> bool {
        &&& bounded(self.edges, self.nodes.len())
        &&& acyclic(self.edges)
        &&& self.master is Some ==> self.master->0 < self.nodes.len()
    }
}

/// A graph of nodes that feed into one another. A node is known by its index,
/// which stays as it is for as long as the graph lives.
pub struct Graph<N> {
    nodes: Vec<N>,
    edges: Vec<(usize, usize)>,
    master: Option<usize>,
}

impl<N> Graph<N> {
    pub closed spec fn view(self) -> GraphView<N> {
        GraphView { nodes: self.nodes@, edges: self.edges@, master: self.master }
    }

    /// What holds of every graph.
    pub open spec fn wf(self) -> bool {
        self@.wf()
    }

    /// A graph without nodes.
    pub fn new() -> (g: Self)
        ensures
            g.wf(),
            g@.nodes.len() == 0,
            g@.edges.len() == 0,
            g@.master is None,
    {
        Graph { nodes: Vec::new(), edges: Vec::new(), master: None }
    }

    /// How many nodes there are.
    pub fn node_count(&self) -> (n: usize)
        ensures
            n == self@.nodes.len(),
    {
        self.nodes.len()
    }

    /// How many edges there are.
    pub fn connection_count(&self) -> (n: usize)
        ensures
            n == self@.edges.len(),
    {
        self.edges.len()
    }

    /// The master node, if one is set.
    pub fn master_index(&self) -> (m: Option<usize>)
        ensures
            m == self@.master,
    {
        self.master
    }

    /// Sets the master node, or unsets it. An index that is no node's unsets
    /// it.
    pub fn set_master(&mut self, maybe_index: Option<usize>)
        requires
            old(self).wf(),
        ensures
            final(self).wf(),
            final(self)@.nodes == old(self)@.nodes,
            final(self)@.edges == old(self)@.edges,
            final(self)@.master == match maybe_index {
                Some(index) => if index < old(self)@.nodes.len() {
                    Some(index)
                } else {
                    None
                },
                None => None,
            },
    {
        self.master = match maybe_index {
            Some(index) => if index < self.nodes.len() {
                Some(index)
            } else {
                None
            },
            None => None,
        };
    }

    /// Adds a node, which feeds into nothing yet, and gives its index.
    pub fn add_node(&mut self, node: N) -> (index: usize)
        requires
            old(self).wf(),
        ensures
            final(self).wf(),
            index == old(self)@.nodes.len(),
            final(self)@.nodes == old(self)@.nodes.push(node),
            final(self)@.edges == old(self)@.edges,
            final(self)@.master == old(self)@.master,
    {
        self.nodes.push(node);
        self.nodes.len() - 1
    }

    /// The node at `index`, if there is one.
    pub fn node(&self, index: usize) -> (r: Option<&N>)
        ensures
            match r {
                Some(node) => index < self@.nodes.len() && *node == self@.nodes[index as int],
                None => index >= self@.nodes.len(),
            },
    {
        if index < self.nodes.len() {
            Some(&self.nodes[index])
        } else {
            None
        }
    }

    /// The node at `index`, if there is one, to change it.
    pub fn node_mut(&mut self, index: usize) -> (r: Option<&mut N>)
        ensures
            final(self)@.edges == old(self)@.edges,
            final(self)@.master == old(self)@.master,
            match r {
                Some(node) => {
                    &&& index < old(self)@.nodes.len()
                    &&& *node == old(self)@.nodes[index as int]
                    &&& final(self)@.nodes == old(self)@.nodes.update(index as int, *final(node))
                },
                None => index >= old(self)@.nodes.len() && final(self)@.nodes == old(self)@.nodes,
            },
    {
        if index < self.nodes.len() {
            Some(&mut self.nodes[index])
        } else {
            None
        }
    }

    /// The nodes that feed into `index`, the one whose edge was added last
    /// first.
    pub fn inputs(&self, index: usize) -> (r: Vec<usize>)
        ensures
            r@ == sources(self@.edges, index),
    {
        let mut out: Vec<usize> = Vec::new();
        let mut i: usize = self.edges.len();
        assert(self.edges@.take(i as int) == self.edges@);
        while i > 0
            invariant
                i <= self.edges@.len(),
                sources(self.edges@, index) == out@ + sources(self.edges@.take(i as int), index),
            decreases i,
        {
            proof {
                assert(self.edges@.take(i as int).drop_last() == self.edges@.take(i - 1));
                assert(self.edges@.take(i as int).last() == self.edges@[i - 1]);
            }
            i -= 1;
            if self.edges[i].1 == index {
                let ghost before = out@;
                out.push(self.edges[i].0);
                assert(out@ + sources(self.edges@.take(i as int), index) =~= before + (
                seq![self.edges@[i as int].0] + sources(self.edges@.take(i as int), index)));
            }
        }
        assert(out@ + Seq::<usize>::empty() =~= out@);
        out
    }

    /// Whether a walk along the edges leads from `from` to `to`.
    pub fn reaches(&self, from: usize, to: usize) -> (r: bool)
        requires
            self.wf(),
            from < self@.nodes.len(),
            to < self@.nodes.len(),
        ensures
            r == reaches(self@.edges, from, to),
    {
        let count = self.nodes.len();
        let mut seen: Vec<bool> = Vec::new();
        let mut i: usize = 0;
        while i < count
            invariant
                i <= count,
                seen@.len() == i,
                forall|k: int| 0 <= k < i ==> seen@[k] == (k == from),
            decreases count - i,
        {
            seen.push(i == from);
            i += 1;
        }
        proof {
            lemma_reaches_self(self.edges@, from);
        }
        let mut changed = true;
        while changed
            invariant
                count == self.nodes@.len(),
                from < count,
                seen@.len() == count,
                bounded(self.edges@, count as nat),
                seen@[from as int],
                forall|k: int| 0 <= k < count && seen@[k] ==> reaches(self.edges@, from, k as usize),
                !changed ==> closed(seen@, self.edges@),
            decreases unseen(seen@) + if changed {
                    1nat
                } else {
                    0nat
                },
        {
            changed = false;
            let ghost at_start = seen@;
            let mut j: usize = 0;
            while j < self.edges.len()
                invariant
                    j <= self.edges@.len(),
                    count == self.nodes@.len(),
                    from < count,
                    seen@.len() == count,
                    bounded(self.edges@, count as nat),
                    seen@[from as int],
                    forall|k: int|
                        0 <= k < count && seen@[k] ==> reaches(self.edges@, from, k as usize),
                    !changed ==> seen@ == at_start,
                    !changed ==> forall|k: int|
                        0 <= k < j && seen@[(#[trigger] self.edges@[k]).0 as int]
                            ==> seen@[self.edges@[k].1 as int],
                    changed ==> unseen(seen@) < unseen(at_start),
                    unseen(seen@) <= unseen(at_start),
                decreases self.edges@.len() - j,
            {
                let (a, b) = self.edges[j];
                if seen[a] && !seen[b] {
                    proof {
                        lemma_unseen_mark(seen@, b as int);
                        assert(linked(self.edges@, a, b));
                        lemma_reaches_step(self.edges@, from, a, b);
                    }
                    seen.set(b, true);
                    changed = true;
                }
                j += 1;
            }
        }
        proof {
            if reaches(self.edges@, from, to) {
                let path = choose|path: Seq<usize>| #[trigger]
                    walk(self.edges@, path) && path.first() == from && path.last() == to;
                lemma_closed_holds(seen@, self.edges@, path);
            }
        }
        seen[to]
    }

    /// Adds an edge from `src` to `dest`, unless it would close a cycle: then
    /// the graph stays as it is and the answer is `WouldCycle`. An edge would
    /// close a cycle exactly when `dest` reaches `src` already. On success
    /// the answer is the index of the new edge.
    pub fn add_connection(&mut self, src: usize, dest: usize) -> (r: Result<usize, WouldCycle>)
        requires
            old(self).wf(),
            src < old(self)@.nodes.len(),
            dest < old(self)@.nodes.len(),
        ensures
            final(self).wf(),
            final(self)@.nodes == old(self)@.nodes,
            final(self)@.master == old(self)@.master,
            match r {
                Ok(edge) => {
                    &&& !reaches(old(self)@.edges, dest, src)
                    &&& edge == old(self)@.edges.len()
                    &&& final(self)@.edges == old(self)@.edges.push((src, dest))
                },
                Err(_) => reaches(old(self)@.edges, dest, src) && final(self)@.edges == old(self)@.edges,
            },
    {
        if self.reaches(dest, src) {
            Err(WouldCycle)
        } else {
            proof {
                lemma_acyclic_push(self.edges@, src, dest);
            }
            self.edges.push((src, dest));
            Ok(self.edges.len() - 1)
        }
    }

    /// Adds the node `src` together with an edge from it to `dest`, and gives
    /// the indices of the edge and of the node. A new node closes no cycle.
    pub fn add_input(&mut self, src: N, dest: usize) -> (r: (usize, usize))
        requires
            old(self).wf(),
            dest < old(self)@.nodes.len(),
        ensures
            final(self).wf(),
            r.0 == old(self)@.edges.len(),
            r.1 == old(self)@.nodes.len(),
            final(self)@.nodes == old(self)@.nodes.push(src),
            final(self)@.edges == old(self)@.edges.push((r.1, dest)),
            final(self)@.master == old(self)@.master,
    {
        let node = self.nodes.len();
        proof {
            if reaches(self.edges@, dest, node) {
                let path = choose|path: Seq<usize>| #[trigger]
                    walk(self.edges@, path) && path.first() == dest && path.last() == node;
                lemma_walk_bounded(self.edges@, self.nodes@.len(), path);
            }
            lemma_acyclic_push(self.edges@, node, dest);
        }
        self.nodes.push(src);
        self.edges.push((node, dest));
        (self.edges.len() - 1, node)
    }
}

} // verus!
