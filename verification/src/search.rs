//! Connectivity search: does a chain of linked nodes lead from the starting
//! edge of a graph to its goal edge?
//!
//! The search is a breadth-first flood fill. It is written once, against the
//! `Graph` trait, and each board offers a player's cells as such a graph.

use std::collections::HashSet;
use std::collections::VecDeque;
use vstd::prelude::*;
use vstd::set_lib::lemma_len_subset;

verus! {

/// A finite set of nodes with a link relation and two marked edges.
pub trait Graph {
    /// What identifies a node.
    type Node: Copy;

    /// The graph is in a state in which it may be searched.
    spec fn wf(&self) -> bool;

    /// The nodes of the graph.
    spec fn nodes(&self) -> Set<Self::Node>;

    /// Whether a step from `a` to `b` is allowed.
    spec fn linked(&self, a: Self::Node, b: Self::Node) -> bool;

    /// Whether `a` lies on the edge from which the search sets out.
    spec fn is_start(&self, a: Self::Node) -> bool;

    /// Whether `a` lies on the edge that the search tries to reach.
    spec fn is_goal(&self, a: Self::Node) -> bool;

    /// The number under which the search files a node.
    spec fn slot(&self, a: Self::Node) -> u64;

    /// A graph has finitely many nodes, and no two of them share a slot.
    proof fn lemma_finite_nodes(&self)
        requires
            self.wf(),
        ensures
            self.nodes().finite(),
            forall|a: Self::Node, b: Self::Node|
                self.nodes().contains(a) && self.nodes().contains(b) && #[trigger] self.slot(a)
                    == #[trigger] self.slot(b) ==> a == b,
    ;

    /// Computes the slot of a node.
    fn slot_of(&self, a: &Self::Node) -> (k: u64)
        requires
            self.wf(),
            self.nodes().contains(*a),
        ensures
            k == self.slot(*a),
    ;

    /// Lists the nodes on the starting edge.
    fn starts(&self) -> (out: Vec<Self::Node>)
        requires
            self.wf(),
        ensures
            forall|a: Self::Node| #[trigger]
                out@.contains(a) <==> self.nodes().contains(a) && self.is_start(a),
    ;

    /// Tells whether a node lies on the goal edge.
    fn at_goal(&self, a: &Self::Node) -> (hit: bool)
        requires
            self.wf(),
            self.nodes().contains(*a),
        ensures
            hit == self.is_goal(*a),
    ;

    /// Lists the nodes that one step from `a` can reach.
    fn links(&self, a: &Self::Node) -> (out: Vec<Self::Node>)
        requires
            self.wf(),
            self.nodes().contains(*a),
        ensures
            forall|b: Self::Node| #[trigger]
                out@.contains(b) <==> self.nodes().contains(b) && self.linked(*a, b),
    ;
}

/// `p` is a route: a non-empty chain of nodes that begins on the starting
/// edge, moves along links only, and visits no node twice.
pub open spec fn is_route<G: Graph>(g: &G, p: Seq<G::Node>) -> bool {
    &&& p.len() > 0
    &&& g.is_start(p[0])
    &&& forall|i: int| 0 <= i < p.len() ==> g.nodes().contains(#[trigger] p[i])
    &&& forall|i: int| 0 <= i < p.len() - 1 ==> g.linked(#[trigger] p[i], p[i + 1])
    &&& p.no_duplicates()
}

/// The two edges of the graph are joined: some route ends on the goal edge.
pub open spec fn joined<G: Graph>(g: &G) -> bool {
    exists|p: Seq<G::Node>| #[trigger] is_route(g, p) && g.is_goal(p.last())
}

/// Every element of `p` belongs to `s`.
spec fn within<T>(p: Seq<T>, s: Set<T>) -> bool {
    forall|i: int| 0 <= i < p.len() ==> s.contains(#[trigger] p[i])
}

/// Some route that stays inside `seen` ends at `n`.
spec fn reached<G: Graph>(g: &G, seen: Set<G::Node>, n: G::Node) -> bool {
    exists|p: Seq<G::Node>| #[trigger] is_route(g, p) && p.last() == n && within(p, seen)
}

/// `n` is no goal node and every node one step away from it has been seen.
spec fn settled<G: Graph>(g: &G, seen: Set<G::Node>, n: G::Node) -> bool {
    &&& !g.is_goal(n)
    &&& forall|m: G::Node| g.nodes().contains(m) && #[trigger] g.linked(n, m) ==> seen.contains(m)
}

/// Every node of the starting edge has been seen.
#[verifier::opaque]
spec fn starts_seen<G: Graph>(g: &G, seen: Set<G::Node>) -> bool {
    forall|n: G::Node| g.nodes().contains(n) && #[trigger] g.is_start(n) ==> seen.contains(n)
}

/// What the search knows at every moment: `seen` mirrors the marked slots,
/// each seen node has a route behind it, and each seen node is either still
/// queued, in hand (`cur`), or settled.
#[verifier::opaque]
spec fn sound<G: Graph>(
    g: &G,
    seen: Set<G::Node>,
    marks: Set<u64>,
    queue: Seq<G::Node>,
    cur: Option<G::Node>,
) -> bool {
    &&& forall|n: G::Node| #[trigger] seen.contains(n) ==> g.nodes().contains(n)
    &&& forall|n: G::Node|
        g.nodes().contains(n) ==> (marks.contains(#[trigger] g.slot(n)) <==> seen.contains(n))
    &&& forall|n: G::Node| #[trigger] seen.contains(n) ==> reached(g, seen, n)
    &&& forall|i: int| 0 <= i < queue.len() ==> seen.contains(#[trigger] queue[i])
    &&& forall|n: G::Node| #[trigger]
        seen.contains(n) ==> queue.contains(n) || cur == Some(n) || settled(g, seen, n)
}

/// Seeing one more node keeps every route that was known.
proof fn lemma_reached_grows<G: Graph>(g: &G, seen: Set<G::Node>, b: G::Node, n: G::Node)
    requires
        reached(g, seen, n),
    ensures
        reached(g, seen.insert(b), n),
{
    let p = choose|p: Seq<G::Node>| #[trigger] is_route(g, p) && p.last() == n && within(p, seen);
    assert(within(p, seen.insert(b)));
}

/// A node of the starting edge is reached by the route that holds it alone.
proof fn lemma_reached_start<G: Graph>(g: &G, seen: Set<G::Node>, b: G::Node)
    requires
        g.nodes().contains(b),
        g.is_start(b),
    ensures
        reached(g, seen.insert(b), b),
{
    let p = seq![b];
    assert(is_route(g, p));
    assert(p.last() == b);
    assert(within(p, seen.insert(b)));
}

/// A fresh node one step from a reached node is reached by the longer route.
proof fn lemma_reached_step<G: Graph>(g: &G, seen: Set<G::Node>, a: G::Node, b: G::Node)
    requires
        reached(g, seen, a),
        g.nodes().contains(b),
        g.linked(a, b),
        !seen.contains(b),
    ensures
        reached(g, seen.insert(b), b),
{
    let p = choose|p: Seq<G::Node>| #[trigger] is_route(g, p) && p.last() == a && within(p, seen);
    let q = p.push(b);
    assert forall|i: int| 0 <= i < q.len() implies g.nodes().contains(#[trigger] q[i]) by {
        if i < p.len() {
            assert(q[i] == p[i]);
        }
    }
    assert forall|i: int| 0 <= i < q.len() - 1 implies g.linked(#[trigger] q[i], q[i + 1]) by {
        assert(q[i] == p[i]);
        if i < p.len() - 1 {
            assert(q[i + 1] == p[i + 1]);
        }
    }
    assert forall|i: int, j: int| 0 <= i < q.len() && 0 <= j < q.len() && i != j implies q[i]
        != q[j] by {
        if i < p.len() {
            assert(seen.contains(p[i]));
        }
        if j < p.len() {
            assert(seen.contains(p[j]));
        }
    }
    assert(is_route(g, q));
    assert(q.last() == b);
    assert forall|i: int| 0 <= i < q.len() implies seen.insert(b).contains(#[trigger] q[i]) by {
        if i < p.len() {
            assert(seen.contains(p[i]));
        }
    }
    assert(within(q, seen.insert(b)));
}

/// Before anything is seen, the search is sound.
proof fn lemma_begin<G: Graph>(g: &G)
    ensures
        sound(g, Set::<G::Node>::empty(), Set::<u64>::empty(), Seq::<G::Node>::empty(), None),
{
    reveal(sound);
}

/// The seen nodes are nodes of the graph, so there are no more of them.
proof fn lemma_seen_count<G: Graph>(
    g: &G,
    seen: Set<G::Node>,
    marks: Set<u64>,
    queue: Seq<G::Node>,
    cur: Option<G::Node>,
)
    requires
        g.wf(),
        sound(g, seen, marks, queue, cur),
    ensures
        seen.finite(),
        seen.len() <= g.nodes().len(),
{
    reveal(sound);
    g.lemma_finite_nodes();
    assert(seen.subset_of(g.nodes()));
    lemma_len_subset(seen, g.nodes());
}

/// A node of the graph is seen exactly if its slot is marked.
proof fn lemma_marked<G: Graph>(
    g: &G,
    seen: Set<G::Node>,
    marks: Set<u64>,
    queue: Seq<G::Node>,
    cur: Option<G::Node>,
    b: G::Node,
)
    requires
        sound(g, seen, marks, queue, cur),
        g.nodes().contains(b),
    ensures
        marks.contains(g.slot(b)) <==> seen.contains(b),
{
    reveal(sound);
}

/// Marking and queueing a fresh node that has a route behind it keeps the
/// search sound.
proof fn lemma_visit<G: Graph>(
    g: &G,
    seen: Set<G::Node>,
    marks: Set<u64>,
    queue: Seq<G::Node>,
    cur: Option<G::Node>,
    b: G::Node,
)
    requires
        g.wf(),
        sound(g, seen, marks, queue, cur),
        g.nodes().contains(b),
        !seen.contains(b),
        reached(g, seen.insert(b), b),
    ensures
        sound(g, seen.insert(b), marks.insert(g.slot(b)), queue.push(b), cur),
{
    reveal(sound);
    g.lemma_finite_nodes();
    let seen2 = seen.insert(b);
    let marks2 = marks.insert(g.slot(b));
    let queue2 = queue.push(b);
    assert forall|n: G::Node| g.nodes().contains(n) implies (marks2.contains(#[trigger] g.slot(n))
        <==> seen2.contains(n)) by {
        if n != b {
            assert(g.slot(n) != g.slot(b));
        }
    }
    assert forall|n: G::Node| #[trigger] seen2.contains(n) implies reached(g, seen2, n) by {
        if n != b {
            assert(seen.contains(n));
            lemma_reached_grows(g, seen, b, n);
        }
    }
    assert forall|i: int| 0 <= i < queue2.len() implies seen2.contains(#[trigger] queue2[i]) by {
        if i < queue.len() {
            assert(queue2[i] == queue[i]);
            assert(seen.contains(queue[i]));
        }
    }
    assert forall|n: G::Node| #[trigger] seen2.contains(n) implies queue2.contains(n) || cur
        == Some(n) || settled(g, seen2, n) by {
        if n == b {
            assert(queue2[queue.len() as int] == b);
        } else {
            assert(seen.contains(n));
            if queue.contains(n) {
                let i = choose|i: int| 0 <= i < queue.len() && queue[i] == n;
                assert(queue2[i] == n);
            } else if cur != Some(n) {
                assert(settled(g, seen, n));
                assert(settled(g, seen2, n));
            }
        }
    }
}

/// An unmarked node of the starting edge is fresh, and may be marked and
/// queued.
proof fn lemma_seed<G: Graph>(
    g: &G,
    seen: Set<G::Node>,
    marks: Set<u64>,
    queue: Seq<G::Node>,
    s: G::Node,
)
    requires
        g.wf(),
        sound(g, seen, marks, queue, None),
        g.nodes().contains(s),
        g.is_start(s),
        !marks.contains(g.slot(s)),
    ensures
        !seen.contains(s),
        sound(g, seen.insert(s), marks.insert(g.slot(s)), queue.push(s), None),
{
    lemma_marked(g, seen, marks, queue, None, s);
    lemma_reached_start(g, seen, s);
    lemma_visit(g, seen, marks, queue, None, s);
}

/// An unmarked node one step from the node in hand is fresh, and may be
/// marked and queued.
proof fn lemma_discover<G: Graph>(
    g: &G,
    seen: Set<G::Node>,
    marks: Set<u64>,
    queue: Seq<G::Node>,
    cur: G::Node,
    b: G::Node,
)
    requires
        g.wf(),
        sound(g, seen, marks, queue, Some(cur)),
        seen.contains(cur),
        g.nodes().contains(b),
        g.linked(cur, b),
        !marks.contains(g.slot(b)),
    ensures
        !seen.contains(b),
        sound(g, seen.insert(b), marks.insert(g.slot(b)), queue.push(b), Some(cur)),
{
    lemma_marked(g, seen, marks, queue, Some(cur), b);
    assert(reached(g, seen, cur)) by {
        reveal(sound);
    }
    lemma_reached_step(g, seen, cur, b);
    lemma_visit(g, seen, marks, queue, Some(cur), b);
}

/// Taking the head of the queue in hand keeps the search sound.
proof fn lemma_take<G: Graph>(g: &G, seen: Set<G::Node>, marks: Set<u64>, queue: Seq<G::Node>)
    requires
        sound(g, seen, marks, queue, None),
        queue.len() > 0,
    ensures
        sound(g, seen, marks, queue.subrange(1, queue.len() as int), Some(queue[0])),
        seen.contains(queue[0]),
        g.nodes().contains(queue[0]),
        reached(g, seen, queue[0]),
{
    reveal(sound);
    let rest = queue.subrange(1, queue.len() as int);
    assert(seen.contains(queue[0]));
    assert forall|i: int| 0 <= i < rest.len() implies seen.contains(#[trigger] rest[i]) by {
        assert(rest[i] == queue[i + 1]);
    }
    assert forall|n: G::Node| #[trigger] seen.contains(n) implies rest.contains(n) || Some(
        queue[0],
    ) == Some(n) || settled(g, seen, n) by {
        if queue.contains(n) {
            let i = choose|i: int| 0 <= i < queue.len() && queue[i] == n;
            if i > 0 {
                assert(rest[i - 1] == n);
            }
        }
    }
}

/// Once every node one step from the node in hand has been seen, and the
/// node is no goal, it can be put down.
proof fn lemma_settle<G: Graph>(
    g: &G,
    seen: Set<G::Node>,
    marks: Set<u64>,
    queue: Seq<G::Node>,
    cur: G::Node,
)
    requires
        sound(g, seen, marks, queue, Some(cur)),
        !g.is_goal(cur),
        forall|m: G::Node| g.nodes().contains(m) && #[trigger] g.linked(cur, m) ==> seen.contains(m),
    ensures
        sound(g, seen, marks, queue, None),
{
    reveal(sound);
    assert(settled(g, seen, cur));
}

/// Seeing more nodes keeps the starting edge covered.
proof fn lemma_starts_kept<G: Graph>(g: &G, seen: Set<G::Node>, b: G::Node)
    requires
        starts_seen(g, seen),
    ensures
        starts_seen(g, seen.insert(b)),
{
    reveal(starts_seen);
}

/// While every seen node is settled, a route never leaves the seen nodes.
proof fn lemma_route_stays<G: Graph>(g: &G, seen: Set<G::Node>, p: Seq<G::Node>, i: int)
    requires
        starts_seen(g, seen),
        forall|n: G::Node| #[trigger] seen.contains(n) ==> settled(g, seen, n),
        is_route(g, p),
        0 <= i < p.len(),
    ensures
        seen.contains(p[i]),
    decreases i,
{
    reveal(starts_seen);
    if i > 0 {
        lemma_route_stays(g, seen, p, i - 1);
        assert(settled(g, seen, p[i - 1]));
        assert(g.linked(p[i - 1], p[i - 1 + 1]));
    }
}

/// When the queue has run dry, the edges are not joined.
proof fn lemma_exhausted<G: Graph>(g: &G, seen: Set<G::Node>, marks: Set<u64>, queue: Seq<G::Node>)
    requires
        sound(g, seen, marks, queue, None),
        starts_seen(g, seen),
        queue.len() == 0,
    ensures
        !joined(g),
{
    reveal(sound);
    assert forall|n: G::Node| #[trigger] seen.contains(n) implies settled(g, seen, n) by {
        assert(!queue.contains(n));
    }
    assert forall|p: Seq<G::Node>| #[trigger] is_route(g, p) implies !g.is_goal(p.last()) by {
        lemma_route_stays(g, seen, p, p.len() - 1);
        assert(settled(g, seen, p.last()));
    }
}

/// A reached node on the goal edge shows that the edges are joined.
proof fn lemma_found<G: Graph>(g: &G, seen: Set<G::Node>, n: G::Node)
    requires
        reached(g, seen, n),
        g.is_goal(n),
    ensures
        joined(g),
{
    let p = choose|p: Seq<G::Node>| #[trigger] is_route(g, p) && p.last() == n && within(p, seen);
    assert(is_route(g, p) && g.is_goal(p.last()));
}

/// Marks and queues every node of the starting edge.
fn seed<G: Graph>(g: &G, marks: &mut HashSet<u64>, queue: &mut VecDeque<G::Node>) -> (seen: Ghost<
    Set<G::Node>,
>)
    requires
        g.wf(),
        old(marks)@ == Set::<u64>::empty(),
        old(queue)@ == Seq::<G::Node>::empty(),
    ensures
        sound(g, seen@, final(marks)@, final(queue)@, None),
        starts_seen(g, seen@),
{
    let ghost mut seen: Set<G::Node> = Set::empty();
    proof {
        lemma_begin(g);
    }
    let seeds = g.starts();
    let mut i: usize = 0;
    while i < seeds.len()
        invariant
            g.wf(),
            i <= seeds.len(),
            sound(g, seen, marks@, queue@, None),
            forall|j: int| 0 <= j < i ==> seen.contains(#[trigger] seeds@[j]),
            forall|a: G::Node| #[trigger]
                seeds@.contains(a) <==> g.nodes().contains(a) && g.is_start(a),
        decreases seeds.len() - i,
    {
        let s = seeds[i];
        assert(seeds@.contains(s));
        let k: u64 = g.slot_of(&s);
        if !marks.contains(&k) {
            proof {
                lemma_seed(g, seen, marks@, queue@, s);
                seen = seen.insert(s);
            }
            marks.insert(k);
            queue.push_back(s);
        } else {
            proof {
                lemma_marked(g, seen, marks@, queue@, None, s);
            }
        }
        i += 1;
    }
    proof {
        reveal(starts_seen);
        assert forall|n: G::Node| g.nodes().contains(n) && #[trigger] g.is_start(n) implies seen
            .contains(n) by {
            assert(seeds@.contains(n));
            let j = choose|j: int| 0 <= j < seeds@.len() && seeds@[j] == n;
            assert(seen.contains(seeds@[j]));
        }
    }
    Ghost(seen)
}

/// Marks and queues every unmarked node one step from `cur`.
fn expand<G: Graph>(
    g: &G,
    cur: &G::Node,
    marks: &mut HashSet<u64>,
    queue: &mut VecDeque<G::Node>,
    Ghost(seen0): Ghost<Set<G::Node>>,
) -> (seen: Ghost<Set<G::Node>>)
    requires
        g.wf(),
        sound(g, seen0, old(marks)@, old(queue)@, Some(*cur)),
        starts_seen(g, seen0),
        seen0.contains(*cur),
        g.nodes().contains(*cur),
        !g.is_goal(*cur),
    ensures
        sound(g, seen@, final(marks)@, final(queue)@, None),
        starts_seen(g, seen@),
        seen@.finite(),
        seen0.finite(),
        seen0.len() <= seen@.len() <= g.nodes().len(),
        final(queue)@.len() - old(queue)@.len() == seen@.len() - seen0.len(),
{
    let ghost mut seen: Set<G::Node> = seen0;
    proof {
        lemma_seen_count(g, seen, marks@, queue@, Some(*cur));
    }
    let next = g.links(cur);
    let mut j: usize = 0;
    while j < next.len()
        invariant
            g.wf(),
            j <= next.len(),
            sound(g, seen, marks@, queue@, Some(*cur)),
            starts_seen(g, seen),
            seen.finite(),
            seen0.finite(),
            seen0.len() <= seen.len() <= g.nodes().len(),
            seen.contains(*cur),
            queue@.len() - old(queue)@.len() == seen.len() - seen0.len(),
            forall|b: G::Node| #[trigger]
                next@.contains(b) <==> g.nodes().contains(b) && g.linked(*cur, b),
            forall|t: int| 0 <= t < j ==> seen.contains(#[trigger] next@[t]),
        decreases next.len() - j,
    {
        let b = next[j];
        assert(next@.contains(b));
        let k: u64 = g.slot_of(&b);
        if !marks.contains(&k) {
            proof {
                lemma_discover(g, seen, marks@, queue@, *cur, b);
                lemma_starts_kept(g, seen, b);
                seen = seen.insert(b);
            }
            marks.insert(k);
            queue.push_back(b);
            proof {
                lemma_seen_count(g, seen, marks@, queue@, Some(*cur));
            }
        } else {
            proof {
                lemma_marked(g, seen, marks@, queue@, Some(*cur), b);
            }
        }
        j += 1;
    }
    proof {
        assert forall|m: G::Node| g.nodes().contains(m) && #[trigger] g.linked(
            *cur,
            m,
        ) implies seen.contains(m) by {
            assert(next@.contains(m));
            let t = choose|t: int| 0 <= t < next@.len() && next@[t] == m;
            assert(seen.contains(next@[t]));
        }
        lemma_settle(g, seen, marks@, queue@, *cur);
    }
    Ghost(seen)
}

/// Breadth-first search from the starting edge: answers whether some route
/// ends on the goal edge.
pub fn search<G: Graph>(g: &G) -> (found: bool)
    requires
        g.wf(),
    ensures
        found == joined(g),
{
    let mut marks: HashSet<u64> = HashSet::new();
    let mut queue: VecDeque<G::Node> = VecDeque::new();
    let Ghost(start) = seed(g, &mut marks, &mut queue);
    let ghost mut seen: Set<G::Node> = start;
    proof {
        g.lemma_finite_nodes();
        lemma_seen_count(g, seen, marks@, queue@, None);
    }
    loop
        invariant
            g.wf(),
            g.nodes().finite(),
            sound(g, seen, marks@, queue@, None),
            starts_seen(g, seen),
            seen.finite(),
            seen.len() <= g.nodes().len(),
        decreases g.nodes().len() - seen.len(), queue@.len(),
    {
        let ghost queue0 = queue@;
        let cur = match queue.pop_front() {
            Some(c) => c,
            None => {
                proof {
                    lemma_exhausted(g, seen, marks@, queue@);
                }
                return false;
            },
        };
        proof {
            lemma_take(g, seen, marks@, queue0);
        }
        if g.at_goal(&cur) {
            proof {
                lemma_found(g, seen, cur);
            }
            return true;
        }
        let Ghost(grown) = expand(g, &cur, &mut marks, &mut queue, Ghost(seen));
        proof {
            seen = grown;
        }
    }
}

} // verus!
