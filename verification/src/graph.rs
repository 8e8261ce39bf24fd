//! Generic reachability engine: net-to-net adjacency and BFS. Nothing here
//! knows what a switch or a resistor is; the circuit model decides what gets
//! linked and why. Nets are numbered, and a graph grows to cover whatever
//! net numbers it is handed.

use std::collections::BTreeSet;
use vstd::prelude::*;
use vstd::std_specs::iter::IteratorSpec;

verus! {

broadcast use {vstd::std_specs::btree::group_btree_axioms, vstd::laws_cmp::group_laws_cmp};

/// Every listed successor is itself a row of the table.
spec fn rows_in_range(rows: Seq<Vec<usize>>) -> bool {
    forall|a: int, j: int|
        #![trigger rows[a]@[j]]
        0 <= a < rows.len() && 0 <= j < rows[a]@.len() ==> (rows[a]@[j] as int) < rows.len()
}

/// Edge `a -> b` in a successor table.
spec fn row_edge(rows: Seq<Vec<usize>>, a: usize, b: usize) -> bool {
    &&& (a as int) < rows.len()
    &&& rows[a as int]@.contains(b)
}

/// Grow the table so that rows `0..n` exist; edges are unchanged.
fn cover_rows(rows: &mut Vec<Vec<usize>>, n: usize)
    requires
        rows_in_range(old(rows)@),
    ensures
        rows_in_range(final(rows)@),
        final(rows)@.len() >= n,
        final(rows)@.len() >= old(rows)@.len(),
        forall|a: usize, b: usize| row_edge(final(rows)@, a, b) == row_edge(old(rows)@, a, b),
{
    while rows.len() < n
        invariant
            rows@.len() >= old(rows)@.len(),
            forall|a: int| 0 <= a < old(rows)@.len() ==> rows@[a] == old(rows)@[a],
            forall|a: int| old(rows)@.len() <= a < rows@.len() ==> rows@[a]@.len() == 0,
            rows_in_range(old(rows)@),
        decreases n - rows@.len(),
    {
        rows.push(Vec::new());
    }
    assert forall|a: int, j: int|
        0 <= a < rows@.len() && 0 <= j < rows@[a]@.len() implies (rows@[a]@[j] as int) < rows@.len() by {
        if a < old(rows)@.len() {
            assert(rows@[a] == old(rows)@[a]);
            assert(old(rows)@[a]@[j] == rows@[a]@[j]);
        }
    }
    assert forall|a: usize, b: usize| row_edge(rows@, a, b) == row_edge(old(rows)@, a, b) by {
        if (a as int) < old(rows)@.len() {
            assert(rows@[a as int] == old(rows)@[a as int]);
        } else if (a as int) < rows@.len() {
            assert(rows@[a as int]@.len() == 0);
        }
    }
}

/// Add the edge `from -> to` to a successor table if it is not there yet.
fn add_row_edge(rows: &mut Vec<Vec<usize>>, from: usize, to: usize)
    requires
        rows_in_range(old(rows)@),
        from < usize::MAX,
        to < usize::MAX,
    ensures
        rows_in_range(final(rows)@),
        final(rows)@.len() >= old(rows)@.len(),
        forall|a: usize, b: usize|
            row_edge(final(rows)@, a, b) == (row_edge(old(rows)@, a, b) || (a == from && b == to)),
{
    let need = if from > to { from + 1 } else { to + 1 };
    cover_rows(rows, need);
    let ghost mid = rows@;
    let mut row = rows[from].clone();
    assert(row@ == mid[from as int]@);
    let mut present = false;
    let mut j: usize = 0;
    while j < row.len()
        invariant
            j <= row@.len(),
            (from as int) < mid.len(),
            row@ == mid[from as int]@,
            present == (exists|k: int| 0 <= k < j && row@[k] == to),
        decreases row@.len() - j,
    {
        if row[j] == to {
            present = true;
        }
        j = j + 1;
    }
    if !present {
        row.push(to);
        rows.set(from, row);
        assert forall|a: int, k: int|
            0 <= a < rows@.len() && 0 <= k < rows@[a]@.len() implies (rows@[a]@[k] as int) < rows@.len() by {
            if a != from as int {
                assert(rows@[a] == mid[a]);
                assert(mid[a]@[k] == rows@[a]@[k]);
            } else if k < mid[a]@.len() {
                assert(rows@[a]@[k] == mid[a]@[k]);
            }
        }
        assert forall|a: usize, b: usize|
            row_edge(rows@, a, b) == (row_edge(mid, a, b) || (a == from && b == to)) by {
            if a == from {
                assert(rows@[a as int]@ == mid[a as int]@.push(to));
                if mid[a as int]@.contains(b) {
                    let k = choose|k: int| 0 <= k < mid[a as int]@.len() && mid[a as int]@[k] == b;
                    assert(rows@[a as int]@[k] == b);
                }
                if b == to {
                    assert(rows@[a as int]@[mid[a as int]@.len() as int] == to);
                }
            } else if (a as int) < rows@.len() {
                assert(rows@[a as int] == mid[a as int]);
            }
        }
        assert forall|a: usize, b: usize|
            row_edge(rows@, a, b) == (row_edge(old(rows)@, a, b) || (a == from && b == to)) by {
            assert(row_edge(mid, a, b) == row_edge(old(rows)@, a, b));
        }
    } else {
        let ghost k = choose|k: int| 0 <= k < j && row@[k] == to;
        assert(mid[from as int]@[k] == to);
        assert(row_edge(mid, from, to));
        assert forall|a: usize, b: usize|
            row_edge(rows@, a, b) == (row_edge(old(rows)@, a, b) || (a == from && b == to)) by {
            assert(row_edge(rows@, a, b) == row_edge(mid, a, b));
        }
    }
}

/// Adjacency over numbered nets: `succ[a]` lists the nets one step from `a`.
pub struct NetGraph {
    succ: Vec<Vec<usize>>,
}

impl NetGraph {
    /// Every listed successor is itself a node of the graph.
    #[verifier::type_invariant]
    closed spec fn successors_in_range(self) -> bool {
        rows_in_range(self.succ@)
    }

    /// Whether the graph holds an edge from `a` to `b`.
    pub closed spec fn has_edge(self, a: usize, b: usize) -> bool {
        row_edge(self.succ@, a, b)
    }

    /// An empty graph.
    pub fn new() -> (g: NetGraph)
        ensures
            forall|a: usize, b: usize| !g.has_edge(a, b),
    {
        NetGraph { succ: Vec::new() }
    }

    /// Add the edge `from -> to` if it is not there yet.
    fn add_edge(&mut self, from: usize, to: usize)
        requires
            from < usize::MAX,
            to < usize::MAX,
        ensures
            forall|a: usize, b: usize|
                final(self).has_edge(a, b) == (old(self).has_edge(a, b) || (a == from && b == to)),
    {
        proof {
            use_type_invariant(&*self);
        }
        let mut rows: Vec<Vec<usize>> = Vec::new();
        std::mem::swap(&mut rows, &mut self.succ);
        add_row_edge(&mut rows, from, to);
        self.succ = rows;
    }
}

/// Undirected edge — current/energy can flow either way (a closed switch, a
/// resistor, a length of wire). A self-loop is not recorded.
pub fn link(adj: &mut NetGraph, a: usize, b: usize)
    requires
        a < usize::MAX,
        b < usize::MAX,
    ensures
        forall|x: usize, y: usize|
            final(adj).has_edge(x, y) == (old(adj).has_edge(x, y) || (a != b && ((x == a && y == b) || (
            x == b && y == a)))),
{
    if a == b {
        return ;
    }
    adj.add_edge(a, b);
    adj.add_edge(b, a);
}

/// Directed edge — a regulator/BEC/3V3-out only passes power from its input
/// side to its output side, never the reverse.
pub fn link_forward(adj: &mut NetGraph, from: usize, to: usize)
    requires
        from < usize::MAX,
        to < usize::MAX,
    ensures
        forall|x: usize, y: usize|
            final(adj).has_edge(x, y) == (old(adj).has_edge(x, y) || (x == from && y == to)),
{
    adj.add_edge(from, to);
}


/// One step from `a` to `b`: an undirected edge, or a forward (directed)
/// edge when forward edges are given.
pub open spec fn step(undirected: &NetGraph, forward: Option<&NetGraph>, a: usize, b: usize) -> bool {
    ||| undirected.has_edge(a, b)
    ||| (forward matches Some(f) && f.has_edge(a, b))
}

/// A nonempty sequence of nets, each one `edge` step from the one before.
pub open spec fn is_walk(edge: spec_fn(usize, usize) -> bool, p: Seq<usize>) -> bool {
    &&& p.len() > 0
    &&& forall|i: int| 0 <= i < p.len() - 1 ==> #[trigger] edge(p[i], p[i + 1])
}

/// `n` is at the end of some walk over `edge` that starts at a seed.
pub open spec fn reaches(edge: spec_fn(usize, usize) -> bool, seeds: Set<usize>, n: usize) -> bool {
    exists|p: Seq<usize>| #[trigger] is_walk(edge, p) && seeds.contains(p[0]) && p.last() == n
}

/// Every net reachable from `seeds` over `edge`.
pub open spec fn reachable(edge: spec_fn(usize, usize) -> bool, seeds: Set<usize>) -> Set<usize> {
    Set::new(|n: usize| reaches(edge, seeds, n))
}

/// The one-step relation of a BFS over `undirected` plus optional `forward` edges.
pub open spec fn step_relation(undirected: &NetGraph, forward: Option<&NetGraph>) -> spec_fn(usize, usize) -> bool {
    |a: usize, b: usize| step(undirected, forward, a, b)
}

/// Reachability is monotone: more edges and more seeds never reach less.
pub proof fn lemma_reachable_monotone(
    e1: spec_fn(usize, usize) -> bool,
    e2: spec_fn(usize, usize) -> bool,
    s1: Set<usize>,
    s2: Set<usize>,
)
    requires
        forall|a: usize, b: usize| #[trigger] e1(a, b) ==> e2(a, b),
        s1.subset_of(s2),
    ensures
        reachable(e1, s1).subset_of(reachable(e2, s2)),
{
    assert forall|n: usize| reachable(e1, s1).contains(n) implies reachable(e2, s2).contains(n) by {
        let p = choose|p: Seq<usize>| #[trigger] is_walk(e1, p) && s1.contains(p[0]) && p.last() == n;
        assert forall|i: int| 0 <= i < p.len() - 1 implies #[trigger] e2(p[i], p[i + 1]) by {
            assert(e1(p[i], p[i + 1]));
        }
        assert(is_walk(e2, p));
    }
}

/// Nothing is reachable from no seeds.
pub proof fn lemma_reachable_from_nothing(e: spec_fn(usize, usize) -> bool)
    ensures
        reachable(e, Set::empty()) == Set::<usize>::empty(),
{
    assert(reachable(e, Set::empty()) =~= Set::<usize>::empty());
}

/// Nets `0..k`.
spec fn below(k: nat) -> Set<usize> {
    Seq::new(k, |i: int| i as usize).to_set()
}

proof fn lemma_below(k: nat, x: usize)
    requires
        (x as nat) < k,
    ensures
        below(k).contains(x),
        below(k).finite(),
{
    broadcast use vstd::seq_lib::seq_to_set_is_finite;
    let s = Seq::new(k, |i: int| i as usize);
    assert(s[x as int] == x);
}

/// A set closed under `step` that holds the first net of a walk holds all of it.
proof fn lemma_closed_holds_walk(edge: spec_fn(usize, usize) -> bool, vis: Set<usize>, p: Seq<usize>, k: int)
    requires
        is_walk(edge, p),
        vis.contains(p[0]),
        0 <= k < p.len(),
        forall|x: usize, y: usize| vis.contains(x) && #[trigger] edge(x, y) ==> vis.contains(y),
    ensures
        vis.contains(p[k]),
    decreases k,
{
    if k > 0 {
        lemma_closed_holds_walk(edge, vis, p, k - 1);
        let i = k - 1;
        assert(edge(p[i], p[i + 1]));
    }
}

/// Extending a walk from a seed by one step still reaches.
proof fn lemma_reaches_step(edge: spec_fn(usize, usize) -> bool, seeds: Set<usize>, n: usize, m: usize)
    requires
        reaches(edge, seeds, n),
        edge(n, m),
    ensures
        reaches(edge, seeds, m),
{
    let p = choose|p: Seq<usize>| #[trigger] is_walk(edge, p) && seeds.contains(p[0]) && p.last() == n;
    let q = p.push(m);
    assert forall|i: int| 0 <= i < q.len() - 1 implies #[trigger] edge(q[i], q[i + 1]) by {
        if i < p.len() - 1 {
            assert(q[i] == p[i] && q[i + 1] == p[i + 1]);
        } else {
            assert(q[i] == n && q[i + 1] == m);
        }
    }
    assert(is_walk(edge, q));
    assert(q[0] == p[0]);
}

/// A seed reaches itself.
proof fn lemma_seed_reaches(edge: spec_fn(usize, usize) -> bool, seeds: Set<usize>, s: usize)
    requires
        seeds.contains(s),
    ensures
        reaches(edge, seeds, s),
{
    let p = seq![s];
    assert(is_walk(edge, p));
}

/// Every net of a walk that starts at a reached net is reached.
proof fn lemma_walk_from_reached(edge: spec_fn(usize, usize) -> bool, seeds: Set<usize>, p: Seq<usize>, i: int)
    requires
        is_walk(edge, p),
        reaches(edge, seeds, p[0]),
        0 <= i < p.len(),
    ensures
        reaches(edge, seeds, p[i]),
    decreases i,
{
    if i > 0 {
        let j = i - 1;
        lemma_walk_from_reached(edge, seeds, p, j);
        assert(edge(p[j], p[j + 1]));
        lemma_reaches_step(edge, seeds, p[j], p[j + 1]);
    }
}

/// Reachability composes: a net reachable from a net that is itself
/// reachable from the seeds is reachable from the seeds.
pub proof fn lemma_reachable_transitive(edge: spec_fn(usize, usize) -> bool, seeds: Set<usize>, mid: usize, n: usize)
    requires
        reachable(edge, seeds).contains(mid),
        reachable(edge, set![mid]).contains(n),
    ensures
        reachable(edge, seeds).contains(n),
{
    assert(reaches(edge, seeds, mid));
    assert(reaches(edge, set![mid], n));
    let p = choose|p: Seq<usize>| #[trigger] is_walk(edge, p) && set![mid].contains(p[0]) && p.last() == n;
    assert(p[0] == mid);
    lemma_walk_from_reached(edge, seeds, p, p.len() - 1);
}

/// One more edge from a reachable net reaches its other end.
pub proof fn lemma_reachable_edge(edge: spec_fn(usize, usize) -> bool, seeds: Set<usize>, a: usize, b: usize)
    requires
        reachable(edge, seeds).contains(a),
        edge(a, b),
    ensures
        reachable(edge, seeds).contains(b),
{
    assert(reaches(edge, seeds, a));
    lemma_reaches_step(edge, seeds, a, b);
}

/// Mark every net of `row` visited, appending the newly visited ones to
/// `order` (in row order).
fn visit_row(row: &Vec<usize>, visited: &mut BTreeSet<usize>, order: &mut Vec<usize>)
    requires
        forall|x: usize| old(visited)@.contains(x) <==> old(order)@.contains(x),
        old(order)@.no_duplicates(),
    ensures
        forall|x: usize| final(visited)@.contains(x) <==> (old(visited)@.contains(x) || row@.contains(x)),
        forall|x: usize| final(visited)@.contains(x) <==> final(order)@.contains(x),
        final(order)@.no_duplicates(),
        final(order)@.len() >= old(order)@.len(),
        forall|i: int| 0 <= i < old(order)@.len() ==> final(order)@[i] == old(order)@[i],
{
    let mut j: usize = 0;
    while j < row.len()
        invariant
            j <= row@.len(),
            forall|x: usize| visited@.contains(x) <==> (old(visited)@.contains(x) || row@.subrange(0, j as int).contains(x)),
            forall|x: usize| visited@.contains(x) <==> order@.contains(x),
            order@.no_duplicates(),
            order@.len() >= old(order)@.len(),
            forall|i: int| 0 <= i < old(order)@.len() ==> order@[i] == old(order)@[i],
        decreases row@.len() - j,
    {
        let nb = row[j];
        let ghost before = order@;
        if visited.insert(nb) {
            order.push(nb);
            assert forall|x: usize| order@.contains(x) <==> (before.contains(x) || x == nb) by {
                if order@.contains(x) {
                    let k = choose|k: int| 0 <= k < order@.len() && order@[k] == x;
                    if k < before.len() {
                        assert(before[k] == x);
                    }
                }
                if before.contains(x) {
                    let k = choose|k: int| 0 <= k < before.len() && before[k] == x;
                    assert(order@[k] == x);
                }
                if x == nb {
                    assert(order@[before.len() as int] == nb);
                }
            }
        }
        assert forall|x: usize| row@.subrange(0, j as int + 1).contains(x) <==> (row@.subrange(0, j as int).contains(x) || x == nb) by {
            let s1 = row@.subrange(0, j as int + 1);
            let s0 = row@.subrange(0, j as int);
            if s1.contains(x) {
                let k = choose|k: int| 0 <= k < s1.len() && s1[k] == x;
                if k < j {
                    assert(s0[k] == x);
                }
            }
            if s0.contains(x) {
                let k = choose|k: int| 0 <= k < s0.len() && s0[k] == x;
                assert(s1[k] == x);
            }
            if x == nb {
                assert(s1[j as int] == nb);
            }
        }
        j = j + 1;
    }
    assert(row@.subrange(0, row@.len() as int) =~= row@);
}

/// BFS reachability from `seeds` over `undirected` edges, plus `forward`
/// (directed) edges when given: exactly the nets at the end of a walk from a
/// seed.
pub fn bfs(seeds: &BTreeSet<usize>, undirected: &NetGraph, forward: Option<&NetGraph>) -> (visited:
    BTreeSet<usize>)
    ensures
        visited@ == reachable(step_relation(undirected, forward), seeds@),
        visited@.finite(),
{
    broadcast use vstd::seq_lib::seq_to_set_is_finite;
    proof {
        use_type_invariant(undirected);
    }
    let fwd_rows: &Vec<Vec<usize>> = match forward {
        Some(f) => {
            proof {
                use_type_invariant(f);
            }
            &f.succ
        },
        None => &undirected.succ,
    };
    let ghost bound: nat = if fwd_rows@.len() > undirected.succ@.len() {
        fwd_rows@.len()
    } else {
        undirected.succ@.len()
    };
    proof {
        let init = vstd::std_specs::btree::spec_btree_keys_iter(seeds);
        assert(init.remaining().unref().to_set() == seeds@);
    }
    let mut seed_list: Vec<usize> = Vec::new();
    for s in it: seeds.iter()
        invariant
            it.seq().unref().to_set() == seeds@,
            seed_list@ == it.seq().unref().take(it.index()),
            it.index() < it.seq().len() || seed_list@.to_set() == seeds@,
    {
        seed_list.push(*s);
        assert(seed_list@ =~= it.seq().unref().take(it.index() + 1));
        assert(it.seq().unref().take(it.seq().len() as int) =~= it.seq().unref());
    }
    assert forall|x: usize| seed_list@.contains(x) <==> seeds@.contains(x) by {
        assert(seed_list@.to_set().contains(x) <==> seed_list@.contains(x));
    }
    assert(seeds@.finite());
    let mut visited: BTreeSet<usize> = BTreeSet::new();
    let mut order: Vec<usize> = Vec::new();
    visit_row(&seed_list, &mut visited, &mut order);
    assert(visited@ =~= seeds@);
    let ghost bigset = seeds@ + below(bound);
    let ghost edge = step_relation(undirected, forward);
    proof {
        lemma_below(bound + 1, 0);
        assert forall|x: usize| visited@.contains(x) implies reaches(edge, seeds@, x) by {
            lemma_seed_reaches(edge, seeds@, x);
        }
    }
    let mut head: usize = 0;
    while head < order.len()
        invariant
            head <= order@.len(),
            forall|x: usize| visited@.contains(x) <==> order@.contains(x),
            order@.no_duplicates(),
            forall|x: usize| seeds@.contains(x) ==> visited@.contains(x),
            forall|x: usize| #[trigger] visited@.contains(x) ==> reaches(edge, seeds@, x),
            forall|i: int, y: usize|
                0 <= i < head && #[trigger] edge(order@[i], y) ==> visited@.contains(y),
            edge == step_relation(undirected, forward),
            forall|x: usize| visited@.contains(x) ==> bigset.contains(x),
            bigset == seeds@ + below(bound),
            bigset.finite(),
            rows_in_range(undirected.succ@),
            rows_in_range(fwd_rows@),
            forward matches Some(f) ==> fwd_rows@ == f.succ@,
            undirected.succ@.len() <= bound,
            fwd_rows@.len() <= bound,
        decreases bigset.len() - head,
    {
        proof {
            vstd::set_lib::lemma_len_subset(order@.to_set(), bigset);
            order@.unique_seq_to_set();
        }
        let n = order[head];
        assert(visited@.contains(n));
        let ghost before = order@;
        let ghost vis_before = visited@;
        if n < undirected.succ.len() {
            visit_row(&undirected.succ[n], &mut visited, &mut order);
        }
        let ghost mid = visited@;
        if forward.is_some() {
            if n < fwd_rows.len() {
                visit_row(&fwd_rows[n], &mut visited, &mut order);
            }
        }
        proof {
            assert forall|y: usize| edge(n, y) implies visited@.contains(y) by {
                if undirected.has_edge(n, y) {
                    assert(mid.contains(y));
                }
            }
            assert forall|x: usize| #[trigger] visited@.contains(x) implies reaches(edge, seeds@, x) && bigset.contains(x) by {
                if vis_before.contains(x) {
                    assert(reaches(edge, seeds@, x));
                    assert(bigset.contains(x));
                } else {
                    if mid.contains(x) {
                        assert((n as int) < undirected.succ@.len());
                        let row = undirected.succ@[n as int]@;
                        assert(row.contains(x));
                        let k = choose|k: int| 0 <= k < row.len() && row[k] == x;
                        assert(undirected.succ@[n as int]@[k] == x);
                        assert(undirected.has_edge(n, x));
                    } else {
                        assert(forward is Some && (n as int) < fwd_rows@.len());
                        let row = fwd_rows@[n as int]@;
                        assert(row.contains(x));
                        let k = choose|k: int| 0 <= k < row.len() && row[k] == x;
                        assert(fwd_rows@[n as int]@[k] == x);
                    }
                    assert(edge(n, x));
                    lemma_reaches_step(edge, seeds@, n, x);
                    lemma_below(bound, x);
                }
            }
            assert forall|i: int, y: usize|
                0 <= i < head + 1 && #[trigger] edge(order@[i], y) implies visited@.contains(y) by {
                assert(order@[i] == before[i]);
            }
        }
        head = head + 1;
    }
    proof {
        assert forall|x: usize, y: usize| visited@.contains(x) && #[trigger] edge(x, y) implies visited@.contains(y) by {
            let i = choose|i: int| 0 <= i < order@.len() && order@[i] == x;
            assert(edge(order@[i], y));
        }
        assert forall|x: usize| reaches(edge, seeds@, x) implies visited@.contains(x) by {
            let p = choose|p: Seq<usize>| #[trigger] is_walk(edge, p) && seeds@.contains(p[0]) && p.last() == x;
            lemma_closed_holds_walk(edge, visited@, p, p.len() - 1);
        }
        assert(visited@ =~= reachable(edge, seeds@));
        vstd::set_lib::lemma_len_subset(visited@, bigset);
    }
    visited
}

/// Reachability from a single net: every net a walk from `net_id` reaches
/// over undirected and forward edges (always including `net_id` itself).
pub fn reach_from(net_id: usize, undirected: &NetGraph, forward: &NetGraph) -> (r: BTreeSet<usize>)
    ensures
        r@ == reachable(step_relation(undirected, Some(forward)), set![net_id]),
        r@.contains(net_id),
{
    let mut seed: BTreeSet<usize> = BTreeSet::new();
    seed.insert(net_id);
    assert(seed@ =~= set![net_id]);
    let r = bfs(&seed, undirected, Some(forward));
    proof {
        lemma_seed_reaches(step_relation(undirected, Some(forward)), set![net_id], net_id);
    }
    r
}

} // verus!
