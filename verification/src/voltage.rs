//! Voltage inheritance across lossless connections. A net that declares no
//! voltage of its own (the wire between a closed switch and the next part)
//! takes the voltage of a declared net it is ideally connected to; a
//! resistor is a real drop and a regulator output a fresh source, so only
//! the zero-resistance graph carries it. Where several declared nets reach
//! the same net, the first in net order wins.

use crate::graph::{bfs, lemma_reachable_transitive, reachable, step_relation, NetGraph};
use std::collections::BTreeSet;
use vstd::prelude::*;

verus! {

broadcast use {vstd::std_specs::btree::group_btree_axioms, vstd::laws_cmp::group_laws_cmp};

/// The earliest of the nets `0..k` that declares a voltage and whose
/// lossless component (over `edge`) reaches `n`.
pub open spec fn source_among(declared: Seq<bool>, edge: spec_fn(usize, usize) -> bool, n: usize, k: nat) -> Option<
    usize,
>
    decreases k,
{
    if k == 0 {
        None
    } else {
        match source_among(declared, edge, n, (k - 1) as nat) {
            Some(j) => Some(j),
            None => if declared[k - 1] && reachable(edge, set![(k - 1) as usize]).contains(n) {
                Some((k - 1) as usize)
            } else {
                None
            },
        }
    }
}

/// The net whose declared voltage net `n` carries: the first declared net,
/// in net order, that reaches `n` over `edge`.
pub open spec fn voltage_source(declared: Seq<bool>, edge: spec_fn(usize, usize) -> bool, n: usize) -> Option<usize> {
    source_among(declared, edge, n, declared.len())
}

/// What `source_among` names is an earlier declared net that reaches `n`.
proof fn lemma_source_among_sound(declared: Seq<bool>, edge: spec_fn(usize, usize) -> bool, n: usize, k: nat)
    requires
        k <= usize::MAX,
    ensures
        source_among(declared, edge, n, k) matches Some(j) ==> (j as nat) < k && declared[j as int]
            && reachable(edge, set![j]).contains(n),
    decreases k,
{
    if k > 0 {
        lemma_source_among_sound(declared, edge, n, (k - 1) as nat);
    }
}

/// An earlier declared net that reaches `n` means `source_among` names one.
proof fn lemma_source_among_complete(
    declared: Seq<bool>,
    edge: spec_fn(usize, usize) -> bool,
    n: usize,
    k: nat,
    j: usize,
)
    requires
        (j as nat) < k,
        declared[j as int],
        reachable(edge, set![j]).contains(n),
    ensures
        source_among(declared, edge, n, k) is Some,
    decreases k,
{
    if (j as nat) < k - 1 {
        lemma_source_among_complete(declared, edge, n, (k - 1) as nat, j);
    } else {
        assert(j == (k - 1) as usize);
    }
}

/// What voltage a net carries: the source named for `n` is a net that
/// declares a voltage and reaches `n`, and no earlier declaring net reaches
/// `n`; when none is named, no declaring net reaches `n` at all.
pub proof fn lemma_voltage_source_is_first_reaching(
    declared: Seq<bool>,
    edge: spec_fn(usize, usize) -> bool,
    n: usize,
)
    requires
        declared.len() <= usize::MAX,
    ensures
        voltage_source(declared, edge, n) matches Some(j) ==> {
            &&& (j as int) < declared.len()
            &&& declared[j as int]
            &&& reachable(edge, set![j]).contains(n)
            &&& forall|i: usize|
                (i as int) < (j as int) && #[trigger] declared[i as int] ==> !reachable(edge, set![i]).contains(n)
        },
        voltage_source(declared, edge, n) is None ==> forall|i: usize|
            (i as int) < declared.len() && #[trigger] declared[i as int] ==> !reachable(edge, set![i]).contains(n),
{
    lemma_source_among_sound(declared, edge, n, declared.len());
    if let Some(j) = voltage_source(declared, edge, n) {
        assert forall|i: usize|
            (i as int) < (j as int) && #[trigger] declared[i as int] implies !reachable(edge, set![i]).contains(n) by {
            if reachable(edge, set![i]).contains(n) {
                lemma_first_is_least(declared, edge, n, declared.len(), i);
            }
        }
    } else {
        assert forall|i: usize|
            (i as int) < declared.len() && #[trigger] declared[i as int] implies !reachable(edge, set![i]).contains(n) by {
            if reachable(edge, set![i]).contains(n) {
                lemma_source_among_complete(declared, edge, n, declared.len(), i);
            }
        }
    }
}

/// The named source is at or before any declaring net that reaches `n`.
proof fn lemma_first_is_least(declared: Seq<bool>, edge: spec_fn(usize, usize) -> bool, n: usize, k: nat, i: usize)
    requires
        k <= usize::MAX,
        (i as nat) < k,
        declared[i as int],
        reachable(edge, set![i]).contains(n),
    ensures
        source_among(declared, edge, n, k) matches Some(j) && j <= i,
    decreases k,
{
    if (i as nat) < k - 1 {
        lemma_first_is_least(declared, edge, n, (k - 1) as nat, i);
    } else {
        assert(i == (k - 1) as usize);
        lemma_source_among_sound(declared, edge, n, (k - 1) as nat);
    }
}

/// For every net, the declared net it takes its voltage from (`None` when
/// no declared net reaches it over the lossless graph `zero_r`). Nets are
/// numbered `0..declared.len()`, and `declared[n]` says whether net `n`
/// declares a voltage.
pub fn resolve_voltage_sources(declared: &Vec<bool>, zero_r: &NetGraph) -> (r: Vec<Option<usize>>)
    ensures
        r@.len() == declared@.len(),
        forall|n: int|
            0 <= n < declared@.len() ==> #[trigger] r@[n] == voltage_source(
                declared@,
                step_relation(zero_r, None),
                n as usize,
            ),
{
    let ghost e = step_relation(zero_r, None);
    let len = declared.len();
    let mut res: Vec<Option<usize>> = Vec::new();
    let mut i: usize = 0;
    while i < len
        invariant
            i <= len,
            len == declared@.len(),
            res@.len() == i,
            forall|m: int| 0 <= m < i ==> #[trigger] res@[m] is None,
        decreases len - i,
    {
        res.push(None);
        i = i + 1;
    }
    let mut k: usize = 0;
    while k < len
        invariant
            k <= len,
            len == declared@.len(),
            e == step_relation(zero_r, None),
            res@.len() == len,
            forall|m: int| 0 <= m < len ==> #[trigger] res@[m] == source_among(declared@, e, m as usize, k as nat),
        decreases len - k,
    {
        if declared[k] {
            match res[k] {
                Some(j) => {
                    // `k` already takes its voltage from an earlier net `j`, so
                    // everything `k` reaches, `j` reaches too: nothing changes.
                    proof {
                        lemma_source_among_sound(declared@, e, k, k as nat);
                        assert forall|m: int| 0 <= m < len implies #[trigger] res@[m] == source_among(
                            declared@,
                            e,
                            m as usize,
                            (k + 1) as nat,
                        ) by {
                            assert(res@[m] == source_among(declared@, e, m as usize, k as nat));
                            if source_among(declared@, e, m as usize, k as nat) is None {
                                if reachable(e, set![k]).contains(m as usize) {
                                    lemma_reachable_transitive(e, set![j], k, m as usize);
                                    lemma_source_among_complete(declared@, e, m as usize, k as nat, j);
                                }
                            }
                        }
                    }
                },
                None => {
                    let mut seed: BTreeSet<usize> = BTreeSet::new();
                    seed.insert(k);
                    assert(seed@ =~= set![k]);
                    let comp = bfs(&seed, zero_r, None);
                    let mut n: usize = 0;
                    while n < len
                        invariant
                            n <= len,
                            k < len,
                            len == declared@.len(),
                            declared@[k as int],
                            e == step_relation(zero_r, None),
                            comp@ == reachable(e, set![k]),
                            res@.len() == len,
                            forall|m: int|
                                0 <= m < n ==> #[trigger] res@[m] == source_among(
                                    declared@,
                                    e,
                                    m as usize,
                                    (k + 1) as nat,
                                ),
                            forall|m: int|
                                n <= m < len ==> #[trigger] res@[m] == source_among(
                                    declared@,
                                    e,
                                    m as usize,
                                    k as nat,
                                ),
                        decreases len - n,
                    {
                        assert(res@[n as int] == source_among(declared@, e, n, k as nat));
                        if res[n].is_none() && comp.contains(&n) {
                            res.set(n, Some(k));
                        }
                        n = n + 1;
                    }
                },
            }
        }
        k = k + 1;
    }
    res
}

} // verus!
