//! Run-mode energization of a wired circuit: which nets are live and which
//! are returned to ground, given the parts, how their pins are wired, and
//! which switches are closed and buttons held. Event-driven and recomputed
//! from scratch: no timestep, no currents — the reachability answer that the
//! Ohm's-law layer then builds on.
//!
//! Nets are numbered; every instance lists its pins in pin-name order with
//! the role its part declares for each pin and the net the pin is wired to.
//! Instances without an electrical block are simply not listed.

use crate::graph::{
    bfs, link, link_forward, reachable, step, step_relation, NetGraph, lemma_reachable_edge,
    lemma_reachable_from_nothing, lemma_reachable_monotone,
};
use std::collections::BTreeSet;
use vstd::prelude::*;

verus! {

broadcast use {vstd::std_specs::btree::group_btree_axioms, vstd::laws_cmp::group_laws_cmp};

/// What a pin is for, as the part declares it.
#[derive(Clone, Copy, Debug, PartialEq, Eq, Structural)]
pub enum PinRole {
    Pos,
    Gnd,
    PowerIn,
    PowerOut,
    DiodeA,
    DiodeK,
    MotorIn,
    Other,
}

/// The part kinds whose run-mode behaviour differs; anything else is `Other`.
#[derive(Clone, Copy, Debug, PartialEq, Eq, Structural)]
pub enum PartKind {
    Switch,
    Button,
    Resistor,
    Potentiometer,
    Wiring,
    Fuse,
    Ptc,
    Connector,
    Battery,
    Regulator,
    Esc,
    Mcu,
    Tof,
    Imu,
    Light,
    Env,
    Radio,
    Buzzer,
    Servo,
    ChargeController,
    Led,
    Motor,
    Other,
}

/// One pin of an instance: its declared role and the net it is wired to.
#[derive(Clone, Copy, Debug, PartialEq, Eq, Structural)]
pub struct PinWiring {
    pub role: PinRole,
    pub net: Option<usize>,
}

/// One instance with an electrical block.
#[derive(Clone, Debug)]
pub struct InstanceWiring {
    pub kind: PartKind,
    /// Pins in pin-name order.
    pub pins: Vec<PinWiring>,
    /// The part declares a source (a battery).
    pub is_source: bool,
    /// A switch that is closed, or a button that is held.
    pub actuated: bool,
}

/// The instances of a netlist that have an electrical block.
#[derive(Clone, Debug)]
pub struct Circuit {
    pub instances: Vec<InstanceWiring>,
}

/// Two-pin kinds that can join the nets on their two pins.
pub open spec fn bridge_kind(k: PartKind) -> bool {
    match k {
        PartKind::Switch | PartKind::Button | PartKind::Resistor | PartKind::Potentiometer
        | PartKind::Wiring | PartKind::Fuse | PartKind::Ptc | PartKind::Connector => true,
        _ => false,
    }
}

/// Ideal (lossless) bridges: they carry a net's voltage across unchanged.
/// A resistor or potentiometer is a real drop and is not one of them.
pub open spec fn zero_resistance_kind(k: PartKind) -> bool {
    match k {
        PartKind::Switch | PartKind::Button | PartKind::Wiring | PartKind::Fuse | PartKind::Ptc
        | PartKind::Connector => true,
        _ => false,
    }
}

/// A switch or button conducts when actuated; every other bridge always does.
pub open spec fn conducts(inst: InstanceWiring) -> bool {
    match inst.kind {
        PartKind::Switch | PartKind::Button => inst.actuated,
        _ => true,
    }
}

/// The two nets a conducting two-pin bridge joins, when both pins are wired.
pub open spec fn bridge_nets(inst: InstanceWiring) -> Option<(usize, usize)> {
    if bridge_kind(inst.kind) && inst.pins@.len() == 2 && conducts(inst) && inst.pins@[0].net is Some
        && inst.pins@[1].net is Some {
        Some((inst.pins@[0].net->0, inst.pins@[1].net->0))
    } else {
        None
    }
}

/// `inst` joins `a` and `b` (in either direction); with `zero_r_only`, only
/// when it is an ideal connection.
pub open spec fn inst_bridges(inst: InstanceWiring, zero_r_only: bool, a: usize, b: usize) -> bool {
    &&& bridge_nets(inst) is Some
    &&& (!zero_r_only || zero_resistance_kind(inst.kind))
    &&& {
        let (x, y) = bridge_nets(inst)->0;
        x != y && ((a == x && b == y) || (a == y && b == x))
    }
}

/// Some instance of `c` joins `a` and `b`.
pub open spec fn bridges(c: Circuit, zero_r_only: bool, a: usize, b: usize) -> bool {
    exists|k: int| 0 <= k < c.instances@.len() && #[trigger] inst_bridges(c.instances@[k], zero_r_only, a, b)
}

/// The net of the first pin declared with `role` (None when that pin is
/// unwired, or no pin has the role).
pub open spec fn role_net(pins: Seq<PinWiring>, role: PinRole) -> Option<usize>
    decreases pins.len(),
{
    if pins.len() == 0 {
        None
    } else if pins[0].role == role {
        pins[0].net
    } else {
        role_net(pins.drop_first(), role)
    }
}

/// Some pin declared with `role` is wired to net `n`.
pub open spec fn wired_to(pins: Seq<PinWiring>, role: PinRole, n: usize) -> bool {
    exists|j: int| 0 <= j < pins.len() && #[trigger] pins[j] == (PinWiring { role: role, net: Some(n) })
}

/// Nets wired to a `role` pin of a source part (battery `Pos` or `Gnd`).
pub open spec fn source_seeds(c: Circuit, role: PinRole) -> Set<usize> {
    Set::new(
        |n: usize|
            exists|k: int|
                0 <= k < c.instances@.len() && #[trigger] c.instances@[k].is_source && wired_to(
                    c.instances@[k].pins@,
                    role,
                    n,
                ),
    )
}

/// A power-passing part only passes power on when its own ground (if its
/// first ground pin is wired) is actually grounded.
pub open spec fn gate_open(inst: InstanceWiring, grounded: Set<usize>) -> bool {
    match role_net(inst.pins@, PinRole::Gnd) {
        Some(g) => grounded.contains(g),
        None => true,
    }
}

/// `inst` passes power from its input net `a` to its output net `b`.
pub open spec fn inst_passes(inst: InstanceWiring, grounded: Set<usize>, a: usize, b: usize) -> bool {
    &&& gate_open(inst, grounded)
    &&& wired_to(inst.pins@, PinRole::PowerIn, a)
    &&& wired_to(inst.pins@, PinRole::PowerOut, b)
}

/// Some instance of `c` passes power from `a` to `b` (directed).
pub open spec fn passes(c: Circuit, grounded: Set<usize>, a: usize, b: usize) -> bool {
    exists|k: int| 0 <= k < c.instances@.len() && #[trigger] inst_passes(c.instances@[k], grounded, a, b)
}

/// The bridge relation of `c` as an edge relation.
pub open spec fn bridge_relation(c: Circuit) -> spec_fn(usize, usize) -> bool {
    |a: usize, b: usize| bridges(c, false, a, b)
}

/// Nets returned to ground: reachable from a battery ground over bridges.
pub open spec fn grounded_nets(c: Circuit) -> Set<usize> {
    reachable(bridge_relation(c), source_seeds(c, PinRole::Gnd))
}

/// The edges that carry power: bridges, plus gated power passthroughs.
pub open spec fn power_relation(c: Circuit) -> spec_fn(usize, usize) -> bool {
    |a: usize, b: usize| bridges(c, false, a, b) || passes(c, grounded_nets(c), a, b)
}

/// Energized nets: reachable from a battery positive over bridges and gated
/// passthroughs.
pub open spec fn hot_nets(c: Circuit) -> Set<usize> {
    reachable(power_relation(c), source_seeds(c, PinRole::Pos))
}

/// Every wired net number leaves room for a graph to grow past it.
pub open spec fn nets_in_range(c: Circuit) -> bool {
    forall|k: int, j: int|
        0 <= k < c.instances@.len() && 0 <= j < c.instances@[k].pins@.len() && #[trigger] c.instances@[k].pins@[j].net is Some
            ==> c.instances@[k].pins@[j].net->0 < usize::MAX
}

/// The reachability graphs and sets of one run-mode evaluation.
pub struct Energized {
    /// Every conducting bridge, both directions.
    pub undirected: NetGraph,
    /// The ideal (lossless) bridges only.
    pub undirected_zero_r: NetGraph,
    /// Gated power passthroughs, input side to output side.
    pub forward: NetGraph,
    pub hot: BTreeSet<usize>,
    pub grounded: BTreeSet<usize>,
}


/// The nets a conducting two-pin bridge joins.
fn bridge_of(inst: &InstanceWiring) -> (r: Option<(usize, usize)>)
    ensures
        r == bridge_nets(*inst),
{
    let is_bridge = match inst.kind {
        PartKind::Switch | PartKind::Button | PartKind::Resistor | PartKind::Potentiometer
        | PartKind::Wiring | PartKind::Fuse | PartKind::Ptc | PartKind::Connector => true,
        _ => false,
    };
    let conducting = match inst.kind {
        PartKind::Switch | PartKind::Button => inst.actuated,
        _ => true,
    };
    if is_bridge && inst.pins.len() == 2 && conducting {
        match (inst.pins[0].net, inst.pins[1].net) {
            (Some(a), Some(b)) => Some((a, b)),
            _ => None,
        }
    } else {
        None
    }
}

fn is_zero_resistance(kind: PartKind) -> (r: bool)
    ensures
        r == zero_resistance_kind(kind),
{
    match kind {
        PartKind::Switch | PartKind::Button | PartKind::Wiring | PartKind::Fuse | PartKind::Ptc
        | PartKind::Connector => true,
        _ => false,
    }
}

/// The net touching the first pin declared with `role`, if that pin is wired.
pub fn pin_net_by_role(pins: &Vec<PinWiring>, role: PinRole) -> (r: Option<usize>)
    ensures
        r == role_net(pins@, role),
{
    let mut j: usize = 0;
    assert(pins@.skip(0) =~= pins@);
    while j < pins.len()
        invariant
            j <= pins@.len(),
            role_net(pins@, role) == role_net(pins@.skip(j as int), role),
        decreases pins@.len() - j,
    {
        assert(pins@.skip(j as int)[0] == pins@[j as int]);
        if pins[j].role == role {
            return pins[j].net;
        }
        assert(pins@.skip(j as int).drop_first() =~= pins@.skip(j as int + 1));
        j = j + 1;
    }
    assert(pins@.skip(j as int).len() == 0);
    None
}

/// Every net a `role` pin is wired to.
fn wired_nets(pins: &Vec<PinWiring>, role: PinRole) -> (v: Vec<usize>)
    ensures
        forall|n: usize| v@.contains(n) <==> wired_to(pins@, role, n),
{
    let mut v: Vec<usize> = Vec::new();
    let mut j: usize = 0;
    while j < pins.len()
        invariant
            j <= pins@.len(),
            forall|n: usize| v@.contains(n) <==> wired_to(pins@.subrange(0, j as int), role, n),
        decreases pins@.len() - j,
    {
        let ghost before = v@;
        let p = pins[j];
        if p.role == role {
            match p.net {
                Some(n) => {
                    v.push(n);
                },
                None => {},
            }
        }
        assert forall|n: usize| v@.contains(n) <==> wired_to(pins@.subrange(0, j as int + 1), role, n) by {
            let lo = pins@.subrange(0, j as int);
            let hi = pins@.subrange(0, j as int + 1);
            assert(hi[j as int] == p);
            if wired_to(lo, role, n) {
                let i = choose|i: int| 0 <= i < lo.len() && #[trigger] lo[i] == (PinWiring { role: role, net: Some(n) });
                assert(hi[i] == lo[i]);
            }
            if wired_to(hi, role, n) {
                let i = choose|i: int| 0 <= i < hi.len() && #[trigger] hi[i] == (PinWiring { role: role, net: Some(n) });
                if i < j {
                    assert(lo[i] == hi[i]);
                }
            }
            if v@.contains(n) && !before.contains(n) {
                assert(v@.last() == n) by {
                    let i = choose|i: int| 0 <= i < v@.len() && v@[i] == n;
                    if i < before.len() {
                        assert(v@[i] == before[i]);
                    }
                }
            }
            if before.contains(n) {
                let i = choose|i: int| 0 <= i < before.len() && before[i] == n;
                assert(v@[i] == n);
            }
            if p == (PinWiring { role: role, net: Some(n) }) {
                assert(v@[v@.len() - 1] == n);
            }
        }
        j = j + 1;
    }
    assert(pins@.subrange(0, pins@.len() as int) =~= pins@);
    v
}

/// Add the edge `a -> b` for every `a` in `froms` and `b` in `tos`.
fn link_all(g: &mut NetGraph, froms: &Vec<usize>, tos: &Vec<usize>)
    requires
        forall|i: int| 0 <= i < froms@.len() ==> froms@[i] < usize::MAX,
        forall|i: int| 0 <= i < tos@.len() ==> tos@[i] < usize::MAX,
    ensures
        forall|a: usize, b: usize|
            final(g).has_edge(a, b) == (old(g).has_edge(a, b) || (froms@.contains(a) && tos@.contains(b))),
{
    let mut i: usize = 0;
    while i < froms.len()
        invariant
            i <= froms@.len(),
            forall|k: int| 0 <= k < froms@.len() ==> froms@[k] < usize::MAX,
            forall|k: int| 0 <= k < tos@.len() ==> tos@[k] < usize::MAX,
            forall|a: usize, b: usize|
                g.has_edge(a, b) == (old(g).has_edge(a, b) || (froms@.subrange(0, i as int).contains(a)
                    && tos@.contains(b))),
        decreases froms@.len() - i,
    {
        let a = froms[i];
        let ghost mid_g = *g;
        let mut j: usize = 0;
        while j < tos.len()
            invariant
                j <= tos@.len(),
                a < usize::MAX,
                forall|k: int| 0 <= k < tos@.len() ==> tos@[k] < usize::MAX,
                forall|x: usize, y: usize|
                    g.has_edge(x, y) == (mid_g.has_edge(x, y) || (x == a && tos@.subrange(0, j as int).contains(y))),
            decreases tos@.len() - j,
        {
            link_forward(g, a, tos[j]);
            assert forall|y: usize| tos@.subrange(0, j as int + 1).contains(y) <==> (tos@.subrange(0, j as int).contains(y) || y == tos@[j as int]) by {
                let lo = tos@.subrange(0, j as int);
                let hi = tos@.subrange(0, j as int + 1);
                if hi.contains(y) {
                    let k = choose|k: int| 0 <= k < hi.len() && hi[k] == y;
                    if k < j {
                        assert(lo[k] == y);
                    }
                }
                if lo.contains(y) {
                    let k = choose|k: int| 0 <= k < lo.len() && lo[k] == y;
                    assert(hi[k] == y);
                }
                if y == tos@[j as int] {
                    assert(hi[j as int] == y);
                }
            }
            j = j + 1;
        }
        assert(tos@.subrange(0, tos@.len() as int) =~= tos@);
        assert forall|x: usize| froms@.subrange(0, i as int + 1).contains(x) <==> (froms@.subrange(0, i as int).contains(x) || x == a) by {
            let lo = froms@.subrange(0, i as int);
            let hi = froms@.subrange(0, i as int + 1);
            if hi.contains(x) {
                let k = choose|k: int| 0 <= k < hi.len() && hi[k] == x;
                if k < i {
                    assert(lo[k] == x);
                }
            }
            if lo.contains(x) {
                let k = choose|k: int| 0 <= k < lo.len() && lo[k] == x;
                assert(hi[k] == x);
            }
            if x == a {
                assert(hi[i as int] == x);
            }
        }
        i = i + 1;
    }
    assert(froms@.subrange(0, froms@.len() as int) =~= froms@);
}

/// Insert every element of `v`.
fn insert_all(set: &mut BTreeSet<usize>, v: &Vec<usize>)
    ensures
        forall|n: usize| final(set)@.contains(n) <==> (old(set)@.contains(n) || v@.contains(n)),
{
    let mut i: usize = 0;
    while i < v.len()
        invariant
            i <= v@.len(),
            forall|n: usize| set@.contains(n) <==> (old(set)@.contains(n) || v@.subrange(0, i as int).contains(n)),
        decreases v@.len() - i,
    {
        set.insert(v[i]);
        assert forall|n: usize| v@.subrange(0, i as int + 1).contains(n) <==> (v@.subrange(0, i as int).contains(n) || n == v@[i as int]) by {
            let lo = v@.subrange(0, i as int);
            let hi = v@.subrange(0, i as int + 1);
            if hi.contains(n) {
                let k = choose|k: int| 0 <= k < hi.len() && hi[k] == n;
                if k < i {
                    assert(lo[k] == n);
                }
            }
            if lo.contains(n) {
                let k = choose|k: int| 0 <= k < lo.len() && lo[k] == n;
                assert(hi[k] == n);
            }
            if n == v@[i as int] {
                assert(hi[i as int] == n);
            }
        }
        i = i + 1;
    }
    assert(v@.subrange(0, v@.len() as int) =~= v@);
}


/// Bridges among the first `k` instances.
spec fn bridges_upto(c: Circuit, zero_r_only: bool, k: int, a: usize, b: usize) -> bool {
    exists|i: int| 0 <= i < k && #[trigger] inst_bridges(c.instances@[i], zero_r_only, a, b)
}

/// Source seeds among the first `k` instances.
spec fn seeds_upto(c: Circuit, role: PinRole, k: int) -> Set<usize> {
    Set::new(
        |n: usize|
            exists|i: int|
                0 <= i < k && #[trigger] c.instances@[i].is_source && wired_to(c.instances@[i].pins@, role, n),
    )
}

proof fn lemma_seeds_step(c: Circuit, role: PinRole, k: int, before: Set<usize>, after: Set<usize>)
    requires
        0 <= k < c.instances@.len(),
        before == seeds_upto(c, role, k),
        c.instances@[k].is_source ==> forall|m: usize|
            after.contains(m) <==> (before.contains(m) || wired_to(c.instances@[k].pins@, role, m)),
        !c.instances@[k].is_source ==> after == before,
    ensures
        after == seeds_upto(c, role, k + 1),
{
    assert forall|m: usize| after.contains(m) <==> seeds_upto(c, role, k + 1).contains(m) by {
        if seeds_upto(c, role, k + 1).contains(m) {
            let i = choose|i: int|
                0 <= i < k + 1 && #[trigger] c.instances@[i].is_source && wired_to(c.instances@[i].pins@, role, m);
            if i < k {
                assert(seeds_upto(c, role, k).contains(m));
            }
        }
        if before.contains(m) {
            let i = choose|i: int|
                0 <= i < k && #[trigger] c.instances@[i].is_source && wired_to(c.instances@[i].pins@, role, m);
            assert(seeds_upto(c, role, k + 1).contains(m));
        }
        if c.instances@[k].is_source && wired_to(c.instances@[k].pins@, role, m) {
            assert(seeds_upto(c, role, k + 1).contains(m));
        }
    }
    assert(after =~= seeds_upto(c, role, k + 1));
}

/// Passthroughs among the first `k` instances.
spec fn passes_upto(c: Circuit, grounded: Set<usize>, k: int, a: usize, b: usize) -> bool {
    exists|i: int| 0 <= i < k && #[trigger] inst_passes(c.instances@[i], grounded, a, b)
}

/// Phases 1-3 of a run-mode evaluation: the bridge graphs, the ground plane,
/// the gated passthrough edges, and the energized nets.
pub fn energize(c: &Circuit) -> (e: Energized)
    requires
        nets_in_range(*c),
    ensures
        forall|a: usize, b: usize| e.undirected.has_edge(a, b) == bridges(*c, false, a, b),
        forall|a: usize, b: usize| e.undirected_zero_r.has_edge(a, b) == bridges(*c, true, a, b),
        e.grounded@ == grounded_nets(*c),
        forall|a: usize, b: usize| e.forward.has_edge(a, b) == passes(*c, grounded_nets(*c), a, b),
        e.hot@ == hot_nets(*c),
{
    let n = c.instances.len();

    // Phase 1: undirected bridge edges.
    let mut undirected = NetGraph::new();
    let mut zero_r = NetGraph::new();
    let mut k: usize = 0;
    while k < n
        invariant
            k <= n,
            n == c.instances@.len(),
            nets_in_range(*c),
            forall|a: usize, b: usize| undirected.has_edge(a, b) == bridges_upto(*c, false, k as int, a, b),
            forall|a: usize, b: usize| zero_r.has_edge(a, b) == bridges_upto(*c, true, k as int, a, b),
        decreases n - k,
    {
        let inst = &c.instances[k];
        let ghost und0 = undirected;
        let ghost zr0 = zero_r;
        let br = bridge_of(inst);
        match br {
            Some((a, b)) => {
                assert(inst.pins@[0].net is Some);
                assert(inst.pins@[1].net is Some);
                link(&mut undirected, a, b);
                if is_zero_resistance(inst.kind) {
                    link(&mut zero_r, a, b);
                }
            },
            None => {},
        }
        assert forall|x: usize, y: usize| undirected.has_edge(x, y) == bridges_upto(*c, false, k as int + 1, x, y) by {
            if inst_bridges(c.instances@[k as int], false, x, y) {
                assert(bridges_upto(*c, false, k as int + 1, x, y));
            }
            if bridges_upto(*c, false, k as int + 1, x, y) {
                let i = choose|i: int| 0 <= i < k + 1 && #[trigger] inst_bridges(c.instances@[i], false, x, y);
                if i < k {
                    assert(bridges_upto(*c, false, k as int, x, y));
                }
            }
            if bridges_upto(*c, false, k as int, x, y) {
                let i = choose|i: int| 0 <= i < k && #[trigger] inst_bridges(c.instances@[i], false, x, y);
                assert(bridges_upto(*c, false, k as int + 1, x, y));
            }
        }
        assert forall|x: usize, y: usize| zero_r.has_edge(x, y) == bridges_upto(*c, true, k as int + 1, x, y) by {
            if inst_bridges(c.instances@[k as int], true, x, y) {
                assert(bridges_upto(*c, true, k as int + 1, x, y));
            }
            if bridges_upto(*c, true, k as int + 1, x, y) {
                let i = choose|i: int| 0 <= i < k + 1 && #[trigger] inst_bridges(c.instances@[i], true, x, y);
                if i < k {
                    assert(bridges_upto(*c, true, k as int, x, y));
                }
            }
            if bridges_upto(*c, true, k as int, x, y) {
                let i = choose|i: int| 0 <= i < k && #[trigger] inst_bridges(c.instances@[i], true, x, y);
                assert(bridges_upto(*c, true, k as int + 1, x, y));
            }
        }
        k = k + 1;
    }

    // Phase 2: battery seeds, then the ground plane.
    let mut hot_seed: BTreeSet<usize> = BTreeSet::new();
    let mut gnd_seed: BTreeSet<usize> = BTreeSet::new();
    k = 0;
    while k < n
        invariant
            k <= n,
            n == c.instances@.len(),
            hot_seed@ == seeds_upto(*c, PinRole::Pos, k as int),
            gnd_seed@ == seeds_upto(*c, PinRole::Gnd, k as int),
        decreases n - k,
    {
        let inst = &c.instances[k];
        let ghost hs0 = hot_seed@;
        let ghost gs0 = gnd_seed@;
        if inst.is_source {
            let pos = wired_nets(&inst.pins, PinRole::Pos);
            let gnd = wired_nets(&inst.pins, PinRole::Gnd);
            insert_all(&mut hot_seed, &pos);
            insert_all(&mut gnd_seed, &gnd);
            assert forall|m: usize| hot_seed@.contains(m) <==> (hs0.contains(m) || wired_to(c.instances@[k as int].pins@, PinRole::Pos, m)) by {
                assert(pos@.contains(m) <==> wired_to(inst.pins@, PinRole::Pos, m));
            }
            assert forall|m: usize| gnd_seed@.contains(m) <==> (gs0.contains(m) || wired_to(c.instances@[k as int].pins@, PinRole::Gnd, m)) by {
                assert(gnd@.contains(m) <==> wired_to(inst.pins@, PinRole::Gnd, m));
            }
        }
        proof {
            lemma_seeds_step(*c, PinRole::Pos, k as int, hs0, hot_seed@);
            lemma_seeds_step(*c, PinRole::Gnd, k as int, gs0, gnd_seed@);
        }
        k = k + 1;
    }
    assert(hot_seed@ =~= source_seeds(*c, PinRole::Pos));
    assert(gnd_seed@ =~= source_seeds(*c, PinRole::Gnd));
    assert forall|a: usize, b: usize| undirected.has_edge(a, b) == bridges(*c, false, a, b) by {
        assert(bridges_upto(*c, false, n as int, a, b) == bridges(*c, false, a, b));
    }
    assert forall|a: usize, b: usize| zero_r.has_edge(a, b) == bridges(*c, true, a, b) by {
        assert(bridges_upto(*c, true, n as int, a, b) == bridges(*c, true, a, b));
    }
    let grounded = bfs(&gnd_seed, &undirected, None);
    assert(step_relation(&undirected, None) =~= bridge_relation(*c));
    assert(grounded@ == grounded_nets(*c));

    // Phase 3: passthrough edges, gated on each instance's own ground.
    let mut forward = NetGraph::new();
    k = 0;
    while k < n
        invariant
            k <= n,
            n == c.instances@.len(),
            nets_in_range(*c),
            forall|a: usize, b: usize| forward.has_edge(a, b) == passes_upto(*c, grounded@, k as int, a, b),
        decreases n - k,
    {
        let inst = &c.instances[k];
        let gnd = pin_net_by_role(&inst.pins, PinRole::Gnd);
        let open = match gnd {
            Some(g) => grounded.contains(&g),
            None => true,
        };
        let ghost fw0 = forward;
        let ins = wired_nets(&inst.pins, PinRole::PowerIn);
        let outs = wired_nets(&inst.pins, PinRole::PowerOut);
        if open {
            proof {
                assert forall|i: int| 0 <= i < ins@.len() implies ins@[i] < usize::MAX by {
                    assert(ins@.contains(ins@[i]));
                    let j = choose|j: int| 0 <= j < inst.pins@.len() && #[trigger] inst.pins@[j] == (PinWiring { role: PinRole::PowerIn, net: Some(ins@[i]) });
                    assert(c.instances@[k as int].pins@[j].net is Some);
                }
                assert forall|i: int| 0 <= i < outs@.len() implies outs@[i] < usize::MAX by {
                    assert(outs@.contains(outs@[i]));
                    let j = choose|j: int| 0 <= j < inst.pins@.len() && #[trigger] inst.pins@[j] == (PinWiring { role: PinRole::PowerOut, net: Some(outs@[i]) });
                    assert(c.instances@[k as int].pins@[j].net is Some);
                }
            }
            link_all(&mut forward, &ins, &outs);
        }
        assert(open == gate_open(c.instances@[k as int], grounded@));
        assert forall|x: usize, y: usize| forward.has_edge(x, y) == passes_upto(*c, grounded@, k as int + 1, x, y) by {
            if inst_passes(c.instances@[k as int], grounded@, x, y) {
                assert(passes_upto(*c, grounded@, k as int + 1, x, y));
            }
            if passes_upto(*c, grounded@, k as int + 1, x, y) {
                let i = choose|i: int| 0 <= i < k + 1 && #[trigger] inst_passes(c.instances@[i], grounded@, x, y);
                if i < k {
                    assert(passes_upto(*c, grounded@, k as int, x, y));
                }
            }
            if passes_upto(*c, grounded@, k as int, x, y) {
                let i = choose|i: int| 0 <= i < k && #[trigger] inst_passes(c.instances@[i], grounded@, x, y);
                assert(passes_upto(*c, grounded@, k as int + 1, x, y));
            }
        }
        k = k + 1;
    }
    assert forall|a: usize, b: usize| forward.has_edge(a, b) == passes(*c, grounded_nets(*c), a, b) by {
        assert(passes_upto(*c, grounded@, n as int, a, b) == passes(*c, grounded_nets(*c), a, b));
    }
    let hot = bfs(&hot_seed, &undirected, Some(&forward));
    assert(step_relation(&undirected, Some(&forward)) =~= power_relation(*c));
    Energized { undirected, undirected_zero_r: zero_r, forward, hot, grounded }
}


/// `c2` is `c1` with the same parts and wiring, and with every switch that
/// is closed (or button that is held) in `c1` also closed (held) in `c2`.
pub open spec fn more_actuated(c1: Circuit, c2: Circuit) -> bool {
    &&& c1.instances@.len() == c2.instances@.len()
    &&& forall|k: int|
        0 <= k < c1.instances@.len() ==> {
            &&& #[trigger] c1.instances@[k].kind == c2.instances@[k].kind
            &&& c1.instances@[k].pins@ == c2.instances@[k].pins@
            &&& c1.instances@[k].is_source == c2.instances@[k].is_source
            &&& (c1.instances@[k].actuated ==> c2.instances@[k].actuated)
        }
}

/// Closing a switch or pressing a button never de-energizes a net and never
/// lifts a net off ground: more actuation, more (or the same) hot and
/// grounded nets.
pub proof fn lemma_actuation_monotone(c1: Circuit, c2: Circuit)
    requires
        more_actuated(c1, c2),
    ensures
        grounded_nets(c1).subset_of(grounded_nets(c2)),
        hot_nets(c1).subset_of(hot_nets(c2)),
{
    assert forall|a: usize, b: usize| #[trigger] bridge_relation(c1)(a, b) implies bridge_relation(c2)(a, b) by {
        let k = choose|k: int| 0 <= k < c1.instances@.len() && #[trigger] inst_bridges(c1.instances@[k], false, a, b);
        assert(c1.instances@[k].kind == c2.instances@[k].kind);
        assert(bridge_nets(c1.instances@[k]) == bridge_nets(c2.instances@[k]));
        assert(inst_bridges(c2.instances@[k], false, a, b));
    }
    assert forall|role: PinRole| source_seeds(c1, role) == source_seeds(c2, role) by {
        assert forall|m: usize| source_seeds(c1, role).contains(m) <==> source_seeds(c2, role).contains(m) by {
            if source_seeds(c1, role).contains(m) {
                let k = choose|k: int|
                    0 <= k < c1.instances@.len() && #[trigger] c1.instances@[k].is_source && wired_to(c1.instances@[k].pins@, role, m);
                assert(c1.instances@[k].kind == c2.instances@[k].kind);
                assert(c2.instances@[k].is_source);
            }
            if source_seeds(c2, role).contains(m) {
                let k = choose|k: int|
                    0 <= k < c2.instances@.len() && #[trigger] c2.instances@[k].is_source && wired_to(c2.instances@[k].pins@, role, m);
                assert(c1.instances@[k].kind == c2.instances@[k].kind);
                assert(c1.instances@[k].is_source);
            }
        }
        assert(source_seeds(c1, role) =~= source_seeds(c2, role));
    }
    lemma_reachable_monotone(
        bridge_relation(c1),
        bridge_relation(c2),
        source_seeds(c1, PinRole::Gnd),
        source_seeds(c2, PinRole::Gnd),
    );
    let g1 = grounded_nets(c1);
    let g2 = grounded_nets(c2);
    assert forall|a: usize, b: usize| #[trigger] power_relation(c1)(a, b) implies power_relation(c2)(a, b) by {
        if bridges(c1, false, a, b) {
            assert(bridge_relation(c1)(a, b));
        } else {
            let k = choose|k: int| 0 <= k < c1.instances@.len() && #[trigger] inst_passes(c1.instances@[k], g1, a, b);
            assert(c1.instances@[k].kind == c2.instances@[k].kind);
            match role_net(c1.instances@[k].pins@, PinRole::Gnd) {
                Some(g) => {
                    assert(g1.contains(g));
                },
                None => {},
            }
            assert(inst_passes(c2.instances@[k], g2, a, b));
        }
    }
    lemma_reachable_monotone(
        power_relation(c1),
        power_relation(c2),
        source_seeds(c1, PinRole::Pos),
        source_seeds(c2, PinRole::Pos),
    );
}

/// With no battery (no source part) nothing is energized and nothing is
/// grounded — everything reads dark, no failure.
pub proof fn lemma_no_source_all_dark(c: Circuit)
    requires
        forall|k: int| 0 <= k < c.instances@.len() ==> !(#[trigger] c.instances@[k].is_source),
    ensures
        hot_nets(c) == Set::<usize>::empty(),
        grounded_nets(c) == Set::<usize>::empty(),
{
    assert(source_seeds(c, PinRole::Pos) =~= Set::<usize>::empty());
    assert(source_seeds(c, PinRole::Gnd) =~= Set::<usize>::empty());
    lemma_reachable_from_nothing(power_relation(c));
    lemma_reachable_from_nothing(bridge_relation(c));
}

/// The ideal-connection graph is the bridge graph minus its resistive bridges.
pub proof fn lemma_zero_r_within_bridges(c: Circuit, a: usize, b: usize)
    ensures
        bridges(c, true, a, b) == (bridges(c, false, a, b) && exists|k: int|
            0 <= k < c.instances@.len() && #[trigger] inst_bridges(c.instances@[k], false, a, b)
                && zero_resistance_kind(c.instances@[k].kind)),
{
    if bridges(c, true, a, b) {
        let k = choose|k: int| 0 <= k < c.instances@.len() && #[trigger] inst_bridges(c.instances@[k], true, a, b);
        assert(inst_bridges(c.instances@[k], false, a, b));
    }
    if exists|k: int|
        0 <= k < c.instances@.len() && #[trigger] inst_bridges(c.instances@[k], false, a, b)
            && zero_resistance_kind(c.instances@[k].kind) {
        let k = choose|k: int|
            0 <= k < c.instances@.len() && #[trigger] inst_bridges(c.instances@[k], false, a, b)
                && zero_resistance_kind(c.instances@[k].kind);
        assert(inst_bridges(c.instances@[k], true, a, b));
    }
}

/// Two-pin parts that conduct: a resistor, potentiometer, wire, fuse, PTC or
/// connector always joins the nets on its two pins, and a switch or button
/// does so while closed or held. Such a part carries power and ground
/// across in both directions; the ideal ones (switch, button, wire, fuse,
/// PTC, connector) also carry voltage across losslessly.
pub proof fn lemma_two_pin_parts_bridge(c: Circuit, k: int, a: usize, b: usize)
    requires
        0 <= k < c.instances@.len(),
        c.instances@[k].pins@.len() == 2,
        c.instances@[k].pins@[0].net == Some(a),
        c.instances@[k].pins@[1].net == Some(b),
        a != b,
        c.instances@[k].kind == PartKind::Resistor || c.instances@[k].kind == PartKind::Potentiometer
            || c.instances@[k].kind == PartKind::Wiring || c.instances@[k].kind == PartKind::Fuse
            || c.instances@[k].kind == PartKind::Ptc || c.instances@[k].kind == PartKind::Connector || ((
        c.instances@[k].kind == PartKind::Switch || c.instances@[k].kind == PartKind::Button)
            && c.instances@[k].actuated),
    ensures
        bridges(c, false, a, b),
        bridges(c, false, b, a),
        hot_nets(c).contains(a) ==> hot_nets(c).contains(b),
        hot_nets(c).contains(b) ==> hot_nets(c).contains(a),
        grounded_nets(c).contains(a) ==> grounded_nets(c).contains(b),
        grounded_nets(c).contains(b) ==> grounded_nets(c).contains(a),
        c.instances@[k].kind != PartKind::Resistor && c.instances@[k].kind != PartKind::Potentiometer
            ==> bridges(c, true, a, b) && bridges(c, true, b, a),
{
    let inst = c.instances@[k];
    assert(inst_bridges(inst, false, a, b));
    assert(inst_bridges(inst, false, b, a));
    if inst.kind != PartKind::Resistor && inst.kind != PartKind::Potentiometer {
        assert(inst_bridges(inst, true, a, b));
        assert(inst_bridges(inst, true, b, a));
    }
    assert(power_relation(c)(a, b));
    assert(power_relation(c)(b, a));
    assert(bridge_relation(c)(a, b));
    assert(bridge_relation(c)(b, a));
    if hot_nets(c).contains(a) {
        lemma_reachable_edge(power_relation(c), source_seeds(c, PinRole::Pos), a, b);
    }
    if hot_nets(c).contains(b) {
        lemma_reachable_edge(power_relation(c), source_seeds(c, PinRole::Pos), b, a);
    }
    if grounded_nets(c).contains(a) {
        lemma_reachable_edge(bridge_relation(c), source_seeds(c, PinRole::Gnd), a, b);
    }
    if grounded_nets(c).contains(b) {
        lemma_reachable_edge(bridge_relation(c), source_seeds(c, PinRole::Gnd), b, a);
    }
}

/// Only two-pin parts join nets: every bridge between `a` and `b` comes from
/// a resistor, potentiometer, wire, fuse, PTC, connector, closed switch or
/// held button whose two pins sit on `a` and `b`. A lossless bridge never
/// comes from a resistor or potentiometer: only a switch, button, wire,
/// fuse, PTC or connector carries voltage across unchanged.
pub proof fn lemma_bridges_come_from_two_pin_parts(c: Circuit, lossless: bool, a: usize, b: usize)
    requires
        bridges(c, lossless, a, b),
    ensures
        exists|k: int|
            0 <= k < c.instances@.len() && #[trigger] c.instances@[k].pins@.len() == 2 && a != b && ((
            c.instances@[k].pins@[0].net == Some(a) && c.instances@[k].pins@[1].net == Some(b)) || (
            c.instances@[k].pins@[0].net == Some(b) && c.instances@[k].pins@[1].net == Some(a))) && (
            if lossless {
                c.instances@[k].kind == PartKind::Wiring || c.instances@[k].kind == PartKind::Fuse
                    || c.instances@[k].kind == PartKind::Ptc || c.instances@[k].kind == PartKind::Connector || ((
                c.instances@[k].kind == PartKind::Switch || c.instances@[k].kind == PartKind::Button)
                    && c.instances@[k].actuated)
            } else {
                c.instances@[k].kind == PartKind::Resistor || c.instances@[k].kind == PartKind::Potentiometer
                    || c.instances@[k].kind == PartKind::Wiring || c.instances@[k].kind == PartKind::Fuse
                    || c.instances@[k].kind == PartKind::Ptc || c.instances@[k].kind == PartKind::Connector || ((
                c.instances@[k].kind == PartKind::Switch || c.instances@[k].kind == PartKind::Button)
                    && c.instances@[k].actuated)
            }),
{
    let k = choose|k: int| 0 <= k < c.instances@.len() && #[trigger] inst_bridges(c.instances@[k], lossless, a, b);
    let inst = c.instances@[k];
    assert(inst.pins@.len() == 2);
}

/// The net a role names is the net of the first pin declared with that
/// role (possibly unwired), and nothing when no pin has the role.
pub proof fn lemma_role_net_first_pin(pins: Seq<PinWiring>, role: PinRole, i: int)
    requires
        0 <= i < pins.len(),
        pins[i].role == role,
        forall|j: int| 0 <= j < i ==> (#[trigger] pins[j]).role != role,
    ensures
        role_net(pins, role) == pins[i].net,
    decreases i,
{
    if i > 0 {
        let rest = pins.drop_first();
        assert forall|j: int| 0 <= j < i - 1 implies (#[trigger] rest[j]).role != role by {
            assert(rest[j] == pins[j + 1]);
        }
        assert(pins[0].role != role);
        lemma_role_net_first_pin(rest, role, i - 1);
    }
}

/// No pin with the role: the role names no net.
pub proof fn lemma_role_net_absent(pins: Seq<PinWiring>, role: PinRole)
    requires
        forall|j: int| 0 <= j < pins.len() ==> (#[trigger] pins[j]).role != role,
    ensures
        role_net(pins, role) is None,
    decreases pins.len(),
{
    if pins.len() > 0 {
        let rest = pins.drop_first();
        assert forall|j: int| 0 <= j < rest.len() implies (#[trigger] rest[j]).role != role by {
            assert(rest[j] == pins[j + 1]);
        }
        assert(pins[0].role != role);
        lemma_role_net_absent(rest, role);
    }
}

} // verus!
