//! Per-instance run-mode verdicts built on the energization sets: whether a
//! powered part's supply is live, what an LED is doing and why, and what
//! state a motor's driver channel leaves it in. One place per component's
//! own rules, so a check and a run-mode projection can never disagree.

use crate::circuit::{
    lemma_role_net_absent, lemma_role_net_first_pin, pin_net_by_role, role_net, InstanceWiring, PartKind, PinRole,
    PinWiring,
};
use std::collections::BTreeSet;
use vstd::prelude::*;
use vstd::string::StringExecFns;

verus! {

broadcast use {vstd::std_specs::btree::group_btree_axioms, vstd::laws_cmp::group_laws_cmp};

/// The supply net of an instance: its first `PowerIn` pin's net, else its
/// first `Pos` pin's net.
pub open spec fn supply_net(inst: InstanceWiring) -> Option<usize> {
    match role_net(inst.pins@, PinRole::PowerIn) {
        Some(n) => Some(n),
        None => role_net(inst.pins@, PinRole::Pos),
    }
}

/// An instance is powered when its supply net is hot and its (first) ground
/// pin's net is grounded.
pub open spec fn powered(inst: InstanceWiring, hot: Set<usize>, grounded: Set<usize>) -> bool {
    match (supply_net(inst), role_net(inst.pins@, PinRole::Gnd)) {
        (Some(s), Some(r)) => hot.contains(s) && grounded.contains(r),
        _ => false,
    }
}

/// Generic "is this instance's supply live and its return grounded" — the
/// same test for a battery, a regulator/ESC-BEC/MCU-3V3-out, or a bus sensor.
/// Kinds without a `power_in`/`pos` + `gnd` pin pair are never powered here.
pub fn instance_powered(inst: &InstanceWiring, hot: &BTreeSet<usize>, grounded: &BTreeSet<usize>) -> (r:
    bool)
    ensures
        r == powered(*inst, hot@, grounded@),
{
    let supply = match pin_net_by_role(&inst.pins, PinRole::PowerIn) {
        Some(n) => Some(n),
        None => pin_net_by_role(&inst.pins, PinRole::Pos),
    };
    let ret = pin_net_by_role(&inst.pins, PinRole::Gnd);
    match (supply, ret) {
        (Some(s), Some(r)) => hot.contains(&s) && grounded.contains(&r),
        _ => false,
    }
}

/// Why an LED is dark or burning, given the state of its two nets.
pub open spec fn led_reason(
    anode_hot: bool,
    cathode_grounded: bool,
    anode_grounded: bool,
    cathode_hot: bool,
    limited: bool,
) -> Option<Seq<char>> {
    let lit = anode_hot && cathode_grounded;
    if lit && !limited {
        Some("no series resistor — would burn out instantly (E33)"@)
    } else if !lit {
        if anode_grounded && cathode_hot {
            Some("reverse polarity — anode is grounded, cathode is hot"@)
        } else if !anode_hot {
            Some("no power reaching the anode"@)
        } else {
            Some("cathode not returned to ground"@)
        }
    } else {
        None
    }
}

/// Whether net `n` (if any) lies in `s`.
pub open spec fn net_in(n: Option<usize>, s: Set<usize>) -> bool {
    match n {
        Some(x) => s.contains(x),
        None => false,
    }
}

fn opt_in(n: Option<usize>, s: &BTreeSet<usize>) -> (r: bool)
    ensures
        r == net_in(n, s@),
{
    match n {
        Some(x) => s.contains(&x),
        None => false,
    }
}

/// What an LED is doing: lit, current-limited, burned, and why not lit.
pub struct LedStatus {
    pub lit: bool,
    pub current_limited: bool,
    /// `lit && !current_limited`: no series resistor means it burns out
    /// instantly under power (E33).
    pub burned: bool,
    pub reason: Option<String>,
}

/// An LED is lit when its anode net is hot and its cathode net grounded;
/// `limited` says whether a series resistor limits its current. A lit but
/// unlimited LED burns; an unlit one never does.
pub fn led_status(inst: &InstanceWiring, hot: &BTreeSet<usize>, grounded: &BTreeSet<usize>, limited: bool) -> (r:
    LedStatus)
    ensures
        ({
            let anode = role_net(inst.pins@, PinRole::DiodeA);
            let cathode = role_net(inst.pins@, PinRole::DiodeK);
            let lit = net_in(anode, hot@) && net_in(cathode, grounded@);
            &&& r.lit == lit
            &&& r.current_limited == limited
            &&& r.burned == (lit && !limited)
            &&& match r.reason {
                Some(s) => led_reason(
                    net_in(anode, hot@),
                    net_in(cathode, grounded@),
                    net_in(anode, grounded@),
                    net_in(cathode, hot@),
                    limited,
                ) == Some(s@),
                None => led_reason(
                    net_in(anode, hot@),
                    net_in(cathode, grounded@),
                    net_in(anode, grounded@),
                    net_in(cathode, hot@),
                    limited,
                ) is None,
            }
        }),
        r.burned ==> r.lit,
        r.reason is None <==> (r.lit && limited),
{
    let anode = pin_net_by_role(&inst.pins, PinRole::DiodeA);
    let cathode = pin_net_by_role(&inst.pins, PinRole::DiodeK);
    let anode_hot = opt_in(anode, hot);
    let cathode_grounded = opt_in(cathode, grounded);
    let lit = anode_hot && cathode_grounded;
    let burned = lit && !limited;
    let reason = if lit && !limited {
        Some(String::from_str("no series resistor — would burn out instantly (E33)"))
    } else if !lit {
        let anode_grounded = opt_in(anode, grounded);
        let cathode_hot = opt_in(cathode, hot);
        if anode_grounded && cathode_hot {
            Some(String::from_str("reverse polarity — anode is grounded, cathode is hot"))
        } else if !anode_hot {
            Some(String::from_str("no power reaching the anode"))
        } else {
            Some(String::from_str("cathode not returned to ground"))
        }
    } else {
        None
    };
    LedStatus { lit, current_limited: limited, burned, reason }
}

/// What a motor's driver channel leaves it in: whether the driving channel
/// is powered, and why it cannot spin (when it cannot).
pub struct MotorStatus {
    pub powered: Option<bool>,
    pub reason: Option<String>,
}

/// Whether a motor can spin. Without a motor-input pin both fields are
/// empty. When no single driver channel resolves, `powered` is empty and the
/// reason says so; otherwise `powered` is that channel's own power, and a
/// powered channel that no signal source drives is flagged. Throttle plays
/// no part.
pub fn motor_status(has_motor_pin: bool, driver_powered: Option<bool>, has_signal_source: bool) -> (r:
    MotorStatus)
    ensures
        !has_motor_pin ==> r.powered is None && r.reason is None,
        has_motor_pin ==> r.powered == driver_powered,
        has_motor_pin && driver_powered is None ==> (r.reason matches Some(s) && s@
            == "no single driver channel resolves (see E01)"@),
        has_motor_pin && driver_powered == Some(false) ==> (r.reason matches Some(s) && s@
            == "driver channel unpowered"@),
        has_motor_pin && driver_powered == Some(true) && !has_signal_source ==> (r.reason matches Some(
            s,
        ) && s@ == "no signal source wired to this channel"@),
        has_motor_pin && driver_powered == Some(true) && has_signal_source ==> r.reason is None,
{
    if !has_motor_pin {
        return MotorStatus { powered: None, reason: None };
    }
    match driver_powered {
        None => MotorStatus {
            powered: None,
            reason: Some(String::from_str("no single driver channel resolves (see E01)")),
        },
        Some(false) => MotorStatus {
            powered: Some(false),
            reason: Some(String::from_str("driver channel unpowered")),
        },
        Some(true) => MotorStatus {
            powered: Some(true),
            reason: if has_signal_source {
                None
            } else {
                Some(String::from_str("no signal source wired to this channel"))
            },
        },
    }
}

/// The kinds whose run state carries a `powered` flag: sources, supplies,
/// controllers, bus devices and the actuators fed from them.
pub open spec fn reports_power_kind(k: PartKind) -> bool {
    match k {
        PartKind::Battery | PartKind::Regulator | PartKind::Esc | PartKind::Mcu | PartKind::Tof
        | PartKind::Imu | PartKind::Light | PartKind::Env | PartKind::Radio | PartKind::Buzzer
        | PartKind::Servo | PartKind::ChargeController => true,
        _ => false,
    }
}

/// Whether an instance of `kind` reports a `powered` flag in run mode.
pub fn reports_power(kind: PartKind) -> (r: bool)
    ensures
        r == reports_power_kind(kind),
{
    match kind {
        PartKind::Battery | PartKind::Regulator | PartKind::Esc | PartKind::Mcu | PartKind::Tof
        | PartKind::Imu | PartKind::Light | PartKind::Env | PartKind::Radio | PartKind::Buzzer
        | PartKind::Servo | PartKind::ChargeController => true,
        _ => false,
    }
}

/// How many entries of `s` equal `a`.
pub open spec fn occurrences(s: Seq<u16>, a: u16) -> nat
    decreases s.len(),
{
    if s.len() == 0 {
        0
    } else {
        occurrences(s.drop_last(), a) + if s.last() == a {
            1nat
        } else {
            0nat
        }
    }
}

/// A bus device is in conflict when its final address is shared: more than
/// one device on the bus ends up at `addr`, given every device's final
/// address `finals`.
pub fn bus_conflict(finals: &Vec<u16>, addr: u16) -> (r: bool)
    ensures
        r == (occurrences(finals@, addr) > 1),
        r == exists|i: int, j: int| 0 <= i < j < finals@.len() && finals@[i] == addr && finals@[j] == addr,
{
    proof {
        lemma_occurrences_two(finals@, addr);
    }
    let mut count: usize = 0;
    let mut i: usize = 0;
    while i < finals.len()
        invariant
            i <= finals@.len(),
            count == occurrences(finals@.subrange(0, i as int), addr),
            count <= i,
        decreases finals@.len() - i,
    {
        assert(finals@.subrange(0, i as int + 1).drop_last() =~= finals@.subrange(0, i as int));
        if finals[i] == addr {
            count = count + 1;
        }
        i = i + 1;
    }
    assert(finals@.subrange(0, finals@.len() as int) =~= finals@);
    count > 1
}

/// `a` occurs in `s` at least once exactly when some entry equals it.
pub proof fn lemma_occurrences_one(s: Seq<u16>, a: u16)
    ensures
        (occurrences(s, a) > 0) == exists|i: int| 0 <= i < s.len() && s[i] == a,
    decreases s.len(),
{
    if s.len() > 0 {
        let p = s.drop_last();
        lemma_occurrences_one(p, a);
        if exists|i: int| 0 <= i < p.len() && p[i] == a {
            let i = choose|i: int| 0 <= i < p.len() && p[i] == a;
            assert(s[i] == a);
        }
        if exists|i: int| 0 <= i < s.len() && s[i] == a {
            let i = choose|i: int| 0 <= i < s.len() && s[i] == a;
            if i < s.len() - 1 {
                assert(p[i] == a);
            }
        }
    }
}

/// `a` occurs in `s` more than once exactly when two different entries
/// equal it: a bus conflict is two devices at one address.
pub proof fn lemma_occurrences_two(s: Seq<u16>, a: u16)
    ensures
        (occurrences(s, a) > 1) == exists|i: int, j: int| 0 <= i < j < s.len() && s[i] == a && s[j] == a,
    decreases s.len(),
{
    if s.len() > 0 {
        let p = s.drop_last();
        lemma_occurrences_two(p, a);
        lemma_occurrences_one(p, a);
        if exists|i: int, j: int| 0 <= i < j < p.len() && p[i] == a && p[j] == a {
            let (i, j) = choose|i: int, j: int| 0 <= i < j < p.len() && p[i] == a && p[j] == a;
            assert(s[i] == a && s[j] == a);
        }
        if s.last() == a && exists|i: int| 0 <= i < p.len() && p[i] == a {
            let i = choose|i: int| 0 <= i < p.len() && p[i] == a;
            assert(s[i] == a && s[s.len() - 1] == a);
        }
        if exists|i: int, j: int| 0 <= i < j < s.len() && s[i] == a && s[j] == a {
            let (i, j) = choose|i: int, j: int| 0 <= i < j < s.len() && s[i] == a && s[j] == a;
            assert(p[i] == a);
            if j < s.len() - 1 {
                assert(p[j] == a);
            }
        }
    }
}

/// When an instance is powered, stated over its pins: its first power-input
/// pin's net (or, with none wired, its first positive pin's net) is hot and
/// its first ground pin's net is grounded.
pub proof fn lemma_powered_by_supply_pins(inst: InstanceWiring, hot: Set<usize>, grounded: Set<usize>)
    ensures
        role_net(inst.pins@, PinRole::Gnd) is None ==> !powered(inst, hot, grounded),
        forall|s: usize, g: usize|
            #![trigger hot.contains(s), grounded.contains(g)]
            role_net(inst.pins@, PinRole::PowerIn) == Some(s) && role_net(inst.pins@, PinRole::Gnd) == Some(g)
                ==> powered(inst, hot, grounded) == (hot.contains(s) && grounded.contains(g)),
        forall|s: usize, g: usize|
            #![trigger hot.contains(s), grounded.contains(g)]
            role_net(inst.pins@, PinRole::PowerIn) is None && role_net(inst.pins@, PinRole::Pos) == Some(s)
                && role_net(inst.pins@, PinRole::Gnd) == Some(g) ==> powered(inst, hot, grounded) == (hot.contains(s)
                && grounded.contains(g)),
        role_net(inst.pins@, PinRole::PowerIn) is None && role_net(inst.pins@, PinRole::Pos) is None ==> !powered(
            inst,
            hot,
            grounded,
        ),
{
}

/// A part fed on its power-input pin: when the first power-input pin sits
/// on a hot net and the first ground pin on a grounded net, it is powered.
pub proof fn lemma_power_in_pin_powers(
    inst: InstanceWiring,
    hot: Set<usize>,
    grounded: Set<usize>,
    i: int,
    j: int,
    s: usize,
    g: usize,
)
    requires
        0 <= i < inst.pins@.len(),
        0 <= j < inst.pins@.len(),
        inst.pins@[i] == (PinWiring { role: PinRole::PowerIn, net: Some(s) }),
        forall|m: int| 0 <= m < i ==> (#[trigger] inst.pins@[m]).role != PinRole::PowerIn,
        inst.pins@[j] == (PinWiring { role: PinRole::Gnd, net: Some(g) }),
        forall|m: int| 0 <= m < j ==> (#[trigger] inst.pins@[m]).role != PinRole::Gnd,
        hot.contains(s),
        grounded.contains(g),
    ensures
        powered(inst, hot, grounded),
{
    lemma_role_net_first_pin(inst.pins@, PinRole::PowerIn, i);
    lemma_role_net_first_pin(inst.pins@, PinRole::Gnd, j);
}

/// A part with no power-input pin is fed on its first positive pin.
pub proof fn lemma_pos_pin_powers_without_power_in(
    inst: InstanceWiring,
    hot: Set<usize>,
    grounded: Set<usize>,
    i: int,
    j: int,
    s: usize,
    g: usize,
)
    requires
        forall|m: int| 0 <= m < inst.pins@.len() ==> (#[trigger] inst.pins@[m]).role != PinRole::PowerIn,
        0 <= i < inst.pins@.len(),
        0 <= j < inst.pins@.len(),
        inst.pins@[i] == (PinWiring { role: PinRole::Pos, net: Some(s) }),
        forall|m: int| 0 <= m < i ==> (#[trigger] inst.pins@[m]).role != PinRole::Pos,
        inst.pins@[j] == (PinWiring { role: PinRole::Gnd, net: Some(g) }),
        forall|m: int| 0 <= m < j ==> (#[trigger] inst.pins@[m]).role != PinRole::Gnd,
    ensures
        powered(inst, hot, grounded) == (hot.contains(s) && grounded.contains(g)),
{
    lemma_role_net_absent(inst.pins@, PinRole::PowerIn);
    lemma_role_net_first_pin(inst.pins@, PinRole::Pos, i);
    lemma_role_net_first_pin(inst.pins@, PinRole::Gnd, j);
}

/// A part whose ground pins are all unwired, or that has none, is never
/// powered.
pub proof fn lemma_unreturned_part_unpowered(inst: InstanceWiring, hot: Set<usize>, grounded: Set<usize>)
    requires
        forall|m: int|
            0 <= m < inst.pins@.len() && (#[trigger] inst.pins@[m]).role == PinRole::Gnd ==> inst.pins@[m].net is None,
    ensures
        !powered(inst, hot, grounded),
{
    if exists|m: int| 0 <= m < inst.pins@.len() && (#[trigger] inst.pins@[m]).role == PinRole::Gnd {
        let m = choose|m: int| 0 <= m < inst.pins@.len() && (#[trigger] inst.pins@[m]).role == PinRole::Gnd;
        lemma_first_with_role(inst.pins@, PinRole::Gnd, m);
    } else {
        lemma_role_net_absent(inst.pins@, PinRole::Gnd);
    }
}

/// If some pin has `role`, the role names the net of a pin with that role.
proof fn lemma_first_with_role(pins: Seq<PinWiring>, role: PinRole, m: int)
    requires
        0 <= m < pins.len(),
        pins[m].role == role,
    ensures
        exists|i: int| 0 <= i < pins.len() && (#[trigger] pins[i]).role == role && role_net(pins, role) == pins[i].net,
    decreases m,
{
    if exists|j: int| 0 <= j < m && (#[trigger] pins[j]).role == role {
        let j = choose|j: int| 0 <= j < m && (#[trigger] pins[j]).role == role;
        lemma_first_with_role(pins, role, j);
    } else {
        lemma_role_net_first_pin(pins, role, m);
    }
}

} // verus!
