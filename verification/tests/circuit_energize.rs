use std::collections::BTreeSet;

use chuk_robot_benches::circuit::{
    energize, pin_net_by_role, Circuit, InstanceWiring, PartKind, PinRole, PinWiring,
};
use chuk_robot_benches::components::{bus_conflict, instance_powered, led_status, motor_status, reports_power};
use chuk_robot_benches::graph::{bfs, link, NetGraph};
use chuk_robot_benches::voltage::resolve_voltage_sources;

// Nets of the demo board.
const BATT_POS: usize = 0;
const GND: usize = 1;
const VBAT: usize = 2;
const V33: usize = 3;
const LED1_FEED: usize = 4;
const BTN_OUT: usize = 5;
const LED2_FEED: usize = 6;

fn pin(role: PinRole, net: usize) -> PinWiring {
    PinWiring { role, net: Some(net) }
}

fn part(kind: PartKind, pins: Vec<PinWiring>) -> InstanceWiring {
    InstanceWiring { kind, pins, is_source: false, actuated: false }
}

fn set(items: &[usize]) -> BTreeSet<usize> {
    items.iter().copied().collect()
}

/// battery -> switch -> vbat => regulator => v33 -> resistor -> led1,
/// and v33 -> button -> resistor -> led2.
fn demo(switch_closed: bool, button_held: bool) -> Circuit {
    let mut batt = part(PartKind::Battery, vec![pin(PinRole::Pos, BATT_POS), pin(PinRole::Gnd, GND)]);
    batt.is_source = true;
    let mut sw = part(PartKind::Switch, vec![pin(PinRole::Other, BATT_POS), pin(PinRole::Other, VBAT)]);
    sw.actuated = switch_closed;
    let reg = part(
        PartKind::Regulator,
        vec![pin(PinRole::Gnd, GND), pin(PinRole::PowerIn, VBAT), pin(PinRole::PowerOut, V33)],
    );
    let r1 = part(PartKind::Resistor, vec![pin(PinRole::Other, V33), pin(PinRole::Other, LED1_FEED)]);
    let led1 = part(PartKind::Led, vec![pin(PinRole::DiodeA, LED1_FEED), pin(PinRole::DiodeK, GND)]);
    let mut btn = part(PartKind::Button, vec![pin(PinRole::Other, V33), pin(PinRole::Other, BTN_OUT)]);
    btn.actuated = button_held;
    let r2 = part(PartKind::Resistor, vec![pin(PinRole::Other, BTN_OUT), pin(PinRole::Other, LED2_FEED)]);
    let led2 = part(PartKind::Led, vec![pin(PinRole::DiodeA, LED2_FEED), pin(PinRole::DiodeK, GND)]);
    Circuit { instances: vec![batt, sw, reg, r1, led1, btn, r2, led2] }
}

#[test]
fn switch_open_only_the_battery_terminal_is_hot() {
    let c = demo(false, false);
    let e = energize(&c);
    assert_eq!(e.hot, set(&[BATT_POS]));
    assert_eq!(e.grounded, set(&[GND]));
    let led1 = &c.instances[4];
    let s = led_status(led1, &e.hot, &e.grounded, true);
    assert!(!s.lit);
    assert!(!s.burned);
    assert_eq!(s.reason.as_deref(), Some("no power reaching the anode"));
    assert!(!instance_powered(&c.instances[2], &e.hot, &e.grounded));
    // The battery itself is powered: its Pos net is hot and its Gnd grounded.
    assert!(instance_powered(&c.instances[0], &e.hot, &e.grounded));
}

#[test]
fn switch_closed_powers_the_rail_and_lights_the_first_led() {
    let c = demo(true, false);
    let e = energize(&c);
    assert_eq!(e.hot, set(&[BATT_POS, VBAT, V33, LED1_FEED]));
    assert_eq!(e.grounded, set(&[GND]));
    assert!(instance_powered(&c.instances[2], &e.hot, &e.grounded));
    let s = led_status(&c.instances[4], &e.hot, &e.grounded, true);
    assert!(s.lit && s.current_limited && !s.burned);
    assert_eq!(s.reason, None);
    let s2 = led_status(&c.instances[7], &e.hot, &e.grounded, true);
    assert!(!s2.lit);
}

#[test]
fn button_gates_the_second_led_behind_the_switch() {
    let held_but_off = energize(&demo(false, true));
    assert!(!held_but_off.hot.contains(&LED2_FEED));
    let c = demo(true, true);
    let e = energize(&c);
    assert_eq!(e.hot, set(&[BATT_POS, VBAT, V33, LED1_FEED, BTN_OUT, LED2_FEED]));
    assert!(led_status(&c.instances[7], &e.hot, &e.grounded, true).lit);
}

#[test]
fn graphs_hold_the_bridges_and_the_gated_passthrough() {
    let e = energize(&demo(true, false));
    // Over bridges alone the switch joins the terminal to vbat, nothing more.
    assert_eq!(bfs(&set(&[BATT_POS]), &e.undirected, None), set(&[BATT_POS, VBAT]));
    // The resistor is a bridge, but not an ideal one.
    assert_eq!(bfs(&set(&[V33]), &e.undirected, None), set(&[V33, LED1_FEED]));
    assert_eq!(bfs(&set(&[V33]), &e.undirected_zero_r, None), set(&[V33]));
    // The regulator passes vbat to v33 and never back.
    let empty = NetGraph::new();
    assert_eq!(bfs(&set(&[VBAT]), &empty, Some(&e.forward)), set(&[VBAT, V33]));
    assert_eq!(bfs(&set(&[V33]), &empty, Some(&e.forward)), set(&[V33]));
}

#[test]
fn regulator_with_floating_ground_passes_nothing() {
    let mut c = demo(true, false);
    c.instances[2].pins[0] = pin(PinRole::Gnd, 9);
    let e = energize(&c);
    assert_eq!(e.hot, set(&[BATT_POS, VBAT]));
    assert!(!instance_powered(&c.instances[2], &e.hot, &e.grounded));
}

#[test]
fn no_battery_means_everything_is_dark() {
    let mut c = demo(true, true);
    c.instances[0].is_source = false;
    let e = energize(&c);
    assert!(e.hot.is_empty());
    assert!(e.grounded.is_empty());
}

#[test]
fn closing_switches_never_darkens_a_net() {
    for (sw, bt) in [(false, false), (false, true), (true, false)] {
        let before = energize(&demo(sw, bt));
        let after = energize(&demo(true, true));
        assert!(before.hot.is_subset(&after.hot));
        assert!(before.grounded.is_subset(&after.grounded));
    }
}

#[test]
fn unlimited_led_burns_and_reverse_led_says_why() {
    let c = demo(true, false);
    let e = energize(&c);
    let s = led_status(&c.instances[4], &e.hot, &e.grounded, false);
    assert!(s.lit && s.burned && !s.current_limited);
    assert_eq!(s.reason.as_deref(), Some("no series resistor — would burn out instantly (E33)"));
    let reversed = part(PartKind::Led, vec![pin(PinRole::DiodeA, GND), pin(PinRole::DiodeK, LED1_FEED)]);
    let r = led_status(&reversed, &e.hot, &e.grounded, true);
    assert!(!r.lit && !r.burned);
    assert_eq!(r.reason.as_deref(), Some("reverse polarity — anode is grounded, cathode is hot"));
    let floating = part(PartKind::Led, vec![pin(PinRole::DiodeA, LED1_FEED), pin(PinRole::DiodeK, 9)]);
    let f = led_status(&floating, &e.hot, &e.grounded, true);
    assert_eq!(f.reason.as_deref(), Some("cathode not returned to ground"));
}

#[test]
fn pin_net_by_role_takes_the_first_matching_pin() {
    let pins = vec![
        PinWiring { role: PinRole::Gnd, net: None },
        pin(PinRole::Gnd, 4),
        pin(PinRole::PowerIn, 2),
    ];
    assert_eq!(pin_net_by_role(&pins, PinRole::PowerIn), Some(2));
    // The first Gnd pin is unwired, so the answer is None, not the second.
    assert_eq!(pin_net_by_role(&pins, PinRole::Gnd), None);
    assert_eq!(pin_net_by_role(&pins, PinRole::PowerOut), None);
}

#[test]
fn motor_status_reports_each_case() {
    let none = motor_status(false, Some(true), false);
    assert_eq!(none.powered, None);
    assert_eq!(none.reason, None);
    let unresolved = motor_status(true, None, true);
    assert_eq!(unresolved.powered, None);
    assert_eq!(unresolved.reason.as_deref(), Some("no single driver channel resolves (see E01)"));
    let off = motor_status(true, Some(false), true);
    assert_eq!(off.powered, Some(false));
    assert_eq!(off.reason.as_deref(), Some("driver channel unpowered"));
    let brainless = motor_status(true, Some(true), false);
    assert_eq!(brainless.powered, Some(true));
    assert_eq!(brainless.reason.as_deref(), Some("no signal source wired to this channel"));
    let ok = motor_status(true, Some(true), true);
    assert_eq!(ok.powered, Some(true));
    assert_eq!(ok.reason, None);
}

#[test]
fn bus_conflict_needs_a_second_device_at_the_same_address() {
    assert!(!bus_conflict(&vec![0x29, 0x30, 0x68], 0x29));
    assert!(bus_conflict(&vec![0x29, 0x29, 0x68], 0x29));
    assert!(!bus_conflict(&vec![0x29, 0x29, 0x68], 0x68));
    assert!(!bus_conflict(&vec![], 0x29));
}

#[test]
fn only_supplied_kinds_report_power() {
    for k in [PartKind::Battery, PartKind::Regulator, PartKind::Esc, PartKind::Mcu, PartKind::Tof, PartKind::Imu,
        PartKind::Light, PartKind::Env, PartKind::Radio, PartKind::Buzzer, PartKind::Servo, PartKind::ChargeController] {
        assert!(reports_power(k), "{k:?}");
    }
    for k in [PartKind::Switch, PartKind::Button, PartKind::Resistor, PartKind::Potentiometer, PartKind::Wiring,
        PartKind::Fuse, PartKind::Ptc, PartKind::Connector, PartKind::Led, PartKind::Motor, PartKind::Other] {
        assert!(!reports_power(k), "{k:?}");
    }
}

#[test]
fn undeclared_nets_inherit_voltage_only_across_lossless_links() {
    // Declared: the battery terminal, ground and the regulated rail.
    let mut declared = vec![false; 7];
    declared[BATT_POS] = true;
    declared[GND] = true;
    declared[V33] = true;
    let closed = energize(&demo(true, true));
    let src = resolve_voltage_sources(&declared, &closed.undirected_zero_r);
    assert_eq!(src.len(), 7);
    assert_eq!(src[BATT_POS], Some(BATT_POS));
    assert_eq!(src[GND], Some(GND));
    // The closed switch carries the terminal voltage onto vbat.
    assert_eq!(src[VBAT], Some(BATT_POS));
    // The regulator output is its own source, not the battery's.
    assert_eq!(src[V33], Some(V33));
    // The held button joins v33 to its output losslessly...
    assert_eq!(src[BTN_OUT], Some(V33));
    // ...but a resistor is a real drop.
    assert_eq!(src[LED1_FEED], None);
    assert_eq!(src[LED2_FEED], None);
    let open = energize(&demo(false, false));
    let src_open = resolve_voltage_sources(&declared, &open.undirected_zero_r);
    assert_eq!(src_open[VBAT], None);
    assert_eq!(src_open[BTN_OUT], None);
}

#[test]
fn first_declared_net_wins_a_shared_component() {
    let mut g = NetGraph::new();
    link(&mut g, 0, 1);
    link(&mut g, 1, 2);
    let declared = vec![false, true, true, true];
    let src = resolve_voltage_sources(&declared, &g);
    assert_eq!(src, vec![Some(1), Some(1), Some(1), Some(3)]);
}
