use std::collections::BTreeSet;

use chuk_robot_benches::graph::{bfs, link, link_forward, reach_from, NetGraph};

fn set(items: &[usize]) -> BTreeSet<usize> {
    items.iter().copied().collect()
}

#[test]
fn undirected_links_are_walked_both_ways() {
    let mut g = NetGraph::new();
    link(&mut g, 0, 1);
    link(&mut g, 1, 2);
    link(&mut g, 5, 6);
    assert_eq!(bfs(&set(&[0]), &g, None), set(&[0, 1, 2]));
    assert_eq!(bfs(&set(&[2]), &g, None), set(&[0, 1, 2]));
    assert_eq!(bfs(&set(&[6]), &g, None), set(&[5, 6]));
}

#[test]
fn forward_links_are_walked_one_way_only() {
    let und = NetGraph::new();
    let mut fwd = NetGraph::new();
    link_forward(&mut fwd, 3, 4);
    assert_eq!(bfs(&set(&[3]), &und, Some(&fwd)), set(&[3, 4]));
    assert_eq!(bfs(&set(&[4]), &und, Some(&fwd)), set(&[4]));
    // Without the forward graph the directed edge is not used.
    assert_eq!(bfs(&set(&[3]), &und, None), set(&[3]));
}

#[test]
fn regulator_chain_reaches_output_but_not_back() {
    // battery + (0) -- switch -- vbat (1) => regulator => v33 (2) -- resistor -- led feed (3)
    let mut und = NetGraph::new();
    let mut fwd = NetGraph::new();
    link(&mut und, 0, 1);
    link(&mut und, 2, 3);
    link_forward(&mut fwd, 1, 2);
    assert_eq!(reach_from(0, &und, &fwd), set(&[0, 1, 2, 3]));
    assert_eq!(reach_from(3, &und, &fwd), set(&[2, 3]));
}

#[test]
fn self_loop_is_not_recorded_and_seed_is_always_reached() {
    let mut g = NetGraph::new();
    link(&mut g, 7, 7);
    let fwd = NetGraph::new();
    assert_eq!(reach_from(7, &g, &fwd), set(&[7]));
    assert_eq!(reach_from(40, &g, &fwd), set(&[40]));
}

#[test]
fn empty_seed_set_reaches_nothing() {
    let mut g = NetGraph::new();
    link(&mut g, 0, 1);
    assert!(bfs(&BTreeSet::new(), &g, None).is_empty());
}

#[test]
fn duplicate_links_change_nothing() {
    let mut g = NetGraph::new();
    link(&mut g, 0, 1);
    link(&mut g, 1, 0);
    link(&mut g, 0, 1);
    assert_eq!(bfs(&set(&[1]), &g, None), set(&[0, 1]));
}

#[test]
fn several_seeds_union_their_reach() {
    let mut g = NetGraph::new();
    link(&mut g, 0, 1);
    link(&mut g, 10, 11);
    link(&mut g, 11, 12);
    assert_eq!(bfs(&set(&[0, 12]), &g, None), set(&[0, 1, 10, 11, 12]));
}
