use markov_music::chain::Chain;

#[test]
fn get_weight_absent_is_zero() {
    let c = Chain::new(1000);
    assert_eq!(c.get_weight("a", "b"), 0);
}

#[test]
fn set_then_get_weight() {
    let mut c = Chain::new(1000);
    c.set_weight("a", "b", 5);
    assert_eq!(c.get_weight("a", "b"), 5);
    assert_eq!(c.get_weight("b", "a"), 0);
    assert_eq!(c.get_weight("a", "a"), 0);
}

#[test]
fn set_weight_clamps_negative_to_zero() {
    let mut c = Chain::new(1000);
    c.set_weight("a", "b", -50);
    assert_eq!(c.get_weight("a", "b"), 0);
}

#[test]
fn set_weight_clamps_above_ceiling() {
    let mut c = Chain::new(1000);
    c.set_weight("a", "b", 2000);
    assert_eq!(c.get_weight("a", "b"), 1000);
}

#[test]
fn set_weight_updates_in_place() {
    let mut c = Chain::new(1000);
    c.set_weight("a", "b", 3);
    c.set_weight("a", "b", 7);
    assert_eq!(c.edge_count(), 1);
    assert_eq!(c.get_weight("a", "b"), 7);
}

#[test]
fn set_weight_marks_dirty() {
    let mut c = Chain::new(1000);
    assert!(!c.is_dirty());
    c.set_weight("a", "b", 1);
    assert!(c.is_dirty());
    c.mark_clean();
    assert!(!c.is_dirty());
}

#[test]
fn outgoing_lists_edges_of_one_source() {
    let mut c = Chain::new(1000);
    c.set_weight("a", "b", 1);
    c.set_weight("a", "c", 2);
    c.set_weight("x", "y", 9);
    let out = c.outgoing("a");
    assert_eq!(out.len(), 2);
    assert_eq!(out[0].0, "b");
    assert_eq!(out[0].1, 1);
    assert_eq!(out[1].0, "c");
    assert_eq!(out[1].1, 2);
    assert_eq!(c.outgoing("z").len(), 0);
}

#[test]
fn incoming_lists_positive_sources() {
    let mut c = Chain::new(1000);
    c.set_weight("a", "x", 1);
    c.set_weight("b", "x", 0);
    c.set_weight("c", "x", 4);
    let inc = c.incoming("x");
    assert_eq!(inc.len(), 2);
    assert_eq!(inc[0], "a");
    assert_eq!(inc[1], "c");
}
