use lifetime::registry::Registry;

#[test]
fn nested_scope_finalizes_inner_then_outer_in_reverse() {
    let mut r = Registry::new();
    let outer = r.enter_scope();
    let a = r.create_tracked();
    let b = r.create_tracked();
    let inner = r.enter_scope();
    let c = r.create_tracked();
    r.exit_scope(inner);
    assert_eq!(r.records().clone(), vec![c.id()]);
    r.exit_scope(outer);
    assert_eq!(r.records().clone(), vec![c.id(), b.id(), a.id()]);
    assert_eq!(r.records().clone(), vec![2, 1, 0]);
}

#[test]
fn empty_scope_emits_no_record() {
    let mut r = Registry::new();
    let s = r.enter_scope();
    r.exit_scope(s);
    assert!(r.records().is_empty());
    assert_eq!(r.depth(), 0);
}

#[test]
fn one_scope_finalizes_in_reverse_creation_order() {
    let mut r = Registry::new();
    let s = r.enter_scope();
    let mut ids = Vec::new();
    for _ in 0..10 {
        ids.push(r.create_tracked().id());
    }
    assert!(r.records().is_empty());
    r.exit_scope(s);
    ids.reverse();
    assert_eq!(r.records().clone(), ids);
}

#[test]
fn inner_records_precede_later_outer_ones() {
    let mut r = Registry::new();
    let outer = r.enter_scope();
    let a = r.create_tracked();
    let inner = r.enter_scope();
    let b = r.create_tracked();
    let c = r.create_tracked();
    r.exit_scope(inner);
    assert_eq!(r.records().clone(), vec![c.id(), b.id()]);
    let d = r.create_tracked();
    r.exit_scope(outer);
    assert_eq!(r.records().clone(), vec![c.id(), b.id(), d.id(), a.id()]);
    assert_eq!(r.records().clone(), vec![2, 1, 3, 0]);
}

#[test]
fn every_resource_finalized_exactly_once() {
    let mut r = Registry::new();
    let s0 = r.enter_scope();
    r.create_tracked();
    let s1 = r.enter_scope();
    r.create_tracked();
    let s2 = r.enter_scope();
    r.create_tracked();
    r.create_tracked();
    r.exit_scope(s2);
    r.create_tracked();
    r.exit_scope(s1);
    r.create_tracked();
    r.exit_scope(s0);
    let mut recs = r.records().clone();
    assert_eq!(recs, vec![3, 2, 4, 1, 5, 0]);
    recs.sort();
    assert_eq!(recs, vec![0, 1, 2, 3, 4, 5]);
}

#[test]
fn plain_values_emit_no_record() {
    let mut r = Registry::new();
    let s = r.enter_scope();
    let _x = r.create_plain();
    let a = r.create_tracked();
    let _y = r.create_plain();
    r.exit_scope(s);
    assert_eq!(r.records().clone(), vec![a.id()]);
}

#[test]
fn identifiers_increase_in_creation_order() {
    let mut r = Registry::new();
    let s = r.enter_scope();
    let a = r.create_tracked();
    let inner = r.enter_scope();
    let b = r.create_tracked();
    r.exit_scope(inner);
    let c = r.create_tracked();
    assert_eq!((a.id(), b.id(), c.id()), (0, 1, 2));
    r.exit_scope(s);
}

#[test]
fn scope_depth_tracks_open_scopes() {
    let mut r = Registry::new();
    assert_eq!(r.depth(), 0);
    let s0 = r.enter_scope();
    let s1 = r.enter_scope();
    assert_eq!(s0.depth(), 0);
    assert_eq!(s1.depth(), 1);
    assert_eq!(r.depth(), 2);
    r.exit_scope(s1);
    assert_eq!(r.depth(), 1);
    r.exit_scope(s0);
    assert_eq!(r.depth(), 0);
}

#[test]
fn sibling_scopes_finalize_independently() {
    let mut r = Registry::new();
    let outer = r.enter_scope();
    let first = r.enter_scope();
    r.create_tracked();
    r.create_tracked();
    r.exit_scope(first);
    let second = r.enter_scope();
    r.create_tracked();
    r.exit_scope(second);
    r.exit_scope(outer);
    assert_eq!(r.records().clone(), vec![1, 0, 2]);
}
