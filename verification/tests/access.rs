use bevy_widgets::access::{AccessFilters, FilteredAccess, KindAccess};

#[test]
fn kind_access_compatibility() {
    let mut reader = KindAccess::new();
    reader.add_read(1);
    let mut writer = KindAccess::new();
    writer.add_write(1);
    let mut other_writer = KindAccess::new();
    other_writer.add_write(2);
    assert!(reader.is_compatible(&reader.copy()));
    assert!(!reader.is_compatible(&writer));
    assert!(!writer.is_compatible(&reader));
    assert!(writer.is_compatible(&other_writer));
    assert!(!writer.is_compatible(&writer.copy()));

    let mut all_reader = KindAccess::new();
    all_reader.read_all();
    assert!(all_reader.is_compatible(&reader));
    assert!(!all_reader.is_compatible(&other_writer));
    let mut all_writer = KindAccess::new();
    all_writer.write_all();
    assert!(!all_writer.is_compatible(&reader));
    assert!(all_writer.is_compatible(&KindAccess::new()));
    assert!(!all_writer.is_compatible(&all_reader));
}

#[test]
fn kind_access_extend_and_queries() {
    let mut a = KindAccess::new();
    assert!(!a.has_any_read());
    assert!(!a.has_any_write());
    let mut b = KindAccess::new();
    b.add_write(3);
    a.extend(&b);
    assert!(a.has_any_read());
    assert!(a.has_any_write());
    assert!(a.writes_meet_reads(&b));
    let mut r = KindAccess::new();
    r.add_read(4);
    assert!(!a.writes_meet_reads(&r));
    assert!(!r.writes_meet_reads(&a));
}

#[test]
fn filters_rule_each_other_out() {
    let f = AccessFilters::new().and_with(1);
    let g = AccessFilters::new().and_without(1);
    let h = AccessFilters::new().and_with(2);
    assert!(f.is_ruled_out_by(&g));
    assert!(g.is_ruled_out_by(&f));
    assert!(!f.is_ruled_out_by(&h));
    let u = f.union(&h);
    assert!(u.is_ruled_out_by(&g));
    assert!(!u.is_ruled_out_by(&AccessFilters::new()));
}

#[test]
fn compatibility_is_symmetric() {
    let mut a = FilteredAccess::matches_everything();
    a.add_component_write(1);
    a.and_with(2);
    let mut b = FilteredAccess::matches_everything();
    b.add_component_read(1);
    b.and_without(2);
    let mut c = FilteredAccess::matches_everything();
    c.add_component_read(1);
    for (x, y) in [(&a, &b), (&a, &c), (&b, &c)] {
        assert_eq!(x.is_compatible(y), y.is_compatible(x));
    }
    assert!(a.is_compatible(&b));
    assert!(!a.is_compatible(&c));
    assert!(b.is_compatible(&c));
}

#[test]
fn resources_and_components_are_separate() {
    let mut comp = FilteredAccess::matches_everything();
    comp.write_all_components();
    let mut res = FilteredAccess::matches_everything();
    res.add_resource_read(1);
    assert!(comp.is_compatible(&res));
    let mut all = FilteredAccess::matches_everything();
    all.write_all();
    assert!(!all.is_compatible(&res));
    let mut reads = FilteredAccess::matches_everything();
    reads.read_all();
    assert!(reads.is_compatible(&res));
    let mut writes_res = FilteredAccess::matches_everything();
    writes_res.add_resource_write(1);
    assert!(!reads.is_compatible(&writes_res));
}

#[test]
fn matches_nothing_is_compatible_with_everything_filtered() {
    let mut none = FilteredAccess::matches_nothing();
    none.add_component_write(1);
    let mut w = FilteredAccess::matches_everything();
    w.add_component_write(1);
    // An empty disjunction of filters is never passed, so it keeps apart from anything.
    assert!(none.is_compatible(&w));
}

#[test]
fn extend_joins_filters() {
    // (With<A> or With<B>) and Without<A>: only the With<B> branch survives; it
    // still meets a query that requires B.
    let mut or = FilteredAccess::matches_nothing();
    let mut with_a = FilteredAccess::matches_everything();
    with_a.and_with(1);
    let mut with_b = FilteredAccess::matches_everything();
    with_b.and_with(2);
    or.append_or(&with_a);
    or.append_or(&with_b);
    let mut q = FilteredAccess::matches_everything();
    q.add_component_write(5);
    q.and_without(1);
    q.extend(&or);
    let mut other = FilteredAccess::matches_everything();
    other.add_component_write(5);
    other.and_with(2);
    assert!(!q.is_compatible(&other));
    // Entities with A are kept out of `q` by its Without<A>.
    let mut apart = FilteredAccess::matches_everything();
    apart.add_component_write(5);
    apart.and_with(1);
    assert!(q.is_compatible(&apart));
    // Filters are compared as written: the branch (Without<A>, With<A>) is not
    // ruled out by Without<B>, so these are reported as conflicting.
    let mut without_b = FilteredAccess::matches_everything();
    without_b.add_component_write(5);
    without_b.and_without(2);
    assert!(!q.is_compatible(&without_b));
}
