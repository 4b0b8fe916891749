//! Access bookkeeping of system parameters: which components and resources a
//! parameter reads or writes, and which entities a query can match (its filters,
//! kept as a disjunction of conjunctions of `With` / `Without` terms).
//!
//! Two parameters of one system may run together when they do not conflict on a
//! resource, and either do not conflict on a component or have filters showing
//! that they can never match the same entity.

use vstd::prelude::*;
use crate::ids::{id_set, contains_id, copy_ids, ids_disjoint, push_unique, extend_ids};

verus! {

/// What one kind of data (components, or resources) is read and written.
pub struct KindAccess {
    reads_all: bool,
    writes_all: bool,
    reads: Vec<u64>,
    writes: Vec<u64>,
}

/// Model of a [`KindAccess`].
pub struct KindAccessView {
    pub reads_all: bool,
    pub writes_all: bool,
    pub reads: Set<u64>,
    pub writes: Set<u64>,
}

impl View for KindAccess {
    type V = KindAccessView;

    closed spec fn view(&self) -> KindAccessView {
        KindAccessView {
            reads_all: self.reads_all,
            writes_all: self.writes_all,
            reads: id_set(self.reads@),
            writes: id_set(self.writes@),
        }
    }
}

/// Whether the access reads `x` (a write is also a read).
pub open spec fn reads_id(a: KindAccessView, x: u64) -> bool {
    a.reads_all || a.writes_all || a.reads.contains(x) || a.writes.contains(x)
}

/// Whether the access writes `x`.
pub open spec fn writes_id(a: KindAccessView, x: u64) -> bool {
    a.writes_all || a.writes.contains(x)
}

/// Whether some identifier is written by one access and read by the other.
pub open spec fn kind_conflict(a: KindAccessView, b: KindAccessView) -> bool {
    (exists|x: u64| #[trigger] writes_id(a, x) && reads_id(b, x))
        || (exists|x: u64| #[trigger] writes_id(b, x) && reads_id(a, x))
}

/// Whether the access touches anything at all.
pub open spec fn reads_anything(a: KindAccessView) -> bool {
    exists|x: u64| #[trigger] reads_id(a, x)
}

/// Whether the access writes anything at all.
pub open spec fn writes_anything(a: KindAccessView) -> bool {
    exists|x: u64| #[trigger] writes_id(a, x)
}

impl KindAccess {
    /// No access.
    pub fn new() -> (r: KindAccess)
        ensures
            !r@.reads_all,
            !r@.writes_all,
            r@.reads == Set::<u64>::empty(),
            r@.writes == Set::<u64>::empty(),
    {
        let r = KindAccess { reads_all: false, writes_all: false, reads: Vec::new(), writes: Vec::new() };
        assert(r@.reads =~= Set::<u64>::empty());
        assert(r@.writes =~= Set::<u64>::empty());
        r
    }

    /// A copy.
    pub fn copy(&self) -> (r: KindAccess)
        ensures
            r@ == self@,
    {
        KindAccess {
            reads_all: self.reads_all,
            writes_all: self.writes_all,
            reads: copy_ids(&self.reads),
            writes: copy_ids(&self.writes),
        }
    }

    /// Adds a read of `x`.
    pub fn add_read(&mut self, x: u64)
        ensures
            final(self)@ == (KindAccessView { reads: old(self)@.reads.insert(x), ..old(self)@ }),
    {
        push_unique(&mut self.reads, x);
    }

    /// Adds a write of `x`.
    pub fn add_write(&mut self, x: u64)
        ensures
            final(self)@ == (KindAccessView { writes: old(self)@.writes.insert(x), ..old(self)@ }),
    {
        push_unique(&mut self.writes, x);
    }

    /// Reads everything of this kind.
    pub fn read_all(&mut self)
        ensures
            final(self)@ == (KindAccessView { reads_all: true, ..old(self)@ }),
    {
        self.reads_all = true;
    }

    /// Writes (and so reads) everything of this kind.
    pub fn write_all(&mut self)
        ensures
            final(self)@ == (KindAccessView { reads_all: true, writes_all: true, ..old(self)@ }),
    {
        self.reads_all = true;
        self.writes_all = true;
    }

    /// Adds everything that `other` reads and writes.
    pub fn extend(&mut self, other: &KindAccess)
        ensures
            final(self)@ == (KindAccessView {
                reads_all: old(self)@.reads_all || other@.reads_all,
                writes_all: old(self)@.writes_all || other@.writes_all,
                reads: old(self)@.reads.union(other@.reads),
                writes: old(self)@.writes.union(other@.writes),
            }),
    {
        self.reads_all = self.reads_all || other.reads_all;
        self.writes_all = self.writes_all || other.writes_all;
        extend_ids(&mut self.reads, &other.reads);
        extend_ids(&mut self.writes, &other.writes);
    }

    /// Whether the access reads `x`.
    pub fn reads(&self, x: u64) -> (r: bool)
        ensures
            r == reads_id(self@, x),
    {
        self.reads_all || self.writes_all || contains_id(&self.reads, x) || contains_id(&self.writes, x)
    }

    /// Whether the access writes `x`.
    pub fn writes(&self, x: u64) -> (r: bool)
        ensures
            r == writes_id(self@, x),
    {
        self.writes_all || contains_id(&self.writes, x)
    }

    /// Whether the access reads anything.
    pub fn has_any_read(&self) -> (r: bool)
        ensures
            r == reads_anything(self@),
    {
        if self.reads_all || self.writes_all {
            assert(reads_id(self@, 0));
            true
        } else if self.reads.len() > 0 {
            assert(self.reads@.contains(self.reads@[0]));
            assert(reads_id(self@, self.reads@[0]));
            true
        } else if self.writes.len() > 0 {
            assert(self.writes@.contains(self.writes@[0]));
            assert(reads_id(self@, self.writes@[0]));
            true
        } else {
            assert(!reads_anything(self@)) by {
                assert forall|x: u64| !#[trigger] reads_id(self@, x) by {
                    assert(!self.reads@.contains(x));
                    assert(!self.writes@.contains(x));
                }
            }
            false
        }
    }

    /// Whether the access writes anything.
    pub fn has_any_write(&self) -> (r: bool)
        ensures
            r == writes_anything(self@),
    {
        if self.writes_all {
            assert(writes_id(self@, 0));
            true
        } else if self.writes.len() > 0 {
            assert(self.writes@.contains(self.writes@[0]));
            assert(writes_id(self@, self.writes@[0]));
            true
        } else {
            assert(!writes_anything(self@)) by {
                assert forall|x: u64| !#[trigger] writes_id(self@, x) by {
                    assert(!self.writes@.contains(x));
                }
            }
            false
        }
    }

    /// Whether something written by `self` is read by `other`.
    pub fn writes_meet_reads(&self, other: &KindAccess) -> (r: bool)
        ensures
            r == exists|x: u64| #[trigger] writes_id(self@, x) && reads_id(other@, x),
    {
        if self.writes_all {
            let b = other.has_any_read();
            if b {
                let ghost x = choose|x: u64| #[trigger] reads_id(other@, x);
                assert(writes_id(self@, x) && reads_id(other@, x));
            }
            b
        } else if other.reads_all || other.writes_all {
            let b = self.writes.len() > 0;
            if b {
                let x = self.writes[0];
                assert(self.writes@.contains(x));
                assert(writes_id(self@, x) && reads_id(other@, x));
            } else {
                assert forall|x: u64| !(#[trigger] writes_id(self@, x) && reads_id(other@, x)) by {
                    assert(!self.writes@.contains(x));
                }
            }
            b
        } else {
            let d1 = ids_disjoint(&self.writes, &other.reads);
            let d2 = ids_disjoint(&self.writes, &other.writes);
            if !d1 {
                let ghost z = choose|z: u64| #[trigger] self.writes@.contains(z) && other.reads@.contains(z);
                assert(writes_id(self@, z) && reads_id(other@, z));
            }
            if !d2 {
                let ghost z = choose|z: u64| #[trigger] self.writes@.contains(z) && other.writes@.contains(z);
                assert(writes_id(self@, z) && reads_id(other@, z));
            }
            if d1 && d2 {
                assert forall|x: u64| !(#[trigger] writes_id(self@, x) && reads_id(other@, x)) by {
                    if self.writes@.contains(x) {
                        assert(!other.reads@.contains(x));
                        assert(!other.writes@.contains(x));
                    }
                }
            }
            !(d1 && d2)
        }
    }

    /// Whether the two accesses can run at the same time: nothing that one writes
    /// is read by the other.
    pub fn is_compatible(&self, other: &KindAccess) -> (r: bool)
        ensures
            r == !kind_conflict(self@, other@),
    {
        let a = self.writes_meet_reads(other);
        let b = other.writes_meet_reads(self);
        if a {
            let ghost x = choose|x: u64| #[trigger] writes_id(self@, x) && reads_id(other@, x);
            assert(writes_id(self@, x) && reads_id(other@, x));
        }
        if b {
            let ghost x = choose|x: u64| #[trigger] writes_id(other@, x) && reads_id(self@, x);
            assert(writes_id(other@, x) && reads_id(self@, x));
        }
        !a && !b
    }
}


/// One conjunction of query filters: the entity must have every component of
/// `with` and none of `without`.
pub struct AccessFilters {
    with: Vec<u64>,
    without: Vec<u64>,
}

/// Model of [`AccessFilters`].
pub struct FilterView {
    pub with: Set<u64>,
    pub without: Set<u64>,
}

impl View for AccessFilters {
    type V = FilterView;

    closed spec fn view(&self) -> FilterView {
        FilterView { with: id_set(self.with@), without: id_set(self.without@) }
    }
}

/// Whether an entity holding exactly the components `components` passes the filter.
pub open spec fn filter_matches(f: FilterView, components: Set<u64>) -> bool {
    f.with.subset_of(components) && f.without.disjoint(components)
}

/// Whether two filters exclude each other: one requires a component that the
/// other forbids.
pub open spec fn ruled_out(f: FilterView, g: FilterView) -> bool {
    (exists|x: u64| #[trigger] f.with.contains(x) && g.without.contains(x))
        || (exists|x: u64| #[trigger] f.without.contains(x) && g.with.contains(x))
}

/// The conjunction of two filters.
pub open spec fn filter_union(f: FilterView, g: FilterView) -> FilterView {
    FilterView { with: f.with.union(g.with), without: f.without.union(g.without) }
}

impl AccessFilters {
    /// The filter that every entity passes.
    pub fn new() -> (r: AccessFilters)
        ensures
            r@.with == Set::<u64>::empty(),
            r@.without == Set::<u64>::empty(),
    {
        let r = AccessFilters { with: Vec::new(), without: Vec::new() };
        assert(r@.with =~= Set::<u64>::empty());
        assert(r@.without =~= Set::<u64>::empty());
        r
    }

    /// A copy.
    pub fn copy(&self) -> (r: AccessFilters)
        ensures
            r@ == self@,
    {
        AccessFilters { with: copy_ids(&self.with), without: copy_ids(&self.without) }
    }

    /// The filter that also requires component `x`.
    pub fn and_with(&self, x: u64) -> (r: AccessFilters)
        ensures
            r@ == (FilterView { with: self@.with.insert(x), ..self@ }),
    {
        let mut r = self.copy();
        push_unique(&mut r.with, x);
        r
    }

    /// The filter that also forbids component `x`.
    pub fn and_without(&self, x: u64) -> (r: AccessFilters)
        ensures
            r@ == (FilterView { without: self@.without.insert(x), ..self@ }),
    {
        let mut r = self.copy();
        push_unique(&mut r.without, x);
        r
    }

    /// The conjunction of both filters.
    pub fn union(&self, other: &AccessFilters) -> (r: AccessFilters)
        ensures
            r@ == filter_union(self@, other@),
    {
        let mut r = self.copy();
        extend_ids(&mut r.with, &other.with);
        extend_ids(&mut r.without, &other.without);
        r
    }

    /// Whether no entity can pass both filters on account of a component that one
    /// requires and the other forbids.
    pub fn is_ruled_out_by(&self, other: &AccessFilters) -> (r: bool)
        ensures
            r == ruled_out(self@, other@),
    {
        let d1 = ids_disjoint(&self.with, &other.without);
        let d2 = ids_disjoint(&self.without, &other.with);
        if !d1 {
            let ghost x = choose|x: u64| #[trigger] self.with@.contains(x) && other.without@.contains(x);
            assert(self@.with.contains(x) && other@.without.contains(x));
        }
        if !d2 {
            let ghost x = choose|x: u64| #[trigger] self.without@.contains(x) && other.with@.contains(x);
            assert(self@.without.contains(x) && other@.with.contains(x));
        }
        if d1 && d2 {
            assert forall|x: u64| !(#[trigger] self@.with.contains(x) && other@.without.contains(x)) by {
                assert(!(self.with@.contains(x) && other.without@.contains(x)));
            }
            assert forall|x: u64| !(#[trigger] self@.without.contains(x) && other@.with.contains(x)) by {
                assert(!(self.without@.contains(x) && other.with@.contains(x)));
            }
        }
        !(d1 && d2)
    }
}

/// The filter sets of a disjunction, as models.
pub open spec fn filter_views(v: Seq<AccessFilters>) -> Seq<FilterView> {
    v.map_values(|f: AccessFilters| f@)
}

/// The disjunction of the pairwise conjunctions of two disjunctions, in the order
/// "for each filter of `a`, for each filter of `b`".
pub open spec fn cross_filters(a: Seq<FilterView>, b: Seq<FilterView>) -> Seq<FilterView>
    decreases a.len(),
{
    if a.len() == 0 {
        Seq::empty()
    } else {
        cross_filters(a.drop_last(), b) + b.map_values(|g: FilterView| filter_union(a.last(), g))
    }
}

/// Whether an entity holding exactly `components` passes one of the filter sets.
pub open spec fn query_matches(filter_sets: Seq<FilterView>, components: Set<u64>) -> bool {
    exists|i: int| 0 <= i < filter_sets.len() && filter_matches(#[trigger] filter_sets[i], components)
}

/// Whether every filter set of `a` is ruled out by every filter set of `b`.
pub open spec fn filters_exclusive(a: Seq<FilterView>, b: Seq<FilterView>) -> bool {
    forall|i: int, j: int|
        0 <= i < a.len() && 0 <= j < b.len() ==> ruled_out(#[trigger] a[i], #[trigger] b[j])
}

/// The access of a system parameter to components and resources, with the
/// filters (a disjunction of conjunctions) that restrict which entities its
/// component access applies to.
pub struct FilteredAccess {
    components: KindAccess,
    resources: KindAccess,
    filter_sets: Vec<AccessFilters>,
}

/// Model of [`FilteredAccess`].
pub struct FilteredAccessView {
    pub components: KindAccessView,
    pub resources: KindAccessView,
    pub filter_sets: Seq<FilterView>,
}

impl View for FilteredAccess {
    type V = FilteredAccessView;

    closed spec fn view(&self) -> FilteredAccessView {
        FilteredAccessView {
            components: self.components@,
            resources: self.resources@,
            filter_sets: filter_views(self.filter_sets@),
        }
    }
}

/// Whether two parameters may be held at the same time: they do not conflict
/// on a resource, and they do not conflict on a component or their filters
/// exclude each other. (Resources are not reached through entities, so filters
/// cannot keep two resource accesses apart.)
pub open spec fn compatible(a: FilteredAccessView, b: FilteredAccessView) -> bool {
    !kind_conflict(a.resources, b.resources) && (!kind_conflict(a.components, b.components)
        || filters_exclusive(a.filter_sets, b.filter_sets))
}

/// The model with no access at all.
pub open spec fn empty_kind() -> KindAccessView {
    KindAccessView {
        reads_all: false,
        writes_all: false,
        reads: Set::empty(),
        writes: Set::empty(),
    }
}

/// The model of a kind access with everything that `a` or `b` has.
pub open spec fn kind_union(a: KindAccessView, b: KindAccessView) -> KindAccessView {
    KindAccessView {
        reads_all: a.reads_all || b.reads_all,
        writes_all: a.writes_all || b.writes_all,
        reads: a.reads.union(b.reads),
        writes: a.writes.union(b.writes),
    }
}

/// Every filter of the disjunction with one more required component.
pub open spec fn and_with_all(fs: Seq<FilterView>, x: u64) -> Seq<FilterView> {
    fs.map_values(|f: FilterView| FilterView { with: f.with.insert(x), ..f })
}

/// Every filter of the disjunction with one more forbidden component.
pub open spec fn and_without_all(fs: Seq<FilterView>, x: u64) -> Seq<FilterView> {
    fs.map_values(|f: FilterView| FilterView { without: f.without.insert(x), ..f })
}

impl FilteredAccess {
    /// The model of an access to nothing whose filter every entity passes.
    pub open spec fn spec_matches_everything() -> FilteredAccessView {
        FilteredAccessView {
            components: empty_kind(),
            resources: empty_kind(),
            filter_sets: seq![FilterView { with: Set::<u64>::empty(), without: Set::<u64>::empty() }],
        }
    }

    /// No access, and a filter that every entity passes.
    pub fn matches_everything() -> (r: FilteredAccess)
        ensures
            r@ == FilteredAccess::spec_matches_everything(),
    {
        let mut fs: Vec<AccessFilters> = Vec::new();
        fs.push(AccessFilters::new());
        let r = FilteredAccess { components: KindAccess::new(), resources: KindAccess::new(), filter_sets: fs };
        assert(r@.filter_sets =~= seq![FilterView { with: Set::<u64>::empty(), without: Set::<u64>::empty() }]);
        r
    }

    /// No access, and an empty disjunction of filters, which no entity passes.
    pub fn matches_nothing() -> (r: FilteredAccess)
        ensures
            r@.components == empty_kind(),
            r@.resources == empty_kind(),
            r@.filter_sets == Seq::<FilterView>::empty(),
    {
        let r = FilteredAccess {
            components: KindAccess::new(),
            resources: KindAccess::new(),
            filter_sets: Vec::new(),
        };
        assert(r@.filter_sets =~= Seq::<FilterView>::empty());
        r
    }

    /// A copy.
    pub fn copy(&self) -> (r: FilteredAccess)
        ensures
            r@ == self@,
    {
        let fs = copy_filters(&self.filter_sets);
        FilteredAccess { components: self.components.copy(), resources: self.resources.copy(), filter_sets: fs }
    }

    /// Requires component `x` in every filter set.
    pub fn and_with(&mut self, x: u64)
        ensures
            final(self)@ == (FilteredAccessView { filter_sets: and_with_all(old(self)@.filter_sets, x), ..old(self)@ }),
    {
        let mut fs: Vec<AccessFilters> = Vec::new();
        let mut i: usize = 0;
        while i < self.filter_sets.len()
            invariant
                i <= self.filter_sets.len(),
                self@ == old(self)@,
                filter_views(fs@) == and_with_all(filter_views(self.filter_sets@.take(i as int)), x),
            decreases self.filter_sets.len() - i,
        {
            let f = self.filter_sets[i].and_with(x);
            proof {
                lemma_take_step(self.filter_sets@, i as int);
                lemma_map_values_push(fs@, f, |f: AccessFilters| f@);
                lemma_map_values_push(self.filter_sets@.take(i as int), self.filter_sets@[i as int], |f: AccessFilters| f@);
                lemma_map_values_push(filter_views(self.filter_sets@.take(i as int)), self.filter_sets@[i as int]@, |f: FilterView| FilterView { with: f.with.insert(x), ..f });
            }
            fs.push(f);
            i = i + 1;
        }
        assert(self.filter_sets@.take(self.filter_sets.len() as int) =~= self.filter_sets@);
        self.filter_sets = fs;
    }

    /// Forbids component `x` in every filter set.
    pub fn and_without(&mut self, x: u64)
        ensures
            final(self)@ == (FilteredAccessView { filter_sets: and_without_all(old(self)@.filter_sets, x), ..old(self)@ }),
    {
        let mut fs: Vec<AccessFilters> = Vec::new();
        let mut i: usize = 0;
        while i < self.filter_sets.len()
            invariant
                i <= self.filter_sets.len(),
                self@ == old(self)@,
                filter_views(fs@) == and_without_all(filter_views(self.filter_sets@.take(i as int)), x),
            decreases self.filter_sets.len() - i,
        {
            let f = self.filter_sets[i].and_without(x);
            proof {
                lemma_take_step(self.filter_sets@, i as int);
                lemma_map_values_push(fs@, f, |f: AccessFilters| f@);
                lemma_map_values_push(self.filter_sets@.take(i as int), self.filter_sets@[i as int], |f: AccessFilters| f@);
                lemma_map_values_push(filter_views(self.filter_sets@.take(i as int)), self.filter_sets@[i as int]@, |f: FilterView| FilterView { without: f.without.insert(x), ..f });
            }
            fs.push(f);
            i = i + 1;
        }
        assert(self.filter_sets@.take(self.filter_sets.len() as int) =~= self.filter_sets@);
        self.filter_sets = fs;
    }

    /// Reads component `x`, and only on entities that have it.
    pub fn add_component_read(&mut self, x: u64)
        ensures
            final(self)@ == (FilteredAccessView {
                components: KindAccessView { reads: old(self)@.components.reads.insert(x), ..old(self)@.components },
                filter_sets: and_with_all(old(self)@.filter_sets, x),
                ..old(self)@
            }),
    {
        self.components.add_read(x);
        self.and_with(x);
    }

    /// Writes component `x`, and only on entities that have it.
    pub fn add_component_write(&mut self, x: u64)
        ensures
            final(self)@ == (FilteredAccessView {
                components: KindAccessView { writes: old(self)@.components.writes.insert(x), ..old(self)@.components },
                filter_sets: and_with_all(old(self)@.filter_sets, x),
                ..old(self)@
            }),
    {
        self.components.add_write(x);
        self.and_with(x);
    }

    /// Reads component `x`, on every entity the filters let through.
    pub fn add_unfiltered_component_read(&mut self, x: u64)
        ensures
            final(self)@ == (FilteredAccessView {
                components: KindAccessView { reads: old(self)@.components.reads.insert(x), ..old(self)@.components },
                ..old(self)@
            }),
    {
        self.components.add_read(x);
    }

    /// Writes component `x`, on every entity the filters let through.
    pub fn add_unfiltered_component_write(&mut self, x: u64)
        ensures
            final(self)@ == (FilteredAccessView {
                components: KindAccessView { writes: old(self)@.components.writes.insert(x), ..old(self)@.components },
                ..old(self)@
            }),
    {
        self.components.add_write(x);
    }

    /// Replaces the filter sets with those of `other`.
    pub fn replace_filters(&mut self, other: &FilteredAccess)
        ensures
            final(self)@ == (FilteredAccessView { filter_sets: other@.filter_sets, ..old(self)@ }),
    {
        self.filter_sets = copy_filters(&other.filter_sets);
    }

    /// Whether component `x` is read (or written).
    pub fn reads_component(&self, x: u64) -> (r: bool)
        ensures
            r == reads_id(self@.components, x),
    {
        self.components.reads(x)
    }

    /// Whether component `x` is written.
    pub fn writes_component(&self, x: u64) -> (r: bool)
        ensures
            r == writes_id(self@.components, x),
    {
        self.components.writes(x)
    }

    /// Whether some component is read (or written).
    pub fn reads_any_component(&self) -> (r: bool)
        ensures
            r == reads_anything(self@.components),
    {
        self.components.has_any_read()
    }

    /// Whether some component is written.
    pub fn writes_any_component(&self) -> (r: bool)
        ensures
            r == writes_anything(self@.components),
    {
        self.components.has_any_write()
    }

    /// Reads resource `x`.
    pub fn add_resource_read(&mut self, x: u64)
        ensures
            final(self)@ == (FilteredAccessView {
                resources: KindAccessView { reads: old(self)@.resources.reads.insert(x), ..old(self)@.resources },
                ..old(self)@
            }),
    {
        self.resources.add_read(x);
    }

    /// Writes resource `x`.
    pub fn add_resource_write(&mut self, x: u64)
        ensures
            final(self)@ == (FilteredAccessView {
                resources: KindAccessView { writes: old(self)@.resources.writes.insert(x), ..old(self)@.resources },
                ..old(self)@
            }),
    {
        self.resources.add_write(x);
    }

    /// Reads every component.
    pub fn read_all_components(&mut self)
        ensures
            final(self)@ == (FilteredAccessView {
                components: KindAccessView { reads_all: true, ..old(self)@.components },
                ..old(self)@
            }),
    {
        self.components.read_all();
    }

    /// Writes every component.
    pub fn write_all_components(&mut self)
        ensures
            final(self)@ == (FilteredAccessView {
                components: KindAccessView { reads_all: true, writes_all: true, ..old(self)@.components },
                ..old(self)@
            }),
    {
        self.components.write_all();
    }

    /// Reads every component and every resource.
    pub fn read_all(&mut self)
        ensures
            final(self)@ == (FilteredAccessView {
                components: KindAccessView { reads_all: true, ..old(self)@.components },
                resources: KindAccessView { reads_all: true, ..old(self)@.resources },
                ..old(self)@
            }),
    {
        self.components.read_all();
        self.resources.read_all();
    }

    /// Writes every component and every resource.
    pub fn write_all(&mut self)
        ensures
            final(self)@ == (FilteredAccessView {
                components: KindAccessView { reads_all: true, writes_all: true, ..old(self)@.components },
                resources: KindAccessView { reads_all: true, writes_all: true, ..old(self)@.resources },
                ..old(self)@
            }),
    {
        self.components.write_all();
        self.resources.write_all();
    }

    /// Adds the accesses of `other`, keeping this one's filters.
    pub fn extend_access(&mut self, other: &FilteredAccess)
        ensures
            final(self)@ == (FilteredAccessView {
                components: kind_union(old(self)@.components, other@.components),
                resources: kind_union(old(self)@.resources, other@.resources),
                ..old(self)@
            }),
    {
        self.components.extend(&other.components);
        self.resources.extend(&other.resources);
    }

    /// Adds the filter sets of `other` as further alternatives (a disjunction).
    pub fn append_or(&mut self, other: &FilteredAccess)
        ensures
            final(self)@ == (FilteredAccessView {
                filter_sets: old(self)@.filter_sets + other@.filter_sets,
                ..old(self)@
            }),
    {
        let mut i: usize = 0;
        while i < other.filter_sets.len()
            invariant
                i <= other.filter_sets.len(),
                self.components@ == old(self)@.components,
                self.resources@ == old(self)@.resources,
                filter_views(self.filter_sets@) == old(self)@.filter_sets + filter_views(other.filter_sets@.take(i as int)),
            decreases other.filter_sets.len() - i,
        {
            let f = other.filter_sets[i].copy();
            proof {
                lemma_take_step(other.filter_sets@, i as int);
                lemma_map_values_push(self.filter_sets@, f, |f: AccessFilters| f@);
                lemma_map_values_push(other.filter_sets@.take(i as int), other.filter_sets@[i as int], |f: AccessFilters| f@);
                assert(old(self)@.filter_sets + filter_views(other.filter_sets@.take(i as int)).push(f@)
                    =~= (old(self)@.filter_sets + filter_views(other.filter_sets@.take(i as int))).push(f@));
            }
            self.filter_sets.push(f);
            i = i + 1;
        }
        assert(other.filter_sets@.take(other.filter_sets.len() as int) =~= other.filter_sets@);
        assert(self@ =~= (FilteredAccessView { filter_sets: old(self)@.filter_sets + other@.filter_sets, ..old(self)@ }));
    }

    /// Adds the accesses of `other` and requires its filters too (a conjunction:
    /// every filter set of this one with every filter set of `other`).
    pub fn extend(&mut self, other: &FilteredAccess)
        ensures
            final(self)@ == (FilteredAccessView {
                components: kind_union(old(self)@.components, other@.components),
                resources: kind_union(old(self)@.resources, other@.resources),
                filter_sets: cross_filters(old(self)@.filter_sets, other@.filter_sets),
            }),
    {
        self.extend_access(other);
        let fs = cross(&self.filter_sets, &other.filter_sets);
        self.filter_sets = fs;
    }

    /// Whether this parameter and `other` may be held at the same time.
    pub fn is_compatible(&self, other: &FilteredAccess) -> (r: bool)
        ensures
            r == compatible(self@, other@),
    {
        let s = self.resources.is_compatible(&other.resources);
        if !s {
            return false;
        }
        let c = self.components.is_compatible(&other.components);
        if c {
            return true;
        }
        let a = &self.filter_sets;
        let b = &other.filter_sets;
        let ghost av = filter_views(a@);
        let ghost bv = filter_views(b@);
        let mut i: usize = 0;
        while i < a.len()
            invariant
                i <= a.len(),
                av == filter_views(a@),
                bv == filter_views(b@),
                a == &self.filter_sets,
                b == &other.filter_sets,
                !kind_conflict(self@.resources, other@.resources),
                kind_conflict(self@.components, other@.components),
                forall|p: int, q: int| 0 <= p < i && 0 <= q < b.len() ==> ruled_out(#[trigger] av[p], #[trigger] bv[q]),
            decreases a.len() - i,
        {
            let mut j: usize = 0;
            while j < b.len()
                invariant
                    i < a.len(),
                    j <= b.len(),
                    av == filter_views(a@),
                    bv == filter_views(b@),
                    a == &self.filter_sets,
                    b == &other.filter_sets,
                    !kind_conflict(self@.resources, other@.resources),
                kind_conflict(self@.components, other@.components),
                    forall|p: int, q: int| 0 <= p < i && 0 <= q < b.len() ==> ruled_out(#[trigger] av[p], #[trigger] bv[q]),
                    forall|q: int| 0 <= q < j ==> ruled_out(av[i as int], #[trigger] bv[q]),
                decreases b.len() - j,
            {
                if !a[i].is_ruled_out_by(&b[j]) {
                    assert(av[i as int] == a@[i as int]@);
                    assert(bv[j as int] == b@[j as int]@);
                    assert(!ruled_out(av[i as int], bv[j as int]));
                    assert(!filters_exclusive(self@.filter_sets, other@.filter_sets));
                    return false;
                }
                assert(av[i as int] == a@[i as int]@);
                assert(bv[j as int] == b@[j as int]@);
                j = j + 1;
            }
            i = i + 1;
        }
        true
    }
}


/// Whether two parameters may be held together does not depend on their order.
pub proof fn law_compatible_symmetric(a: FilteredAccessView, b: FilteredAccessView)
    ensures
        compatible(a, b) == compatible(b, a),
{
    assert(kind_conflict(a.components, b.components) == kind_conflict(b.components, a.components));
    assert(kind_conflict(a.resources, b.resources) == kind_conflict(b.resources, a.resources));
    if filters_exclusive(a.filter_sets, b.filter_sets) {
        assert forall|i: int, j: int|
            0 <= i < b.filter_sets.len() && 0 <= j < a.filter_sets.len() implies ruled_out(
            #[trigger] b.filter_sets[i],
            #[trigger] a.filter_sets[j],
        ) by {
            let f = a.filter_sets[j];
            let g = b.filter_sets[i];
            assert(ruled_out(f, g));
            if exists|x: u64| #[trigger] f.with.contains(x) && g.without.contains(x) {
                let x = choose|x: u64| #[trigger] f.with.contains(x) && g.without.contains(x);
                assert(g.without.contains(x) && f.with.contains(x));
            } else {
                let x = choose|x: u64| #[trigger] f.without.contains(x) && g.with.contains(x);
                assert(g.with.contains(x) && f.without.contains(x));
            }
        }
    }
    if filters_exclusive(b.filter_sets, a.filter_sets) {
        assert forall|i: int, j: int|
            0 <= i < a.filter_sets.len() && 0 <= j < b.filter_sets.len() implies ruled_out(
            #[trigger] a.filter_sets[i],
            #[trigger] b.filter_sets[j],
        ) by {
            let f = b.filter_sets[j];
            let g = a.filter_sets[i];
            assert(ruled_out(f, g));
            if exists|x: u64| #[trigger] f.with.contains(x) && g.without.contains(x) {
                let x = choose|x: u64| #[trigger] f.with.contains(x) && g.without.contains(x);
                assert(g.without.contains(x) && f.with.contains(x));
            } else {
                let x = choose|x: u64| #[trigger] f.without.contains(x) && g.with.contains(x);
                assert(g.with.contains(x) && f.without.contains(x));
            }
        }
    }
}

/// Filters that exclude each other are never passed by the same entity: two
/// parameters kept apart by their filters never reach the same entity's
/// components.
pub proof fn law_exclusive_filters_disjoint(a: Seq<FilterView>, b: Seq<FilterView>, components: Set<u64>)
    requires
        filters_exclusive(a, b),
    ensures
        !(query_matches(a, components) && query_matches(b, components)),
{
    if query_matches(a, components) && query_matches(b, components) {
        let i = choose|i: int| 0 <= i < a.len() && filter_matches(#[trigger] a[i], components);
        let j = choose|j: int| 0 <= j < b.len() && filter_matches(#[trigger] b[j], components);
        assert(ruled_out(a[i], b[j]));
        if exists|x: u64| #[trigger] a[i].with.contains(x) && b[j].without.contains(x) {
            let x = choose|x: u64| #[trigger] a[i].with.contains(x) && b[j].without.contains(x);
            assert(components.contains(x));
        } else {
            let x = choose|x: u64| #[trigger] a[i].without.contains(x) && b[j].with.contains(x);
            assert(components.contains(x));
        }
    }
}

/// The filter of an access to nothing is passed by every entity.
pub proof fn law_everything_matches(components: Set<u64>)
    ensures
        query_matches(FilteredAccess::spec_matches_everything().filter_sets, components),
{
    let fs = FilteredAccess::spec_matches_everything().filter_sets;
    assert(filter_matches(fs[0], components));
}

/// Requiring a component keeps exactly the entities that hold it.
pub proof fn law_and_with_matches(fs: Seq<FilterView>, x: u64, components: Set<u64>)
    ensures
        query_matches(and_with_all(fs, x), components) == (query_matches(fs, components)
            && components.contains(x)),
{
    let g = and_with_all(fs, x);
    if query_matches(g, components) {
        let i = choose|i: int| 0 <= i < g.len() && filter_matches(#[trigger] g[i], components);
        assert(filter_matches(fs[i], components));
        assert(g[i].with.contains(x));
    }
    if query_matches(fs, components) && components.contains(x) {
        let i = choose|i: int| 0 <= i < fs.len() && filter_matches(#[trigger] fs[i], components);
        assert(filter_matches(g[i], components));
    }
}

/// Forbidding a component keeps exactly the entities that lack it.
pub proof fn law_and_without_matches(fs: Seq<FilterView>, x: u64, components: Set<u64>)
    ensures
        query_matches(and_without_all(fs, x), components) == (query_matches(fs, components)
            && !components.contains(x)),
{
    let g = and_without_all(fs, x);
    if query_matches(g, components) {
        let i = choose|i: int| 0 <= i < g.len() && filter_matches(#[trigger] g[i], components);
        assert(filter_matches(fs[i], components));
        assert(g[i].without.contains(x));
    }
    if query_matches(fs, components) && !components.contains(x) {
        let i = choose|i: int| 0 <= i < fs.len() && filter_matches(#[trigger] fs[i], components);
        assert(filter_matches(g[i], components));
    }
}

/// Appending alternatives is a disjunction: an entity passes when it passes
/// either side.
pub proof fn law_append_or_matches(a: Seq<FilterView>, b: Seq<FilterView>, components: Set<u64>)
    ensures
        query_matches(a + b, components) == (query_matches(a, components) || query_matches(b, components)),
{
    let c = a + b;
    if query_matches(c, components) {
        let i = choose|i: int| 0 <= i < c.len() && filter_matches(#[trigger] c[i], components);
        if i < a.len() {
            assert(c[i] == a[i]);
        } else {
            assert(c[i] == b[i - a.len()]);
        }
    }
    if query_matches(a, components) {
        let i = choose|i: int| 0 <= i < a.len() && filter_matches(#[trigger] a[i], components);
        assert(c[i] == a[i]);
    }
    if query_matches(b, components) {
        let j = choose|j: int| 0 <= j < b.len() && filter_matches(#[trigger] b[j], components);
        assert(c[a.len() + j] == b[j]);
    }
}

/// Joining two disjunctions pairwise is a conjunction: an entity passes when it
/// passes both.
pub proof fn law_cross_matches(a: Seq<FilterView>, b: Seq<FilterView>, components: Set<u64>)
    ensures
        query_matches(cross_filters(a, b), components) == (query_matches(a, components)
            && query_matches(b, components)),
    decreases a.len(),
{
    if a.len() > 0 {
        let a0 = a.drop_last();
        let f = a.last();
        let m = b.map_values(|g: FilterView| filter_union(f, g));
        law_cross_matches(a0, b, components);
        law_append_or_matches(cross_filters(a0, b), m, components);
        assert(query_matches(m, components) == (filter_matches(f, components) && query_matches(b, components))) by {
            if query_matches(m, components) {
                let j = choose|j: int| 0 <= j < m.len() && filter_matches(#[trigger] m[j], components);
                assert(filter_matches(b[j], components));
            }
            if filter_matches(f, components) && query_matches(b, components) {
                let j = choose|j: int| 0 <= j < b.len() && filter_matches(#[trigger] b[j], components);
                assert(filter_matches(m[j], components));
            }
        }
        assert(query_matches(a, components) == (query_matches(a0, components) || filter_matches(f, components))) by {
            if query_matches(a, components) {
                let i = choose|i: int| 0 <= i < a.len() && filter_matches(#[trigger] a[i], components);
                if i < a.len() - 1 {
                    assert(a0[i] == a[i]);
                }
            }
            if query_matches(a0, components) {
                let i = choose|i: int| 0 <= i < a0.len() && filter_matches(#[trigger] a0[i], components);
                assert(a[i] == a0[i]);
            }
            if filter_matches(f, components) {
                assert(filter_matches(a[a.len() - 1], components));
            }
        }
    }
}

/// Mapping over a sequence with one more element at its end.
proof fn lemma_map_values_push<A, B>(s: Seq<A>, a: A, f: spec_fn(A) -> B)
    ensures
        s.push(a).map_values(f) == s.map_values(f).push(f(a)),
{
    assert(s.push(a).map_values(f) =~= s.map_values(f).push(f(a)));
}

/// Taking one more element of a sequence appends that element.
proof fn lemma_take_step<A>(s: Seq<A>, i: int)
    requires
        0 <= i < s.len(),
    ensures
        s.take(i + 1) == s.take(i).push(s[i]),
{
    assert(s.take(i + 1) =~= s.take(i).push(s[i]));
}

/// A copy of a disjunction of filters.
fn copy_filters(v: &Vec<AccessFilters>) -> (r: Vec<AccessFilters>)
    ensures
        filter_views(r@) == filter_views(v@),
{
    let mut r: Vec<AccessFilters> = Vec::new();
    let mut i: usize = 0;
    while i < v.len()
        invariant
            i <= v.len(),
            filter_views(r@) == filter_views(v@.take(i as int)),
        decreases v.len() - i,
    {
        let f = v[i].copy();
        proof {
            lemma_take_step(v@, i as int);
            lemma_map_values_push(r@, f, |f: AccessFilters| f@);
            lemma_map_values_push(v@.take(i as int), v@[i as int], |f: AccessFilters| f@);
        }
        r.push(f);
        i = i + 1;
    }
    assert(v@.take(v.len() as int) =~= v@);
    r
}

/// Every filter of `a` joined with every filter of `b`.
fn cross(a: &Vec<AccessFilters>, b: &Vec<AccessFilters>) -> (r: Vec<AccessFilters>)
    ensures
        filter_views(r@) == cross_filters(filter_views(a@), filter_views(b@)),
{
    let ghost av = filter_views(a@);
    let ghost bv = filter_views(b@);
    let mut r: Vec<AccessFilters> = Vec::new();
    let mut i: usize = 0;
    while i < a.len()
        invariant
            i <= a.len(),
            av == filter_views(a@),
            bv == filter_views(b@),
            filter_views(r@) == cross_filters(av.take(i as int), bv),
        decreases a.len() - i,
    {
        let ghost before = filter_views(r@);
        let mut j: usize = 0;
        while j < b.len()
            invariant
                i < a.len(),
                j <= b.len(),
                av == filter_views(a@),
                bv == filter_views(b@),
                before == cross_filters(av.take(i as int), bv),
                filter_views(r@) == before + bv.take(j as int).map_values(
                    |g: FilterView| filter_union(av[i as int], g),
                ),
            decreases b.len() - j,
        {
            let f = a[i].union(&b[j]);
            proof {
                lemma_map_values_push(r@, f, |f: AccessFilters| f@);
                lemma_take_step(bv, j as int);
                lemma_map_values_push(bv.take(j as int), bv[j as int], |g: FilterView| filter_union(av[i as int], g));
                assert(bv[j as int] == b@[j as int]@);
                assert(av[i as int] == a@[i as int]@);
                assert(before + bv.take(j as int).map_values(|g: FilterView| filter_union(av[i as int], g)).push(f@)
                    =~= (before + bv.take(j as int).map_values(|g: FilterView| filter_union(av[i as int], g))).push(f@));
            }
            r.push(f);
            j = j + 1;
        }
        assert(bv.take(b.len() as int) =~= bv);
        assert(av.take(i + 1).drop_last() =~= av.take(i as int));
        assert(av.take(i + 1).last() == av[i as int]);
        i = i + 1;
        assert(filter_views(r@) =~= cross_filters(av.take(i as int), bv));
    }
    assert(av.take(a.len() as int) =~= av);
    r
}

} // verus!
