//! Queries, built term by term. Each data term of a query is checked against
//! the terms before it: reading a component that an earlier term writes, or
//! writing one that an earlier term reads or writes, makes the query conflict
//! with itself. Filter terms only narrow which entities the query matches.

use vstd::prelude::*;
use crate::access::{
    FilteredAccess, FilteredAccessView, FilterView, KindAccessView, reads_id, writes_id,
    reads_anything, writes_anything, and_with_all, kind_union, cross_filters,
};
use crate::system::SystemParam;

verus! {

/// A member of an `AnyOf` term: a shared or exclusive reference to a
/// component, or a member that accesses nothing (such as `()` or `Entity`).
#[derive(PartialEq, Eq, Structural, Clone, Copy, Debug)]
pub enum AnyOfMember {
    Read(u64),
    Write(u64),
    Nothing,
}

/// A query under construction: its access so far, and whether a term
/// conflicted with an earlier one.
pub struct QueryBuilder {
    access: FilteredAccess,
    self_conflicting: bool,
}

/// Model of a [`QueryBuilder`].
pub struct QueryBuilderView {
    pub access: FilteredAccessView,
    pub self_conflicting: bool,
}

impl View for QueryBuilder {
    type V = QueryBuilderView;

    closed spec fn view(&self) -> QueryBuilderView {
        QueryBuilderView { access: self.access@, self_conflicting: self.self_conflicting }
    }
}

/// Whether a member conflicts with the component access before it.
pub open spec fn member_conflicts(c: KindAccessView, m: AnyOfMember) -> bool {
    match m {
        AnyOfMember::Read(x) => writes_id(c, x),
        AnyOfMember::Write(x) => reads_id(c, x),
        AnyOfMember::Nothing => false,
    }
}

/// The component access with a member's access added.
pub open spec fn add_member(c: KindAccessView, m: AnyOfMember) -> KindAccessView {
    match m {
        AnyOfMember::Read(x) => KindAccessView { reads: c.reads.insert(x), ..c },
        AnyOfMember::Write(x) => KindAccessView { writes: c.writes.insert(x), ..c },
        AnyOfMember::Nothing => c,
    }
}

/// The filter sets that a member lets through, starting from `fs`.
pub open spec fn member_filters(fs: Seq<FilterView>, m: AnyOfMember) -> Seq<FilterView> {
    match m {
        AnyOfMember::Read(x) => and_with_all(fs, x),
        AnyOfMember::Write(x) => and_with_all(fs, x),
        AnyOfMember::Nothing => fs,
    }
}

/// The component access after the members, in turn.
pub open spec fn any_of_components(c: KindAccessView, ms: Seq<AnyOfMember>) -> KindAccessView
    decreases ms.len(),
{
    if ms.len() == 0 {
        c
    } else {
        add_member(any_of_components(c, ms.drop_last()), ms.last())
    }
}

/// Whether some member conflicts with the access before it (the earlier
/// terms and the earlier members).
pub open spec fn any_of_conflicts(c: KindAccessView, ms: Seq<AnyOfMember>) -> bool
    decreases ms.len(),
{
    if ms.len() == 0 {
        false
    } else {
        any_of_conflicts(c, ms.drop_last()) || member_conflicts(any_of_components(c, ms.drop_last()), ms.last())
    }
}

/// The filter sets of an `AnyOf`: an entity passes when it passes the filters
/// so far and has at least one member's component (a member that accesses
/// nothing lets through whatever the filters so far let through).
pub open spec fn any_of_filters(fs: Seq<FilterView>, ms: Seq<AnyOfMember>) -> Seq<FilterView>
    decreases ms.len(),
{
    if ms.len() == 0 {
        Seq::empty()
    } else {
        any_of_filters(fs, ms.drop_last()) + member_filters(fs, ms.last())
    }
}

/// Adding members only adds access: what was read or written before still is.
proof fn lemma_any_of_components_grow(c: KindAccessView, ms: Seq<AnyOfMember>, x: u64)
    ensures
        reads_id(c, x) ==> reads_id(any_of_components(c, ms), x),
        writes_id(c, x) ==> writes_id(any_of_components(c, ms), x),
    decreases ms.len(),
{
    if ms.len() > 0 {
        lemma_any_of_components_grow(c, ms.drop_last(), x);
    }
}

/// An `AnyOf` member clashes with the terms before the `AnyOf`, not only with
/// the members before it: a member that reads a component an earlier term
/// writes, or writes one an earlier term reads or writes, makes the query
/// conflict with itself.
pub proof fn law_any_of_checks_earlier_terms(c: KindAccessView, ms: Seq<AnyOfMember>, k: int)
    requires
        0 <= k < ms.len(),
        match ms[k] {
            AnyOfMember::Read(x) => writes_id(c, x),
            AnyOfMember::Write(x) => reads_id(c, x),
            AnyOfMember::Nothing => false,
        },
    ensures
        any_of_conflicts(c, ms),
    decreases ms.len(),
{
    if k == ms.len() - 1 {
        match ms[k] {
            AnyOfMember::Read(x) => lemma_any_of_components_grow(c, ms.drop_last(), x),
            AnyOfMember::Write(x) => lemma_any_of_components_grow(c, ms.drop_last(), x),
            AnyOfMember::Nothing => {},
        }
    } else {
        assert(ms.drop_last()[k] == ms[k]);
        law_any_of_checks_earlier_terms(c, ms.drop_last(), k);
    }
}

/// Two members of one `AnyOf` clash like two terms: a member that writes a
/// component an earlier member reads or writes, or reads one an earlier member
/// writes, makes the query conflict with itself.
pub proof fn law_any_of_checks_earlier_members(c: KindAccessView, ms: Seq<AnyOfMember>, i: int, k: int)
    requires
        0 <= i < k < ms.len(),
        match (ms[i], ms[k]) {
            (AnyOfMember::Write(x), AnyOfMember::Read(y)) => x == y,
            (AnyOfMember::Write(x), AnyOfMember::Write(y)) => x == y,
            (AnyOfMember::Read(x), AnyOfMember::Write(y)) => x == y,
            _ => false,
        },
    ensures
        any_of_conflicts(c, ms),
    decreases ms.len(),
{
    if k == ms.len() - 1 {
        let d = ms.drop_last();
        let pre = d.take(i);
        let upto = d.take(i + 1);
        assert(upto.drop_last() =~= pre);
        assert(upto.last() == ms[i]);
        let rest = d.skip(i + 1);
        lemma_any_of_components_split(c, upto, rest);
        assert(upto + rest =~= d);
        match ms[i] {
            AnyOfMember::Read(x) => lemma_any_of_components_grow(any_of_components(c, upto), rest, x),
            AnyOfMember::Write(x) => lemma_any_of_components_grow(any_of_components(c, upto), rest, x),
            AnyOfMember::Nothing => {},
        }
    } else {
        assert(ms.drop_last()[k] == ms[k]);
        assert(ms.drop_last()[i] == ms[i]);
        law_any_of_checks_earlier_members(c, ms.drop_last(), i, k);
    }
}

/// The members of two lists, one after the other, act in turn.
proof fn lemma_any_of_components_split(c: KindAccessView, a: Seq<AnyOfMember>, b: Seq<AnyOfMember>)
    ensures
        any_of_components(c, a + b) == any_of_components(any_of_components(c, a), b),
    decreases b.len(),
{
    if b.len() > 0 {
        assert((a + b).drop_last() =~= a + b.drop_last());
        assert((a + b).last() == b.last());
        lemma_any_of_components_split(c, a, b.drop_last());
    } else {
        assert(a + b =~= a);
    }
}

impl QueryBuilder {
    /// A query with no terms yet: it accesses nothing and matches every entity.
    pub fn new() -> (q: QueryBuilder)
        ensures
            q@.access == FilteredAccess::spec_matches_everything(),
            !q@.self_conflicting,
    {
        QueryBuilder { access: FilteredAccess::matches_everything(), self_conflicting: false }
    }

    /// Adds the term `&x`: reads component `x` of the entities that have it.
    /// It conflicts with an earlier write of `x`.
    pub fn read(&mut self, x: u64)
        ensures
            final(self)@.self_conflicting == (old(self)@.self_conflicting || writes_id(
                old(self)@.access.components,
                x,
            )),
            final(self)@.access == (FilteredAccessView {
                components: KindAccessView { reads: old(self)@.access.components.reads.insert(x), ..old(self)@.access.components },
                filter_sets: and_with_all(old(self)@.access.filter_sets, x),
                ..old(self)@.access
            }),
    {
        let c = self.access.writes_component(x);
        self.self_conflicting = self.self_conflicting || c;
        self.access.add_component_read(x);
    }

    /// Adds the term `&mut x`: writes component `x` of the entities that have
    /// it. It conflicts with an earlier read or write of `x`.
    pub fn write(&mut self, x: u64)
        ensures
            final(self)@.self_conflicting == (old(self)@.self_conflicting || reads_id(
                old(self)@.access.components,
                x,
            )),
            final(self)@.access == (FilteredAccessView {
                components: KindAccessView { writes: old(self)@.access.components.writes.insert(x), ..old(self)@.access.components },
                filter_sets: and_with_all(old(self)@.access.filter_sets, x),
                ..old(self)@.access
            }),
    {
        let c = self.access.reads_component(x);
        self.self_conflicting = self.self_conflicting || c;
        self.access.add_component_write(x);
    }

    /// Adds the term `Option<&x>`: reads component `x` where it exists, and
    /// does not narrow the entities matched.
    pub fn option_read(&mut self, x: u64)
        ensures
            final(self)@.self_conflicting == (old(self)@.self_conflicting || writes_id(
                old(self)@.access.components,
                x,
            )),
            final(self)@.access == (FilteredAccessView {
                components: KindAccessView { reads: old(self)@.access.components.reads.insert(x), ..old(self)@.access.components },
                ..old(self)@.access
            }),
    {
        let c = self.access.writes_component(x);
        self.self_conflicting = self.self_conflicting || c;
        self.access.add_unfiltered_component_read(x);
    }

    /// Adds the term `Option<&mut x>`: writes component `x` where it exists,
    /// and does not narrow the entities matched.
    pub fn option_write(&mut self, x: u64)
        ensures
            final(self)@.self_conflicting == (old(self)@.self_conflicting || reads_id(
                old(self)@.access.components,
                x,
            )),
            final(self)@.access == (FilteredAccessView {
                components: KindAccessView { writes: old(self)@.access.components.writes.insert(x), ..old(self)@.access.components },
                ..old(self)@.access
            }),
    {
        let c = self.access.reads_component(x);
        self.self_conflicting = self.self_conflicting || c;
        self.access.add_unfiltered_component_write(x);
    }

    /// Adds the term `EntityRef`: reads every component. It conflicts with an
    /// earlier write.
    pub fn entity_ref(&mut self)
        ensures
            final(self)@.self_conflicting == (old(self)@.self_conflicting || writes_anything(
                old(self)@.access.components,
            )),
            final(self)@.access == (FilteredAccessView {
                components: KindAccessView { reads_all: true, ..old(self)@.access.components },
                ..old(self)@.access
            }),
    {
        let c = self.access.writes_any_component();
        self.self_conflicting = self.self_conflicting || c;
        self.access.read_all_components();
    }

    /// Adds the term `EntityMut`: writes every component. It conflicts with
    /// any earlier access to a component.
    pub fn entity_mut(&mut self)
        ensures
            final(self)@.self_conflicting == (old(self)@.self_conflicting || reads_anything(
                old(self)@.access.components,
            )),
            final(self)@.access == (FilteredAccessView {
                components: KindAccessView { reads_all: true, writes_all: true, ..old(self)@.access.components },
                ..old(self)@.access
            }),
    {
        let c = self.access.reads_any_component();
        self.self_conflicting = self.self_conflicting || c;
        self.access.write_all_components();
    }

    /// Adds the term `AnyOf<members>`: each member is checked and added in
    /// turn as an optional term, and the query matches the entities that have
    /// at least one member's component.
    pub fn any_of(&mut self, members: &Vec<AnyOfMember>)
        ensures
            final(self)@.self_conflicting == (old(self)@.self_conflicting || any_of_conflicts(
                old(self)@.access.components,
                members@,
            )),
            final(self)@.access == (FilteredAccessView {
                components: any_of_components(old(self)@.access.components, members@),
                filter_sets: any_of_filters(old(self)@.access.filter_sets, members@),
                ..old(self)@.access
            }),
            forall|k: int|
                0 <= k < members@.len() && match #[trigger] members@[k] {
                    AnyOfMember::Read(x) => writes_id(old(self)@.access.components, x),
                    AnyOfMember::Write(x) => reads_id(old(self)@.access.components, x),
                    AnyOfMember::Nothing => false,
                } ==> final(self)@.self_conflicting,
    {
        proof {
            assert forall|k: int|
                0 <= k < members@.len() && match #[trigger] members@[k] {
                    AnyOfMember::Read(x) => writes_id(self@.access.components, x),
                    AnyOfMember::Write(x) => reads_id(self@.access.components, x),
                    AnyOfMember::Nothing => false,
                } implies any_of_conflicts(self@.access.components, members@) by {
                law_any_of_checks_earlier_terms(self@.access.components, members@, k);
            }
        }
        let base = self.access.copy();
        let mut alternatives = FilteredAccess::matches_nothing();
        let mut i: usize = 0;
        while i < members.len()
            invariant
                i <= members.len(),
                base@ == old(self)@.access,
                alternatives@.filter_sets == any_of_filters(base@.filter_sets, members@.take(i as int)),
                self@.self_conflicting == (old(self)@.self_conflicting || any_of_conflicts(
                    base@.components,
                    members@.take(i as int),
                )),
                self@.access == (FilteredAccessView {
                    components: any_of_components(base@.components, members@.take(i as int)),
                    ..base@
                }),
            decreases members.len() - i,
        {
            let m = members[i];
            proof {
                let t = members@.take(i + 1);
                assert(t.drop_last() =~= members@.take(i as int));
                assert(t.last() == m);
            }
            let mut branch = base.copy();
            match m {
                AnyOfMember::Read(x) => {
                    branch.and_with(x);
                    let c = self.access.writes_component(x);
                    self.self_conflicting = self.self_conflicting || c;
                    self.access.add_unfiltered_component_read(x);
                },
                AnyOfMember::Write(x) => {
                    branch.and_with(x);
                    let c = self.access.reads_component(x);
                    self.self_conflicting = self.self_conflicting || c;
                    self.access.add_unfiltered_component_write(x);
                },
                AnyOfMember::Nothing => {},
            }
            alternatives.append_or(&branch);
            i = i + 1;
        }
        assert(members@.take(members.len() as int) =~= members@);
        self.access.replace_filters(&alternatives);
    }

    /// Adds the query's filter: it narrows the entities matched to those the
    /// filter lets through (a conjunction), and adds what the filter reads.
    pub fn filter(&mut self, f: &FilteredAccess)
        ensures
            final(self)@.self_conflicting == old(self)@.self_conflicting,
            final(self)@.access == (FilteredAccessView {
                components: kind_union(old(self)@.access.components, f@.components),
                resources: kind_union(old(self)@.access.resources, f@.resources),
                filter_sets: cross_filters(old(self)@.access.filter_sets, f@.filter_sets),
            }),
    {
        self.access.extend(f);
    }

    /// The query as a system parameter.
    pub fn build(self) -> (p: SystemParam)
        ensures
            p@.access == self@.access,
            p@.required_resources == Set::<u64>::empty(),
            p@.self_conflicting == self@.self_conflicting,
    {
        SystemParam::from_access(self.access, self.self_conflicting)
    }
}

} // verus!
