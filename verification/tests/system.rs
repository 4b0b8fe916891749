use bevy_widgets::access::FilteredAccess;
use bevy_widgets::query::{AnyOfMember, QueryBuilder};
use bevy_widgets::system::{
    assert_is_read_only_system, assert_is_system, assert_system_does_not_conflict, first_conflict,
    FromWorld, FunctionSystem, IntoSystem, RunSystemError, System, SystemFunction, SystemParam,
};
use bevy_widgets::world::{World, WorldView};

/// A system function that returns a fixed number.
struct Produce(u32);

impl SystemFunction<()> for Produce {
    type Out = u32;

    fn spec_call(&self, _input: ()) -> u32 {
        self.0
    }

    fn call(&self, _input: &()) -> u32 {
        self.0
    }
}

/// `In(x)`: returns `2 * x`.
struct Double;

impl SystemFunction<u32> for Double {
    type Out = u32;

    fn spec_call(&self, input: u32) -> u32 {
        input * 2
    }

    fn call(&self, input: &u32) -> u32 {
        *input * 2
    }
}

// Component and resource ids used by the tests.
const A: u64 = 0;
const B: u64 = 1;
const C: u64 = 2;
const D: u64 = 3;
const E: u64 = 4;
const BUFFER_RES: u64 = 10;

/// A system function that does nothing.
struct Noop;

impl SystemFunction<()> for Noop {
    type Out = ();

    fn spec_call(&self, _input: ()) {}

    fn call(&self, _input: &()) {}
}

/// `InMut(v)`: `*v += 1`; the value to keep comes first, then the output.
struct Increment;

impl SystemFunction<usize> for Increment {
    type Out = (usize, ());

    fn spec_call(&self, input: usize) -> (usize, ()) {
        (input + 1, ())
    }

    fn call(&self, input: &usize) -> (usize, ()) {
        (*input + 1, ())
    }
}

/// `InMut(v)`: `*v += 1; *v * 10`.
struct IncrementAndReport;

impl SystemFunction<usize> for IncrementAndReport {
    type Out = (usize, usize);

    fn spec_call(&self, input: usize) -> (usize, usize) {
        (input + 1, (input + 1) * 10)
    }

    fn call(&self, input: &usize) -> (usize, usize) {
        (*input + 1, (*input + 1) * 10)
    }
}

struct TestData(usize);

impl FromWorld for TestData {
    fn spec_from_world(_world: WorldView) -> Self {
        TestData(5)
    }

    fn from_world(_world: &mut World) -> Self {
        TestData(5)
    }
}

struct IncrementData;

impl SystemFunction<TestData> for IncrementData {
    type Out = (TestData, ());

    fn spec_call(&self, input: TestData) -> (TestData, ()) {
        (TestData(input.0 + 1), ())
    }

    fn call(&self, input: &TestData) -> (TestData, ()) {
        (TestData(input.0 + 1), ())
    }
}

/// `Query<&T>`
fn read(t: u64) -> SystemParam {
    let mut q = QueryBuilder::new();
    q.read(t);
    q.build()
}

/// `Query<&mut T>`
fn write(t: u64) -> SystemParam {
    let mut q = QueryBuilder::new();
    q.write(t);
    q.build()
}

/// `Query<Entity>`
fn entities() -> SystemParam {
    QueryBuilder::new().build()
}

/// The filter `Or<branches>`, applied after the filter terms in `current`.
fn or(current: &FilteredAccess, branches: &[&dyn Fn(&mut FilteredAccess)]) -> FilteredAccess {
    let mut new = FilteredAccess::matches_nothing();
    for branch in branches {
        let mut intermediate = current.copy();
        branch(&mut intermediate);
        new.append_or(&intermediate);
        new.extend_access(&intermediate);
    }
    new
}

fn filter(terms: &[&dyn Fn(&mut FilteredAccess)]) -> FilteredAccess {
    let mut f = FilteredAccess::matches_everything();
    for t in terms {
        t(&mut f);
    }
    f
}

fn system(params: Vec<SystemParam>) -> FunctionSystem<Noop> {
    FunctionSystem::new(params, Noop)
}

#[test]
fn simple_system() {
    // fn sys(query: Query<&A>)
    let mut system = IntoSystem::into_system(system(vec![read(A)]));
    let mut world = World::new();
    world.spawn(&vec![A]);

    system.initialize(&mut world);
    system.run(&mut world).unwrap();
}

#[test]
fn long_life_test() {
    // Read-only access to a resource and to a component, held from the world.
    let state = system(vec![SystemParam::res(A)]);
    let state_q = system(vec![read(A)]);
    assert_is_read_only_system(state);
    assert_is_read_only_system(state_q);
}

/// Initializes a system made of one query; it must not conflict.
fn init_query(q: QueryBuilder) {
    let mut world = World::new();
    let params = vec![q.build()];
    assert_eq!(first_conflict(&params), None);
    let mut sys = IntoSystem::into_system(system(params));
    sys.initialize(&mut world);
}

#[test]
fn convert_mut_to_immut() {
    // Query<&mut A>
    let mut q = QueryBuilder::new();
    q.write(A);
    init_query(q);

    // Query<Option<&mut A>>
    let mut q = QueryBuilder::new();
    q.option_write(A);
    init_query(q);

    // Query<(&mut A, &B)>
    let mut q = QueryBuilder::new();
    q.write(A);
    q.read(B);
    init_query(q);

    // Query<(&mut A, &mut B)>
    let mut q = QueryBuilder::new();
    q.write(A);
    q.write(B);
    init_query(q);

    // Query<(&mut A, &mut B), With<C>>
    let mut q = QueryBuilder::new();
    q.write(A);
    q.write(B);
    q.filter(&filter(&[&|f| f.and_with(C)]));
    init_query(q);

    // Query<(&mut A, &mut B), Without<C>>
    let mut q = QueryBuilder::new();
    q.write(A);
    q.write(B);
    q.filter(&filter(&[&|f| f.and_without(C)]));
    init_query(q);

    // Query<(&mut A, &mut B), Added<C>> and Changed<C>: the filter reads C.
    for _ in 0..2 {
        let mut q = QueryBuilder::new();
        q.write(A);
        q.write(B);
        q.filter(&filter(&[&|f| f.add_component_read(C)]));
        init_query(q);
    }

    // Query<(&mut A, &mut B), Spawned>: the filter reads no component.
    let mut q = QueryBuilder::new();
    q.write(A);
    q.write(B);
    q.filter(&FilteredAccess::matches_everything());
    init_query(q);
}

#[test]
fn assert_deferred_world_and_empty_query_does_not_conflict_first() {
    // fn system(_world: DeferredWorld, _query: Query<Entity>)
    let sys = system(vec![SystemParam::deferred_world(), entities()]);
    assert_system_does_not_conflict(sys);
}

#[test]
fn assert_deferred_world_and_empty_query_does_not_conflict_second() {
    // fn system(_query: Query<Entity>, _world: DeferredWorld)
    let sys = system(vec![entities(), SystemParam::deferred_world()]);
    assert_system_does_not_conflict(sys);
}

#[test]
fn with_input() {
    let mut world = World::new();
    let mut system = IntoSystem::into_system(
        FunctionSystem::new(vec![], Increment).with_input(42usize),
    );
    system.initialize(&mut world);
    system.run(&mut world).unwrap();
    assert_eq!(*system.value(), 43);
}

#[test]
fn with_input_from() {
    let mut world = World::new();
    let mut system =
        IntoSystem::into_system(FunctionSystem::new(vec![], IncrementData).with_input_from::<TestData>());
    assert!(system.value().is_none());
    system.initialize(&mut world);
    assert!(system.value().is_some());
    system.run(&mut world).unwrap();
    assert_eq!(system.value().unwrap().0, 6);
}

#[test]
fn duplicate_write_in_one_query_detected() {
    // fn system(_query: Query<(&mut W<u32>, &mut W<u32>)>)
    let mut q = QueryBuilder::new();
    q.write(A);
    q.write(A);
    assert_eq!(first_conflict(&vec![q.build()]), Some((0, 0)));
    // A shared and an exclusive reference, in either order.
    let mut q = QueryBuilder::new();
    q.read(A);
    q.write(A);
    assert_eq!(first_conflict(&vec![q.build()]), Some((0, 0)));
    let mut q = QueryBuilder::new();
    q.option_write(A);
    q.read(A);
    assert_eq!(first_conflict(&vec![q.build()]), Some((0, 0)));
    // Two shared references do not conflict.
    let mut q = QueryBuilder::new();
    q.read(A);
    q.option_read(A);
    assert_eq!(first_conflict(&vec![q.build()]), None);
}

#[test]
fn self_conflict_reported_before_later_pairs() {
    let mut q = QueryBuilder::new();
    q.write(B);
    q.write(B);
    let params = vec![read(A), q.build(), write(A)];
    assert_eq!(first_conflict(&params), Some((1, 1)));
}

#[test]
fn entity_ref_and_entity_mut_terms() {
    // Query<(EntityRef, &mut A)> and Query<(&A, EntityMut)> conflict with themselves.
    let mut q = QueryBuilder::new();
    q.entity_ref();
    q.write(A);
    assert_eq!(first_conflict(&vec![q.build()]), Some((0, 0)));
    let mut q = QueryBuilder::new();
    q.read(A);
    q.entity_mut();
    assert_eq!(first_conflict(&vec![q.build()]), Some((0, 0)));
    let mut q = QueryBuilder::new();
    q.entity_ref();
    q.read(A);
    assert_eq!(first_conflict(&vec![q.build()]), None);
}

fn entity_ref() -> SystemParam {
    let mut q = QueryBuilder::new();
    q.entity_ref();
    q.build()
}

fn entity_mut() -> SystemParam {
    let mut q = QueryBuilder::new();
    q.entity_mut();
    q.build()
}

#[test]
fn deferred_world_and_entity_ref_conflict() {
    // fn system(_world: DeferredWorld, _query: Query<EntityRef>) and the reverse order
    assert_eq!(first_conflict(&vec![SystemParam::deferred_world(), entity_ref()]), Some((0, 1)));
    assert_eq!(first_conflict(&vec![entity_ref(), SystemParam::deferred_world()]), Some((0, 1)));
}

#[test]
fn world_and_entity_mut_conflict() {
    // fn system(_query: &World, _q2: Query<EntityMut>) and the reverse order
    assert_eq!(first_conflict(&vec![SystemParam::world(), entity_mut()]), Some((0, 1)));
    assert_eq!(first_conflict(&vec![entity_mut(), SystemParam::world()]), Some((0, 1)));
    // Query<EntityRef> with Query<EntityMut>, and two Query<EntityMut>
    assert_eq!(first_conflict(&vec![entity_ref(), entity_mut()]), Some((0, 1)));
    assert_eq!(first_conflict(&vec![entity_mut(), entity_mut()]), Some((0, 1)));
}

#[test]
fn conflicting_query_mut_detected() {
    // fn sys(_q1: Query<&mut A>, _q2: Query<&mut A>)
    assert_eq!(first_conflict(&vec![write(A), write(A)]), Some((0, 1)));
}

#[test]
fn conflicting_query_immut_detected() {
    // fn sys(_q1: Query<&A>, _q2: Query<&mut A>)
    assert_eq!(first_conflict(&vec![read(A), write(A)]), Some((0, 1)));
}

#[test]
fn disjoint_query_mut_system() {
    // fn sys(_q1: Query<&mut A, With<B>>, _q2: Query<&mut A, Without<B>>)
    let mut q1 = QueryBuilder::new();
    q1.write(A);
    q1.filter(&filter(&[&|f| f.and_with(B)]));
    let mut q2 = QueryBuilder::new();
    q2.write(A);
    q2.filter(&filter(&[&|f| f.and_without(B)]));
    let params = vec![q1.build(), q2.build()];
    assert_eq!(first_conflict(&params), None);
    assert_is_system(system(params));
}

#[test]
fn disjoint_query_mut_read_component_system() {
    // fn sys(_q1: Query<(&mut A, &B)>, _q2: Query<&mut A, Without<B>>)
    let mut q1 = QueryBuilder::new();
    q1.write(A);
    q1.read(B);
    let mut q2 = QueryBuilder::new();
    q2.write(A);
    q2.filter(&filter(&[&|f| f.and_without(B)]));
    assert_eq!(first_conflict(&vec![q1.build(), q2.build()]), None);
}

/// `Query<&mut t, Without<a>>`
fn write_without(t: u64, a: u64) -> SystemParam {
    let mut q = QueryBuilder::new();
    q.write(t);
    q.filter(&filter(&[&|f| f.and_without(a)]));
    q.build()
}

#[test]
fn option_without_filter_with_detected() {
    // fn sys(_: Query<(Option<&A>, &mut B)>, _: Query<&mut B, Without<A>>)
    let mut q1 = QueryBuilder::new();
    q1.option_read(A);
    q1.write(B);
    assert_eq!(first_conflict(&vec![q1.build(), write_without(B, A)]), Some((0, 1)));
}

#[test]
fn option_doesnt_remove_unrelated_filter_with() {
    // fn sys(_: Query<(Option<&A>, &mut B, &A)>, _: Query<&mut B, Without<A>>)
    let mut q1 = QueryBuilder::new();
    q1.option_read(A);
    q1.write(B);
    q1.read(A);
    assert_eq!(first_conflict(&vec![q1.build(), write_without(B, A)]), None);
}

#[test]
fn any_of_working() {
    // fn sys(_: Query<AnyOf<(&mut A, &B)>>)
    let mut q = QueryBuilder::new();
    q.any_of(&vec![AnyOfMember::Write(A), AnyOfMember::Read(B)]);
    assert_eq!(first_conflict(&vec![q.build()]), None);
}

#[test]
fn any_of_with_and_without_common() {
    // fn sys(_: Query<(&mut D, &C, AnyOf<(&A, &B)>)>, _: Query<&mut D, Without<C>>)
    let mut q = QueryBuilder::new();
    q.write(D);
    q.read(C);
    q.any_of(&vec![AnyOfMember::Read(A), AnyOfMember::Read(B)]);
    assert_eq!(first_conflict(&vec![q.build(), write_without(D, C)]), None);
}

#[test]
fn any_of_clashing_members_detected() {
    // AnyOf<(&mut A, &A)>, AnyOf<(&A, &mut A)>, AnyOf<(&mut A, &mut A)>
    for members in [
        vec![AnyOfMember::Write(A), AnyOfMember::Read(A)],
        vec![AnyOfMember::Read(A), AnyOfMember::Write(A)],
        vec![AnyOfMember::Write(A), AnyOfMember::Write(A)],
    ] {
        let mut q = QueryBuilder::new();
        q.any_of(&members);
        assert_eq!(first_conflict(&vec![q.build()]), Some((0, 0)));
    }
}

#[test]
fn any_of_with_entity_and_mut() {
    // AnyOf<(Entity, &mut A)> and AnyOf<((), &mut A)>
    let mut q = QueryBuilder::new();
    q.any_of(&vec![AnyOfMember::Nothing, AnyOfMember::Write(A)]);
    assert_eq!(first_conflict(&vec![q.build()]), None);
}

#[test]
fn any_of_has_no_filter_with_detected() {
    // fn sys(_: Query<(AnyOf<(&A, ())>, &mut B)>, _: Query<&mut B, Without<A>>)
    let mut q = QueryBuilder::new();
    q.any_of(&vec![AnyOfMember::Read(A), AnyOfMember::Nothing]);
    q.write(B);
    assert_eq!(first_conflict(&vec![q.build(), write_without(B, A)]), Some((0, 1)));
}

#[test]
fn any_of_has_filter_with_when_both_have_it() {
    // fn sys(_: Query<(AnyOf<(&A, &A)>, &mut B)>, _: Query<&mut B, Without<A>>)
    let mut q = QueryBuilder::new();
    q.any_of(&vec![AnyOfMember::Read(A), AnyOfMember::Read(A)]);
    q.write(B);
    assert_eq!(first_conflict(&vec![q.build(), write_without(B, A)]), None);
}

#[test]
fn any_of_doesnt_remove_unrelated_filter_with() {
    // fn sys(_: Query<(AnyOf<(&A, ())>, &mut B, &A)>, _: Query<&mut B, Without<A>>)
    let mut q = QueryBuilder::new();
    q.any_of(&vec![AnyOfMember::Read(A), AnyOfMember::Nothing]);
    q.write(B);
    q.read(A);
    assert_eq!(first_conflict(&vec![q.build(), write_without(B, A)]), None);
}

#[test]
fn any_of_and_without() {
    // fn sys(_: Query<(AnyOf<(&A, &B)>, &mut C)>, _: Query<&mut C, (Without<A>, Without<B>)>)
    let mut q1 = QueryBuilder::new();
    q1.any_of(&vec![AnyOfMember::Read(A), AnyOfMember::Read(B)]);
    q1.write(C);
    let mut q2 = QueryBuilder::new();
    q2.write(C);
    q2.filter(&filter(&[&|f| f.and_without(A), &|f| f.and_without(B)]));
    assert_eq!(first_conflict(&vec![q1.build(), q2.build()]), None);
}

/// `Query<&mut t, F>`
fn write_filtered(t: u64, f: FilteredAccess) -> SystemParam {
    let mut q = QueryBuilder::new();
    q.write(t);
    q.filter(&f);
    q.build()
}

fn conflict_between(q1: SystemParam, q2: SystemParam) -> Option<(usize, usize)> {
    first_conflict(&vec![q1, q2])
}

#[test]
fn or_has_no_filter_with() {
    // Query<&mut B, Or<(With<A>, With<B>)>> and Query<&mut B, Without<A>> conflict.
    let none = FilteredAccess::matches_everything();
    let f = or(&none, &[&|f| f.and_with(A), &|f| f.and_with(B)]);
    assert_eq!(conflict_between(write_filtered(B, f), write_without(B, A)), Some((0, 1)));
}

#[test]
fn or_has_filter_with_when_both_have_it() {
    // Query<&mut B, Or<(With<A>, With<A>)>> and Query<&mut B, Without<A>>
    let none = FilteredAccess::matches_everything();
    let f = or(&none, &[&|f| f.and_with(A), &|f| f.and_with(A)]);
    assert_eq!(conflict_between(write_filtered(B, f), write_without(B, A)), None);
}

#[test]
fn or_has_filter_with() {
    // Query<&mut C, Or<(With<A>, With<B>)>> and Query<&mut C, (Without<A>, Without<B>)>
    let none = FilteredAccess::matches_everything();
    let f = or(&none, &[&|f| f.and_with(A), &|f| f.and_with(B)]);
    let g = filter(&[&|f| f.and_without(A), &|f| f.and_without(B)]);
    assert_eq!(conflict_between(write_filtered(C, f), write_filtered(C, g)), None);
}

#[test]
fn or_expanded_with_and_without_common() {
    // Query<&mut D, (With<A>, Or<(With<B>, With<C>)>)> and Query<&mut D, Without<A>>
    let with_a = filter(&[&|f| f.and_with(A)]);
    let f = or(&with_a, &[&|f| f.and_with(B), &|f| f.and_with(C)]);
    assert_eq!(conflict_between(write_filtered(D, f), write_without(D, A)), None);
}

/// `(Or<((With<B>, With<C>), (With<C>, With<D>))>, With<A>)`
fn nested_with_or_then_with_a() -> FilteredAccess {
    let none = FilteredAccess::matches_everything();
    let mut f = or(
        &none,
        &[
            &|f| {
                f.and_with(B);
                f.and_with(C);
            },
            &|f| {
                f.and_with(C);
                f.and_with(D);
            },
        ],
    );
    f.and_with(A);
    f
}

#[test]
fn or_expanded_nested_with_and_without_common() {
    // Query<&mut E, (Or<((With<B>, With<C>), (With<C>, With<D>))>, With<A>)>
    // and Query<&mut E, (Without<B>, Without<D>)>
    let g = filter(&[&|f| f.and_without(B), &|f| f.and_without(D)]);
    assert_eq!(conflict_between(write_filtered(E, nested_with_or_then_with_a()), write_filtered(E, g)), None);
}

#[test]
fn or_expanded_nested_with_and_disjoint_without() {
    // Query<&mut E, (Or<((With<B>, With<C>), (With<C>, With<D>))>, With<A>)>
    // and Query<&mut E, Without<D>> conflict.
    assert_eq!(
        conflict_between(write_filtered(E, nested_with_or_then_with_a()), write_without(E, D)),
        Some((0, 1)),
    );
}

#[test]
fn or_expanded_nested_or_with_and_disjoint_without() {
    // Query<&mut D, Or<(Or<(With<A>, With<B>)>, Or<(With<A>, With<C>)>)>> and
    // Query<&mut D, Without<A>> conflict.
    let none = FilteredAccess::matches_everything();
    let f = or(
        &none,
        &[
            &|f| {
                let r = or(f, &[&|g| g.and_with(A), &|g| g.and_with(B)]);
                *f = r;
            },
            &|f| {
                let r = or(f, &[&|g| g.and_with(A), &|g| g.and_with(C)]);
                *f = r;
            },
        ],
    );
    assert_eq!(conflict_between(write_filtered(D, f), write_without(D, A)), Some((0, 1)));
}

/// `Or<((With<A>, With<B>), (With<B>, With<C>))>`
fn nested_with_ab_or_bc() -> FilteredAccess {
    let none = FilteredAccess::matches_everything();
    or(
        &none,
        &[
            &|f| {
                f.and_with(A);
                f.and_with(B);
            },
            &|f| {
                f.and_with(B);
                f.and_with(C);
            },
        ],
    )
}

#[test]
fn or_expanded_nested_with_and_common_nested_without() {
    // Query<&mut D, Or<((With<A>, With<B>), (With<B>, With<C>))>> and
    // Query<&mut D, Or<(Without<D>, Without<B>)>>
    let none = FilteredAccess::matches_everything();
    let g = or(&none, &[&|f| f.and_without(D), &|f| f.and_without(B)]);
    assert_eq!(conflict_between(write_filtered(D, nested_with_ab_or_bc()), write_filtered(D, g)), None);
}

#[test]
fn or_with_without_and_compatible_with_without() {
    // Query<&mut C, Or<(With<A>, Without<B>)>> and Query<&mut C, (With<B>, Without<A>)>
    let none = FilteredAccess::matches_everything();
    let f = or(&none, &[&|f| f.and_with(A), &|f| f.and_without(B)]);
    let g = filter(&[&|f| f.and_with(B), &|f| f.and_without(A)]);
    assert_eq!(conflict_between(write_filtered(C, f), write_filtered(C, g)), None);
}

#[test]
fn with_and_disjoint_or_empty_without() {
    // Query<&mut B, With<A>> and Query<&mut B, Or<((), Without<A>)>> conflict.
    let none = FilteredAccess::matches_everything();
    let f = or(&none, &[&|_f| {}, &|f| f.and_without(A)]);
    let g = filter(&[&|f| f.and_with(A)]);
    assert_eq!(conflict_between(write_filtered(B, g), write_filtered(B, f)), Some((0, 1)));
}

#[test]
fn or_expanded_with_and_disjoint_nested_without() {
    // Query<&mut D, Or<(With<A>, With<B>)>> and Query<&mut D, Or<(Without<A>, Without<B>)>>
    // conflict.
    let none = FilteredAccess::matches_everything();
    let f = or(&none, &[&|f| f.and_with(A), &|f| f.and_with(B)]);
    let g = or(&none, &[&|f| f.and_without(A), &|f| f.and_without(B)]);
    assert_eq!(conflict_between(write_filtered(D, f), write_filtered(D, g)), Some((0, 1)));
}

#[test]
fn or_expanded_nested_with_and_disjoint_nested_without() {
    // Query<&mut D, Or<((With<A>, With<B>), (With<B>, With<C>))>> and
    // Query<&mut D, Or<(Without<A>, Without<B>)>> conflict.
    let none = FilteredAccess::matches_everything();
    let g = or(&none, &[&|f| f.and_without(A), &|f| f.and_without(B)]);
    assert_eq!(
        conflict_between(write_filtered(D, nested_with_ab_or_bc()), write_filtered(D, g)),
        Some((0, 1)),
    );
}

#[test]
fn or_doesnt_remove_unrelated_filter_with() {
    // Query<&mut B, (Or<(With<A>, With<B>)>, With<A>)> and Query<&mut B, Without<A>>
    let none = FilteredAccess::matches_everything();
    let mut f = or(&none, &[&|f| f.and_with(A), &|f| f.and_with(B)]);
    f.and_with(A);
    assert_eq!(conflict_between(write_filtered(B, f), write_without(B, A)), None);
}

#[test]
fn changed_trackers_or_conflict_detected() {
    // fn sys(_: Query<&mut A>, _: Query<(), Or<(Changed<A>,)>>)
    let f = or(&FilteredAccess::matches_everything(), &[&|f| f.add_component_read(A)]);
    let mut q = QueryBuilder::new();
    q.filter(&f);
    assert_eq!(first_conflict(&vec![write(A), q.build()]), Some((0, 1)));
}

#[test]
fn conflicting_system_resources_detected() {
    // fn sys(_: ResMut<BufferRes>, _: Res<BufferRes>) and the reverse order
    let params = vec![SystemParam::res_mut(BUFFER_RES), SystemParam::res(BUFFER_RES)];
    assert_eq!(first_conflict(&params), Some((0, 1)));
    let params = vec![SystemParam::res(BUFFER_RES), SystemParam::res_mut(BUFFER_RES)];
    assert_eq!(first_conflict(&params), Some((0, 1)));
    let params = vec![SystemParam::res_mut(BUFFER_RES), SystemParam::res_mut(BUFFER_RES)];
    assert_eq!(first_conflict(&params), Some((0, 1)));
}

#[test]
fn nonconflicting_system_resources() {
    // fn sys(_: Local<BufferRes>, _: ResMut<BufferRes>, _: Local<A>, _: ResMut<A>)
    let params = vec![
        SystemParam::local(),
        SystemParam::res_mut(BUFFER_RES),
        SystemParam::local(),
        SystemParam::res_mut(A),
    ];
    assert_eq!(first_conflict(&params), None);
    let mut world = World::new();
    world.insert_resource(BUFFER_RES);
    world.insert_resource(A);
    world.insert_resource(B);
    let mut sys = system(params);
    sys.initialize(&mut world);
    assert!(sys.run(&mut world).is_ok());
}

#[test]
fn first_conflict_reports_earliest_pair() {
    // Registered in order: the third parameter is the first to conflict, with the first.
    let params = vec![read(C), write(A), write(C), read(A)];
    assert_eq!(first_conflict(&params), Some((0, 2)));
}

#[test]
fn world_param_conflicts_with_writes_only() {
    let params = vec![SystemParam::world(), SystemParam::res(A), read(B)];
    assert_eq!(first_conflict(&params), None);
    let params = vec![SystemParam::world(), write(B)];
    assert_eq!(first_conflict(&params), Some((0, 1)));
}

#[test]
fn missing_resource_skips_system() {
    let mut world = World::new();
    let mut sys = system(vec![SystemParam::local(), SystemParam::res(BUFFER_RES)]);
    sys.initialize(&mut world);
    assert_eq!(sys.run(&mut world), Err(RunSystemError::InvalidParam(1)));
    world.insert_resource(BUFFER_RES);
    assert_eq!(sys.run(&mut world), Ok(()));
}

#[test]
fn skipped_run_keeps_input_value() {
    let mut world = World::new();
    let mut sys = FunctionSystem::new(vec![SystemParam::res(B)], Increment).with_input(7usize);
    sys.initialize(&mut world);
    assert!(sys.run(&mut world).is_err());
    assert_eq!(*sys.value(), 7);
    world.insert_resource(B);
    sys.run(&mut world).unwrap();
    sys.run(&mut world).unwrap();
    assert_eq!(*sys.value(), 9);
}

#[test]
fn with_input_returns_output_of_function() {
    let mut world = World::new();
    let mut sys = FunctionSystem::new(vec![], IncrementAndReport).with_input(4usize);
    sys.initialize(&mut world);
    assert_eq!(sys.run(&mut world), Ok(50));
    assert_eq!(*sys.value(), 5);
    assert_eq!(sys.run(&mut world), Ok(60));
    assert_eq!(*sys.value(), 6);
}

#[test]
fn world_spawn_and_resources() {
    let mut world = World::new();
    assert_eq!(world.entity_count(), 0);
    assert_eq!(world.spawn(&vec![A, B]), 0);
    assert_eq!(world.spawn(&vec![]), 1);
    assert_eq!(world.entity_count(), 2);
    assert!(!world.contains_resource(A));
    world.insert_resource(A);
    world.insert_resource(A);
    assert!(world.contains_resource(A));
}

#[test]
fn pipe_passes_output_to_next_system() {
    let mut world = World::new();
    let a = FunctionSystem::new(vec![read(A)], Produce(21));
    let b = FunctionSystem::new(vec![write(A)], Double);
    let mut piped = a.pipe(b);
    piped.initialize(&mut world);
    assert_eq!(piped.run(&mut world), Ok(42));
}

#[test]
fn pipe_fails_when_either_part_cannot_fetch() {
    let mut world = World::new();
    let a = FunctionSystem::new(vec![SystemParam::res(A)], Produce(1));
    let b = FunctionSystem::new(vec![SystemParam::res(B)], Double);
    let mut piped = a.pipe(b);
    piped.initialize(&mut world);
    assert_eq!(piped.run(&mut world), Err(RunSystemError::InvalidParam(0)));
    world.insert_resource(A);
    assert_eq!(piped.run(&mut world), Err(RunSystemError::InvalidParam(0)));
    world.insert_resource(B);
    assert_eq!(piped.run(&mut world), Ok(2));
}

#[test]
fn map_applies_function_to_output() {
    let mut world = World::new();
    let mut mapped = FunctionSystem::new(vec![], Produce(5)).map(Double);
    mapped.initialize(&mut world);
    assert_eq!(mapped.run(&mut world), Ok(10));
    let mut twice = FunctionSystem::new(vec![], Produce(5)).map(Double).map(Double);
    twice.initialize(&mut world);
    assert_eq!(twice.run(&mut world), Ok(20));
}
