//! Systems: a function together with the parameters it fetches from the world.
//!
//! A system's parameters are checked when the system is initialized: a query
//! conflicts with itself when one of its terms writes data that an earlier term
//! reads or writes, and two parameters conflict when one writes data that the
//! other reads and their filters do not keep them apart. Before each run, each
//! parameter is validated against the world (a resource it needs must exist).

use vstd::prelude::*;
use crate::access::{FilteredAccess, FilteredAccessView, compatible, writes_anything};
use crate::ids::{id_set, copy_ids, lemma_id_set_single};
use crate::world::{World, WorldView};

verus! {

/// One parameter of a system: what it accesses, and which resources must exist
/// for the system to run.
pub struct SystemParam {
    access: FilteredAccess,
    required_resources: Vec<u64>,
    self_conflicting: bool,
}

/// Model of a [`SystemParam`].
pub struct ParamView {
    pub access: FilteredAccessView,
    pub required_resources: Set<u64>,
    /// Whether two terms of the parameter (a query) conflict with each other.
    pub self_conflicting: bool,
}

impl View for SystemParam {
    type V = ParamView;

    closed spec fn view(&self) -> ParamView {
        ParamView {
            access: self.access@,
            required_resources: id_set(self.required_resources@),
            self_conflicting: self.self_conflicting,
        }
    }
}

/// The models of a list of parameters.
pub open spec fn param_views(ps: Seq<SystemParam>) -> Seq<ParamView> {
    ps.map_values(|p: SystemParam| p@)
}

/// Whether no parameter conflicts with itself and no two distinct parameters
/// conflict.
pub open spec fn conflict_free(ps: Seq<ParamView>) -> bool {
    &&& forall|i: int| 0 <= i < ps.len() ==> !(#[trigger] ps[i]).self_conflicting
    &&& forall|i: int, j: int|
        0 <= i < j < ps.len() ==> compatible(#[trigger] ps[i].access, #[trigger] ps[j].access)
}

/// Whether the parameter writes nothing and has no terms that conflict.
pub open spec fn param_read_only(p: ParamView) -> bool {
    !writes_anything(p.access.components) && !writes_anything(p.access.resources)
        && !p.self_conflicting
}

/// Whether the parameters before `j` conflict neither with themselves nor with
/// each other.
pub open spec fn conflict_free_before(ps: Seq<ParamView>, j: int) -> bool {
    &&& forall|q: int| 0 <= q < j ==> !(#[trigger] ps[q]).self_conflicting
    &&& forall|p: int, q: int|
        0 <= p < q < j ==> compatible(#[trigger] ps[p].access, #[trigger] ps[q].access)
}

/// Whether every parameter writes nothing.
pub open spec fn read_only(ps: Seq<ParamView>) -> bool {
    forall|i: int| 0 <= i < ps.len() ==> param_read_only(#[trigger] ps[i])
}

/// Whether the parameter can be fetched from a world with these resources.
pub open spec fn param_valid(p: ParamView, w: WorldView) -> bool {
    p.required_resources.subset_of(w.resources)
}

/// Whether every parameter can be fetched from the world.
pub open spec fn params_valid(ps: Seq<ParamView>, w: WorldView) -> bool {
    forall|i: int| 0 <= i < ps.len() ==> param_valid(#[trigger] ps[i], w)
}

/// Whether `i` is the index of the first parameter that cannot be fetched.
pub open spec fn is_first_invalid(ps: Seq<ParamView>, w: WorldView, i: int) -> bool {
    0 <= i < ps.len() && !param_valid(ps[i], w) && forall|k: int|
        0 <= k < i ==> param_valid(#[trigger] ps[k], w)
}

/// The index of the first parameter that cannot be fetched, if any.
pub open spec fn first_invalid(ps: Seq<ParamView>, w: WorldView) -> Option<int> {
    if exists|i: int| #[trigger] is_first_invalid(ps, w, i) {
        Some(choose|i: int| #[trigger] is_first_invalid(ps, w, i))
    } else {
        None
    }
}

/// There is no first invalid parameter exactly when every parameter is valid.
pub proof fn lemma_first_invalid_none(ps: Seq<ParamView>, w: WorldView)
    ensures
        first_invalid(ps, w) is None <==> params_valid(ps, w),
{
    if !params_valid(ps, w) {
        let j = choose|j: int| 0 <= j < ps.len() && !param_valid(#[trigger] ps[j], w);
        lemma_first_invalid_exists(ps, w, j);
    } else {
        assert forall|i: int| !#[trigger] is_first_invalid(ps, w, i) by {
            if 0 <= i < ps.len() {
                assert(param_valid(ps[i], w));
            }
        }
    }
}

/// Below an invalid parameter at `j` there is a first invalid one.
proof fn lemma_first_invalid_exists(ps: Seq<ParamView>, w: WorldView, j: int)
    requires
        0 <= j < ps.len(),
        !param_valid(ps[j], w),
    ensures
        exists|i: int| #[trigger] is_first_invalid(ps, w, i),
    decreases j,
{
    if forall|k: int| 0 <= k < j ==> param_valid(#[trigger] ps[k], w) {
        assert(is_first_invalid(ps, w, j));
    } else {
        let k = choose|k: int| 0 <= k < j && !param_valid(#[trigger] ps[k], w);
        lemma_first_invalid_exists(ps, w, k);
    }
}

impl SystemParam {
    /// A parameter with the given access, needing no resource.
    pub(crate) fn from_access(access: FilteredAccess, self_conflicting: bool) -> (p: SystemParam)
        ensures
            p@.access == access@,
            p@.required_resources == Set::<u64>::empty(),
            p@.self_conflicting == self_conflicting,
    {
        let p = SystemParam { access, required_resources: Vec::new(), self_conflicting };
        assert(p@.required_resources =~= Set::<u64>::empty());
        p
    }

    /// Shared access to resource `id`, which must exist.
    pub fn res(id: u64) -> (p: SystemParam)
        ensures
            p@.access == ({
                let e = FilteredAccess::spec_matches_everything();
                FilteredAccessView {
                    resources: crate::access::KindAccessView { reads: Set::empty().insert(id), ..e.resources },
                    ..e
                }
            }),
            p@.required_resources == Set::<u64>::empty().insert(id),
            !p@.self_conflicting,
    {
        let mut a = FilteredAccess::matches_everything();
        a.add_resource_read(id);
        let mut r: Vec<u64> = Vec::new();
        r.push(id);
        let p = SystemParam { access: a, required_resources: r, self_conflicting: false };
        proof {
            assert(r@ =~= seq![id]);
            lemma_id_set_single(id);
        }
        assert(p@.access.resources.reads =~= Set::<u64>::empty().insert(id));
        p
    }

    /// Exclusive access to resource `id`, which must exist.
    pub fn res_mut(id: u64) -> (p: SystemParam)
        ensures
            p@.access == ({
                let e = FilteredAccess::spec_matches_everything();
                FilteredAccessView {
                    resources: crate::access::KindAccessView { writes: Set::empty().insert(id), ..e.resources },
                    ..e
                }
            }),
            p@.required_resources == Set::<u64>::empty().insert(id),
            !p@.self_conflicting,
    {
        let mut a = FilteredAccess::matches_everything();
        a.add_resource_write(id);
        let mut r: Vec<u64> = Vec::new();
        r.push(id);
        let p = SystemParam { access: a, required_resources: r, self_conflicting: false };
        proof {
            assert(r@ =~= seq![id]);
            lemma_id_set_single(id);
        }
        assert(p@.access.resources.writes =~= Set::<u64>::empty().insert(id));
        p
    }

    /// A parameter that touches no shared data (a system-local value, or a
    /// command queue).
    pub fn local() -> (p: SystemParam)
        ensures
            p@.access == FilteredAccess::spec_matches_everything(),
            p@.required_resources == Set::<u64>::empty(),
            !p@.self_conflicting,
    {
        SystemParam::from_access(FilteredAccess::matches_everything(), false)
    }

    /// Shared access to the whole world: reads every component and resource.
    pub fn world() -> (p: SystemParam)
        ensures
            p@.access == ({
                let e = FilteredAccess::spec_matches_everything();
                FilteredAccessView {
                    components: crate::access::KindAccessView { reads_all: true, ..e.components },
                    resources: crate::access::KindAccessView { reads_all: true, ..e.resources },
                    ..e
                }
            }),
            p@.required_resources == Set::<u64>::empty(),
            !p@.self_conflicting,
    {
        let mut a = FilteredAccess::matches_everything();
        a.read_all();
        SystemParam::from_access(a, false)
    }

    /// A deferred world: may write every component and resource.
    pub fn deferred_world() -> (p: SystemParam)
        ensures
            p@.access == ({
                let e = FilteredAccess::spec_matches_everything();
                FilteredAccessView {
                    components: crate::access::KindAccessView { reads_all: true, writes_all: true, ..e.components },
                    resources: crate::access::KindAccessView { reads_all: true, writes_all: true, ..e.resources },
                    ..e
                }
            }),
            p@.required_resources == Set::<u64>::empty(),
            !p@.self_conflicting,
    {
        let mut a = FilteredAccess::matches_everything();
        a.write_all();
        SystemParam::from_access(a, false)
    }

    /// A copy.
    pub fn copy(&self) -> (p: SystemParam)
        ensures
            p@ == self@,
    {
        SystemParam {
            access: self.access.copy(),
            required_resources: copy_ids(&self.required_resources),
            self_conflicting: self.self_conflicting,
        }
    }

    /// Whether this parameter can be fetched from `world`.
    pub fn is_valid(&self, world: &World) -> (r: bool)
        ensures
            r == param_valid(self@, world@),
    {
        let mut i: usize = 0;
        while i < self.required_resources.len()
            invariant
                i <= self.required_resources.len(),
                forall|k: int| 0 <= k < i ==> world@.resources.contains(#[trigger] self.required_resources@[k]),
            decreases self.required_resources.len() - i,
        {
            if !world.contains_resource(self.required_resources[i]) {
                assert(self@.required_resources.contains(self.required_resources@[i as int]));
                return false;
            }
            i = i + 1;
        }
        assert forall|x: u64| self@.required_resources.contains(x) implies world@.resources.contains(x) by {
            let k = choose|k: int| 0 <= k < self.required_resources@.len() && self.required_resources@[k] == x;
            assert(world@.resources.contains(self.required_resources@[k]));
        }
        true
    }
}

/// The first conflict found when the parameters are registered in order: for
/// the first parameter `j` that conflicts with itself or with an earlier one,
/// `(j, j)` when it conflicts with itself, else `(i, j)` with `i` the first
/// earlier parameter it conflicts with. `None` when nothing conflicts.
pub fn first_conflict(params: &Vec<SystemParam>) -> (r: Option<(usize, usize)>)
    ensures
        r is None <==> conflict_free(param_views(params@)),
        r matches Some((i, j)) ==> {
            let ps = param_views(params@);
            &&& i <= j < params.len()
            &&& conflict_free_before(ps, j as int)
            &&& i == j ==> ps[j as int].self_conflicting
            &&& i < j ==> {
                &&& !ps[j as int].self_conflicting
                &&& !compatible(ps[i as int].access, ps[j as int].access)
                &&& forall|p: int| 0 <= p < i ==> compatible(#[trigger] ps[p].access, ps[j as int].access)
            }
        },
{
    let ghost ps = param_views(params@);
    let mut j: usize = 0;
    while j < params.len()
        invariant
            j <= params.len(),
            ps == param_views(params@),
            conflict_free_before(ps, j as int),
        decreases params.len() - j,
    {
        assert(ps[j as int] == params@[j as int]@);
        if params[j].self_conflicting {
            return Some((j, j));
        }
        let mut i: usize = 0;
        while i < j
            invariant
                i <= j < params.len(),
                ps == param_views(params@),
                ps[j as int] == params@[j as int]@,
                !ps[j as int].self_conflicting,
                conflict_free_before(ps, j as int),
                forall|p: int| 0 <= p < i ==> compatible(#[trigger] ps[p].access, ps[j as int].access),
            decreases j - i,
        {
            assert(ps[i as int] == params@[i as int]@);
            if !params[i].access.is_compatible(&params[j].access) {
                assert(!compatible(ps[i as int].access, ps[j as int].access));
                assert(!conflict_free(ps));
                return Some((i, j));
            }
            i = i + 1;
        }
        assert(conflict_free_before(ps, j + 1)) by {
            assert forall|p: int, q: int| 0 <= p < q < j + 1 implies compatible(
                #[trigger] ps[p].access,
                #[trigger] ps[q].access,
            ) by {
                if q == j {
                    assert(compatible(ps[p].access, ps[j as int].access));
                }
            }
        }
        j = j + 1;
    }
    None
}

/// The index of the first parameter that cannot be fetched from `world`.
pub fn first_invalid_param(params: &Vec<SystemParam>, world: &World) -> (r: Option<usize>)
    ensures
        r matches Some(i) ==> Some(i as int) == first_invalid(param_views(params@), world@),
        r is None ==> first_invalid(param_views(params@), world@) is None,
{
    let ghost ps = param_views(params@);
    let mut i: usize = 0;
    while i < params.len()
        invariant
            i <= params.len(),
            ps == param_views(params@),
            forall|k: int| 0 <= k < i ==> param_valid(#[trigger] ps[k], world@),
        decreases params.len() - i,
    {
        if !params[i].is_valid(world) {
            assert(is_first_invalid(ps, world@, i as int));
            let ghost c = first_invalid(ps, world@)->0;
            assert(c == i) by {
                if c < i {
                    assert(param_valid(ps[c], world@));
                }
                if c > i {
                    assert(param_valid(ps[i as int], world@));
                }
            }
            return Some(i);
        }
        i = i + 1;
    }
    None
}

/// Why a system did not run.
#[derive(PartialEq, Eq, Structural, Debug)]
pub enum RunSystemError {
    /// The parameter at this index (of the system that failed) could not be
    /// fetched (a resource it needs is missing), so the function was not run.
    InvalidParam(usize),
}

/// A value built from the world, such as the kept input of a system made with
/// `with_input_from`.
pub trait FromWorld: Sized {
    /// The value built from a world.
    spec fn spec_from_world(world: WorldView) -> Self;

    /// Builds the value from the world.
    fn from_world(world: &mut World) -> (r: Self)
        ensures
            r == Self::spec_from_world(old(world)@),
    ;
}

/// The function of a system. It receives a reference to the system's input
/// (`()` for a system that takes no input) and returns the system's output.
pub trait SystemFunction<I> {
    /// What the function returns.
    type Out;

    /// What the function returns for `input`.
    spec fn spec_call(&self, input: I) -> Self::Out;

    /// Runs the function on `input`.
    fn call(&self, input: &I) -> (r: Self::Out)
        ensures
            r == self.spec_call(*input),
    ;
}

/// A system: parameters checked on initialization, validated before each run.
pub trait System: Sized {
    /// What a run returns.
    type Out;

    /// The models of the parameters.
    spec fn params(&self) -> Seq<ParamView>;

    /// Whether the system was initialized.
    spec fn is_initialized(&self) -> bool;

    /// Whether initializing finds no conflict: for a system made of one function,
    /// that its parameters are conflict-free; for a system made of others, that
    /// each of them initializes.
    spec fn can_initialize(&self) -> bool;

    /// What a run returns, from this state, when the parameters can be fetched.
    spec fn spec_output(&self) -> Self::Out;

    /// What a run returns once this system has been initialized on a world
    /// that looks like `world` (initializing may build kept values from it).
    spec fn spec_output_after_init(&self, world: WorldView) -> Self::Out;

    /// What the run after a successful run from this state returns (a run may
    /// change the values a system keeps).
    spec fn spec_output_after_run(&self) -> Self::Out;

    /// Parameters that are conflict-free as a whole let the system initialize.
    proof fn lemma_conflict_free_initializes(&self)
        requires
            conflict_free(self.params()),
        ensures
            self.can_initialize(),
    ;

    /// Registers the parameters with the world; initialization must find no
    /// conflict.
    fn initialize(&mut self, world: &mut World)
        requires
            old(self).can_initialize(),
        ensures
            final(self).is_initialized(),
            final(self).params() == old(self).params(),
            final(self).can_initialize() == old(self).can_initialize(),
            final(self).spec_output() == old(self).spec_output_after_init(old(world)@),
    ;

    /// Validates the parameters against the world and, when they can all be
    /// fetched, runs the function and returns its output.
    fn run(&mut self, world: &mut World) -> (r: Result<Self::Out, RunSystemError>)
        requires
            old(self).is_initialized(),
        ensures
            final(self).is_initialized(),
            final(self).params() == old(self).params(),
            final(self).can_initialize() == old(self).can_initialize(),
            final(world)@ == old(world)@,
            r is Ok <==> params_valid(old(self).params(), old(world)@),
            r matches Ok(v) ==> v == old(self).spec_output(),
            r is Ok ==> final(self).spec_output() == old(self).spec_output_after_run(),
    ;
}

/// A system made of a function and its parameters.
pub struct FunctionSystem<F> {
    params: Vec<SystemParam>,
    func: F,
    initialized: bool,
}

impl<F> FunctionSystem<F> {
    /// The system made of `func` and the parameters it fetches.
    pub fn new(params: Vec<SystemParam>, func: F) -> (s: FunctionSystem<F>)
        ensures
            s.spec_params() == param_views(params@),
            s.spec_func() == func,
            !s.spec_initialized(),
    {
        FunctionSystem { params, func, initialized: false }
    }

    /// The models of the parameters.
    pub closed spec fn spec_params(&self) -> Seq<ParamView> {
        param_views(self.params@)
    }

    /// The function.
    pub closed spec fn spec_func(&self) -> F {
        self.func
    }

    /// Whether the system was initialized.
    pub closed spec fn spec_initialized(&self) -> bool {
        self.initialized
    }

    /// Registers the parameters with the world; they must not conflict.
    pub fn initialize_params(&mut self, world: &mut World)
        requires
            conflict_free(old(self).spec_params()),
        ensures
            final(self).spec_initialized(),
            final(self).spec_params() == old(self).spec_params(),
            final(self).spec_func() == old(self).spec_func(),
            final(world)@ == old(world)@,
    {
        self.initialized = true;
    }

    /// Validates the parameters against the world and, when they can all be
    /// fetched, runs the function on `input`; returns what it returned.
    pub fn run_with<I>(&mut self, input: &I, world: &World) -> (r: Result<F::Out, RunSystemError>)
        where
            F: SystemFunction<I>,
        requires
            old(self).spec_initialized(),
        ensures
            *final(self) == *old(self),
            match first_invalid(old(self).spec_params(), world@) {
                Some(i) => r == Err::<F::Out, RunSystemError>(RunSystemError::InvalidParam(i as usize)),
                None => r == Ok::<F::Out, RunSystemError>(old(self).spec_func().spec_call(*input)),
            },
    {
        match first_invalid_param(&self.params, world) {
            Some(i) => Err(RunSystemError::InvalidParam(i)),
            None => {
                let v = self.func.call(input);
                Ok(v)
            },
        }
    }

    /// The system that passes a value it keeps to this one's function on each
    /// run, starting at `value`; the function returns the value to keep for the
    /// next run beside its output.
    pub fn with_input<T>(self, value: T) -> (w: WithInputWrapper<F, T>)
        ensures
            w.system == self,
            w.value == value,
    {
        WithInputWrapper { system: self, value }
    }

    /// Like [`FunctionSystem::with_input`], with a value built from the world when
    /// the system is initialized.
    pub fn with_input_from<T: FromWorld>(self) -> (w: WithInputFromWrapper<F, T>)
        ensures
            w.system == self,
            w.value is None,
    {
        WithInputFromWrapper { system: self, value: None }
    }
}

impl<F: SystemFunction<()>> System for FunctionSystem<F> {
    type Out = F::Out;

    open spec fn params(&self) -> Seq<ParamView> {
        self.spec_params()
    }

    open spec fn is_initialized(&self) -> bool {
        self.spec_initialized()
    }

    open spec fn can_initialize(&self) -> bool {
        conflict_free(self.spec_params())
    }

    open spec fn spec_output(&self) -> F::Out {
        self.spec_func().spec_call(())
    }

    open spec fn spec_output_after_init(&self, world: WorldView) -> F::Out {
        self.spec_output()
    }

    open spec fn spec_output_after_run(&self) -> F::Out {
        self.spec_output()
    }

    proof fn lemma_conflict_free_initializes(&self) {
    }

    fn initialize(&mut self, world: &mut World)
        ensures
            final(self).spec_func() == old(self).spec_func(),
            final(world)@ == old(world)@,
    {
        self.initialize_params(world);
    }

    fn run(&mut self, world: &mut World) -> (r: Result<F::Out, RunSystemError>)
        ensures
            *final(self) == *old(self),
            first_invalid(old(self).params(), old(world)@) matches Some(i) ==> r
                == Err::<F::Out, RunSystemError>(RunSystemError::InvalidParam(i as usize)),
    {
        proof {
            lemma_first_invalid_none(self.spec_params(), world@);
        }
        self.run_with(&(), world)
    }
}

/// A system that passes a value it keeps to its function on each run. The
/// function returns the value to keep for the next run (what it made of its
/// input) beside the output of the run.
pub struct WithInputWrapper<F, T> {
    pub system: FunctionSystem<F>,
    pub value: T,
}

impl<F, T> WithInputWrapper<F, T> {
    /// The value kept for the next run.
    pub fn value(&self) -> (v: &T)
        ensures
            *v == self.value,
    {
        &self.value
    }
}

impl<F: SystemFunction<T, Out = (T, O)>, T, O> System for WithInputWrapper<F, T> {
    type Out = O;

    open spec fn params(&self) -> Seq<ParamView> {
        self.system.spec_params()
    }

    open spec fn is_initialized(&self) -> bool {
        self.system.spec_initialized()
    }

    open spec fn can_initialize(&self) -> bool {
        conflict_free(self.system.spec_params())
    }

    open spec fn spec_output(&self) -> O {
        self.system.spec_func().spec_call(self.value).1
    }

    open spec fn spec_output_after_init(&self, world: WorldView) -> O {
        self.spec_output()
    }

    open spec fn spec_output_after_run(&self) -> O {
        let f = self.system.spec_func();
        f.spec_call(f.spec_call(self.value).0).1
    }

    proof fn lemma_conflict_free_initializes(&self) {
    }

    fn initialize(&mut self, world: &mut World)
        ensures
            final(self).value == old(self).value,
            final(self).system.spec_func() == old(self).system.spec_func(),
            final(world)@ == old(world)@,
    {
        self.system.initialize_params(world);
    }

    fn run(&mut self, world: &mut World) -> (r: Result<O, RunSystemError>)
        ensures
            final(self).system == old(self).system,
            first_invalid(old(self).params(), old(world)@) matches Some(i) ==> r
                == Err::<O, RunSystemError>(RunSystemError::InvalidParam(i as usize)),
            r is Ok ==> final(self).value == old(self).system.spec_func().spec_call(old(self).value).0,
            r is Err ==> final(self).value == old(self).value,
    {
        proof {
            lemma_first_invalid_none(self.system.spec_params(), world@);
        }
        match self.system.run_with(&self.value, world) {
            Ok(v) => {
                let (kept, out) = v;
                self.value = kept;
                Ok(out)
            },
            Err(e) => Err(e),
        }
    }
}

/// A system whose kept value is built from the world when it is initialized.
pub struct WithInputFromWrapper<F, T> {
    pub system: FunctionSystem<F>,
    pub value: Option<T>,
}

impl<F, T> WithInputFromWrapper<F, T> {
    /// The value kept for the next run, once built.
    pub fn value(&self) -> (v: Option<&T>)
        ensures
            v == match self.value {
                Some(x) => Some(&x),
                None => None::<&T>,
            },
    {
        match &self.value {
            Some(x) => Some(x),
            None => None,
        }
    }
}

impl<F: SystemFunction<T, Out = (T, O)>, T: FromWorld, O> System for WithInputFromWrapper<F, T> {
    type Out = O;

    open spec fn params(&self) -> Seq<ParamView> {
        self.system.spec_params()
    }

    open spec fn is_initialized(&self) -> bool {
        self.system.spec_initialized() && self.value is Some
    }

    open spec fn can_initialize(&self) -> bool {
        conflict_free(self.system.spec_params())
    }

    open spec fn spec_output(&self) -> O {
        self.system.spec_func().spec_call(self.value->0).1
    }

    open spec fn spec_output_after_init(&self, world: WorldView) -> O {
        let kept = match self.value {
            Some(v) => v,
            None => T::spec_from_world(world),
        };
        self.system.spec_func().spec_call(kept).1
    }

    open spec fn spec_output_after_run(&self) -> O {
        let f = self.system.spec_func();
        f.spec_call(f.spec_call(self.value->0).0).1
    }

    proof fn lemma_conflict_free_initializes(&self) {
    }

    fn initialize(&mut self, world: &mut World)
        ensures
            final(self).system.spec_func() == old(self).system.spec_func(),
            final(self).value == match old(self).value {
                Some(v) => Some(v),
                None => Some(T::spec_from_world(old(world)@)),
            },
            old(self).value is Some ==> final(world)@ == old(world)@,
    {
        let ghost f = self.system.spec_func();
        self.system.initialize_params(world);
        if self.value.is_none() {
            let v = T::from_world(world);
            self.value = Some(v);
        }
        assert(self.system.spec_func() == f);
    }

    fn run(&mut self, world: &mut World) -> (r: Result<O, RunSystemError>)
        ensures
            final(self).system == old(self).system,
            first_invalid(old(self).params(), old(world)@) matches Some(i) ==> r
                == Err::<O, RunSystemError>(RunSystemError::InvalidParam(i as usize)),
            r is Ok ==> final(self).value == Some(
                old(self).system.spec_func().spec_call(old(self).value->0).0,
            ),
            r is Err ==> final(self).value == old(self).value,
    {
        proof {
            lemma_first_invalid_none(self.system.spec_params(), world@);
        }
        let current = self.value.take();
        match current {
            Some(x) => {
                let r = self.system.run_with(&x, world);
                match r {
                    Ok(v) => {
                        let (kept, out) = v;
                        self.value = Some(kept);
                        Ok(out)
                    },
                    Err(e) => {
                        self.value = Some(x);
                        Err(e)
                    },
                }
            },
            None => Err(RunSystemError::InvalidParam(0)),
        }
    }
}

/// A system that runs `a`, then passes its output to the function of `b`; its
/// output is what `b` returns. It fails when either part's parameters cannot
/// be fetched.
pub struct PipeSystem<A, F> {
    pub a: A,
    pub b: FunctionSystem<F>,
}

impl<A: System, F: SystemFunction<A::Out>> System for PipeSystem<A, F> {
    type Out = F::Out;

    open spec fn params(&self) -> Seq<ParamView> {
        self.a.params() + self.b.spec_params()
    }

    open spec fn is_initialized(&self) -> bool {
        self.a.is_initialized() && self.b.spec_initialized()
    }

    open spec fn can_initialize(&self) -> bool {
        self.a.can_initialize() && conflict_free(self.b.spec_params())
    }

    open spec fn spec_output(&self) -> F::Out {
        self.b.spec_func().spec_call(self.a.spec_output())
    }

    open spec fn spec_output_after_init(&self, world: WorldView) -> F::Out {
        self.b.spec_func().spec_call(self.a.spec_output_after_init(world))
    }

    open spec fn spec_output_after_run(&self) -> F::Out {
        self.b.spec_func().spec_call(self.a.spec_output_after_run())
    }

    proof fn lemma_conflict_free_initializes(&self) {
        let pa = self.a.params();
        let pb = self.b.spec_params();
        let ps = pa + pb;
        assert(conflict_free(pa)) by {
            assert forall|i: int| 0 <= i < pa.len() implies !(#[trigger] pa[i]).self_conflicting by {
                assert(ps[i] == pa[i]);
            }
            assert forall|i: int, j: int| 0 <= i < j < pa.len() implies compatible(
                #[trigger] pa[i].access,
                #[trigger] pa[j].access,
            ) by {
                assert(ps[i] == pa[i]);
                assert(ps[j] == pa[j]);
            }
        }
        assert(conflict_free(pb)) by {
            assert forall|i: int| 0 <= i < pb.len() implies !(#[trigger] pb[i]).self_conflicting by {
                assert(ps[pa.len() + i] == pb[i]);
            }
            assert forall|i: int, j: int| 0 <= i < j < pb.len() implies compatible(
                #[trigger] pb[i].access,
                #[trigger] pb[j].access,
            ) by {
                assert(ps[pa.len() + i] == pb[i]);
                assert(ps[pa.len() + j] == pb[j]);
            }
        }
        self.a.lemma_conflict_free_initializes();
    }

    fn initialize(&mut self, world: &mut World)
        ensures
            final(self).b.spec_func() == old(self).b.spec_func(),
    {
        self.a.initialize(world);
        self.b.initialize_params(world);
    }

    fn run(&mut self, world: &mut World) -> (r: Result<F::Out, RunSystemError>)
        ensures
            final(self).b == old(self).b,
    {
        let x = match self.a.run(world) {
            Ok(x) => x,
            Err(e) => {
                proof {
                    lemma_params_valid_append(self.a.params(), self.b.spec_params(), world@);
                }
                return Err(e);
            },
        };
        proof {
            lemma_params_valid_append(self.a.params(), self.b.spec_params(), world@);
            lemma_first_invalid_none(self.b.spec_params(), world@);
        }
        self.b.run_with(&x, world)
    }
}

/// A system that runs `a` and passes its output to the function `f`; its
/// output is what `f` returns.
pub struct AdapterSystem<A, F> {
    pub a: A,
    pub f: F,
}

impl<A: System, F: SystemFunction<A::Out>> System for AdapterSystem<A, F> {
    type Out = F::Out;

    open spec fn params(&self) -> Seq<ParamView> {
        self.a.params()
    }

    open spec fn is_initialized(&self) -> bool {
        self.a.is_initialized()
    }

    open spec fn can_initialize(&self) -> bool {
        self.a.can_initialize()
    }

    open spec fn spec_output(&self) -> F::Out {
        self.f.spec_call(self.a.spec_output())
    }

    open spec fn spec_output_after_init(&self, world: WorldView) -> F::Out {
        self.f.spec_call(self.a.spec_output_after_init(world))
    }

    open spec fn spec_output_after_run(&self) -> F::Out {
        self.f.spec_call(self.a.spec_output_after_run())
    }

    proof fn lemma_conflict_free_initializes(&self) {
        self.a.lemma_conflict_free_initializes();
    }

    fn initialize(&mut self, world: &mut World)
        ensures
            final(self).f == old(self).f,
    {
        self.a.initialize(world);
    }

    fn run(&mut self, world: &mut World) -> (r: Result<F::Out, RunSystemError>)
        ensures
            final(self).f == old(self).f,
    {
        match self.a.run(world) {
            Ok(x) => Ok(self.f.call(&x)),
            Err(e) => Err(e),
        }
    }
}

/// The parameters of two lists, one after the other, can all be fetched
/// exactly when those of each list can.
pub proof fn lemma_params_valid_append(a: Seq<ParamView>, b: Seq<ParamView>, w: WorldView)
    ensures
        params_valid(a + b, w) <==> (params_valid(a, w) && params_valid(b, w)),
{
    let ps = a + b;
    if params_valid(ps, w) {
        assert forall|i: int| 0 <= i < a.len() implies param_valid(#[trigger] a[i], w) by {
            assert(ps[i] == a[i]);
        }
        assert forall|i: int| 0 <= i < b.len() implies param_valid(#[trigger] b[i], w) by {
            assert(ps[a.len() + i] == b[i]);
        }
    }
    if params_valid(a, w) && params_valid(b, w) {
        assert forall|i: int| 0 <= i < ps.len() implies param_valid(#[trigger] ps[i], w) by {
            if i < a.len() {
                assert(ps[i] == a[i]);
            } else {
                assert(ps[i] == b[i - a.len()]);
            }
        }
    }
}

/// Conversion into a [`System`]. Every system converts into itself.
pub trait IntoSystem: Sized {
    /// The system this value turns into.
    type System: System;

    /// Turns this value into its system.
    fn into_system(this: Self) -> Self::System;

    /// The system that passes the output of this one to the function of `b`.
    fn pipe<F>(self, b: FunctionSystem<F>) -> PipeSystem<Self::System, F>;

    /// The system that passes the output of this one to `f`, and returns what
    /// `f` returns.
    fn map<F>(self, f: F) -> AdapterSystem<Self::System, F>;
}

impl<S: System> IntoSystem for S {
    type System = S;

    fn into_system(this: S) -> (s: S)
        ensures
            s == this,
    {
        this
    }

    fn pipe<F>(self, b: FunctionSystem<F>) -> (p: PipeSystem<S, F>)
        ensures
            p.a == self,
            p.b == b,
    {
        PipeSystem { a: self, b }
    }

    fn map<F>(self, f: F) -> (m: AdapterSystem<S, F>)
        ensures
            m.a == self,
            m.f == f,
    {
        AdapterSystem { a: self, f }
    }
}

/// A read-only system never conflicts with itself: a conflict needs a write.
pub proof fn law_read_only_never_conflicts(ps: Seq<ParamView>)
    requires
        read_only(ps),
    ensures
        conflict_free(ps),
{
    assert forall|i: int, j: int| 0 <= i < j < ps.len() implies compatible(
        #[trigger] ps[i].access,
        #[trigger] ps[j].access,
    ) by {
        assert(param_read_only(ps[i]));
        assert(param_read_only(ps[j]));
        assert(!crate::access::kind_conflict(ps[i].access.components, ps[j].access.components)
            && !crate::access::kind_conflict(ps[i].access.resources, ps[j].access.resources)) by {
            if crate::access::kind_conflict(ps[i].access.components, ps[j].access.components) {
                if exists|x: u64| #[trigger] crate::access::writes_id(ps[i].access.components, x)
                    && crate::access::reads_id(ps[j].access.components, x) {
                    let x = choose|x: u64| #[trigger] crate::access::writes_id(ps[i].access.components, x)
                        && crate::access::reads_id(ps[j].access.components, x);
                    assert(writes_anything(ps[i].access.components));
                } else {
                    let x = choose|x: u64| #[trigger] crate::access::writes_id(ps[j].access.components, x)
                        && crate::access::reads_id(ps[i].access.components, x);
                    assert(writes_anything(ps[j].access.components));
                }
            }
            if crate::access::kind_conflict(ps[i].access.resources, ps[j].access.resources) {
                if exists|x: u64| #[trigger] crate::access::writes_id(ps[i].access.resources, x)
                    && crate::access::reads_id(ps[j].access.resources, x) {
                    let x = choose|x: u64| #[trigger] crate::access::writes_id(ps[i].access.resources, x)
                        && crate::access::reads_id(ps[j].access.resources, x);
                    assert(writes_anything(ps[i].access.resources));
                } else {
                    let x = choose|x: u64| #[trigger] crate::access::writes_id(ps[j].access.resources, x)
                        && crate::access::reads_id(ps[i].access.resources, x);
                    assert(writes_anything(ps[j].access.resources));
                }
            }
        }
    }
}

/// Checks that `system` is a valid system: turns it into its system and
/// initializes it on a new world. A system whose initialization finds a
/// conflict (a query whose terms conflict, or two parameters that conflict) is
/// not valid (the check fails on it), so initialization must find none.
pub fn assert_is_system<S: System>(system: S)
    requires
        system.can_initialize(),
{
    let mut system = IntoSystem::into_system(system);
    let mut world = World::new();
    system.initialize(&mut world);
}

/// Checks that `system` is a valid read-only system: none of its parameters
/// writes anything. Such a system never conflicts with itself.
pub fn assert_is_read_only_system<S: System>(system: S)
    requires
        read_only(system.params()),
{
    proof {
        law_read_only_never_conflicts(system.params());
        system.lemma_conflict_free_initializes();
    }
    assert_is_system(system);
}

/// Checks that `sys` does not conflict with itself and runs on an empty world:
/// initializes it on a new world and runs it once, which must succeed.
pub fn assert_system_does_not_conflict<S: System>(sys: S)
    requires
        sys.can_initialize(),
        params_valid(sys.params(), World::spec_empty()),
{
    let mut world = World::new();
    let mut system = IntoSystem::into_system(sys);
    system.initialize(&mut world);
    let r = system.run(&mut world);
    assert(r is Ok);
}

} // verus!
