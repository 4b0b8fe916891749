//! Small helpers over vectors of numeric identifiers (entities, components, resources).

use vstd::prelude::*;

verus! {

/// The set of identifiers held by a vector.
pub open spec fn id_set(v: Seq<u64>) -> Set<u64> {
    Set::new(|x: u64| v.contains(x))
}

/// Whether `v` holds `x`.
pub fn contains_id(v: &Vec<u64>, x: u64) -> (found: bool)
    ensures
        found == v@.contains(x),
{
    let mut i: usize = 0;
    while i < v.len()
        invariant
            i <= v.len(),
            forall|k: int| 0 <= k < i ==> v@[k] != x,
        decreases v.len() - i,
    {
        if v[i] == x {
            return true;
        }
        i = i + 1;
    }
    false
}

/// A copy of the vector.
pub fn copy_ids(v: &Vec<u64>) -> (r: Vec<u64>)
    ensures
        r@ == v@,
{
    let mut r: Vec<u64> = Vec::new();
    let mut i: usize = 0;
    while i < v.len()
        invariant
            i <= v.len(),
            r@ == v@.take(i as int),
        decreases v.len() - i,
    {
        r.push(v[i]);
        i = i + 1;
        assert(r@ =~= v@.take(i as int));
    }
    assert(v@.take(v.len() as int) =~= v@);
    r
}

/// Whether no identifier occurs in both vectors.
pub fn ids_disjoint(a: &Vec<u64>, b: &Vec<u64>) -> (r: bool)
    ensures
        r == (forall|x: u64| !(#[trigger] a@.contains(x) && b@.contains(x))),
{
    let mut i: usize = 0;
    while i < a.len()
        invariant
            i <= a.len(),
            forall|k: int| 0 <= k < i ==> !b@.contains(#[trigger] a@[k]),
        decreases a.len() - i,
    {
        if contains_id(b, a[i]) {
            assert(a@.contains(a@[i as int]));
            return false;
        }
        i = i + 1;
    }
    assert forall|x: u64| !(#[trigger] a@.contains(x) && b@.contains(x)) by {
        if a@.contains(x) {
            let k = choose|k: int| 0 <= k < a@.len() && a@[k] == x;
            assert(!b@.contains(a@[k]));
        }
    }
    true
}

/// Appends `x` unless it is already present; the set of held ids gains `x`.
pub fn push_unique(v: &mut Vec<u64>, x: u64)
    ensures
        id_set(final(v)@) == id_set(old(v)@).insert(x),
        old(v)@.contains(x) ==> final(v)@ == old(v)@,
        !old(v)@.contains(x) ==> final(v)@ == old(v)@.push(x),
{
    if !contains_id(v, x) {
        v.push(x);
        assert forall|y: u64| id_set(v@).contains(y) == id_set(old(v)@).insert(x).contains(y) by {
            if y != x && v@.contains(y) {
                let k = choose|k: int| 0 <= k < v@.len() && v@[k] == y;
                assert(old(v)@[k] == y);
            }
            if old(v)@.contains(y) {
                let k = choose|k: int| 0 <= k < old(v)@.len() && old(v)@[k] == y;
                assert(v@[k] == y);
            }
            if y == x {
                assert(v@[v@.len() - 1] == x);
            }
        }
        assert(id_set(v@) =~= id_set(old(v)@).insert(x));
    } else {
        assert(id_set(v@) =~= id_set(old(v)@).insert(x));
    }
}

/// Adds every identifier of `other` to `v`.
pub fn extend_ids(v: &mut Vec<u64>, other: &Vec<u64>)
    ensures
        id_set(final(v)@) == id_set(old(v)@).union(id_set(other@)),
{
    let mut i: usize = 0;
    while i < other.len()
        invariant
            i <= other.len(),
            id_set(v@) == id_set(old(v)@).union(id_set(other@.take(i as int))),
        decreases other.len() - i,
    {
        push_unique(v, other[i]);
        proof {
            lemma_id_set_take_step(other@, i as int);
        }
        i = i + 1;
        assert(id_set(v@) =~= id_set(old(v)@).union(id_set(other@.take(i as int))));
    }
    assert(other@.take(other.len() as int) =~= other@);
}

/// The id set of a one-element sequence.
pub proof fn lemma_id_set_single(x: u64)
    ensures
        id_set(seq![x]) == Set::<u64>::empty().insert(x),
{
    assert forall|y: u64| id_set(seq![x]).contains(y) == Set::<u64>::empty().insert(x).contains(y) by {
        if y == x {
            assert(seq![x][0] == y);
        }
    }
    assert(id_set(seq![x]) =~= Set::<u64>::empty().insert(x));
}

/// Taking one more element of a sequence adds that element to its id set.
pub proof fn lemma_id_set_take_step(s: Seq<u64>, i: int)
    requires
        0 <= i < s.len(),
    ensures
        id_set(s.take(i + 1)) == id_set(s.take(i)).insert(s[i]),
{
    assert(s.take(i + 1) =~= s.take(i).push(s[i]));
    assert forall|y: u64| id_set(s.take(i + 1)).contains(y) == id_set(s.take(i)).insert(s[i]).contains(y) by {
        if s.take(i).contains(y) {
            let k = choose|k: int| 0 <= k < s.take(i).len() && #[trigger] s.take(i)[k] == y;
            assert(s.take(i + 1)[k] == y);
        }
        if s.take(i + 1).contains(y) && y != s[i] {
            let k = choose|k: int| 0 <= k < s.take(i + 1).len() && #[trigger] s.take(i + 1)[k] == y;
            assert(k != i);
            assert(s.take(i)[k] == y);
        }
        if y == s[i] {
            assert(s.take(i + 1)[i] == y);
        }
    }
    assert(id_set(s.take(i + 1)) =~= id_set(s.take(i)).insert(s[i]));
}

} // verus!
