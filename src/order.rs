use vstd::prelude::*;

verus! {

/// Index at which an item with key `k` goes into `s`: after every leading item
/// whose key is at most `k`.
pub open spec fn insertion_point<T>(s: Seq<T>, key: spec_fn(T) -> int, k: int, p: int) -> int
    decreases s.len() - p,
{
    if p < 0 || p >= s.len() || key(s[p]) > k {
        p
    } else {
        insertion_point(s, key, k, p + 1)
    }
}

/// `s` sorted by `key`; items with equal keys keep their order in `s`.
pub open spec fn sort_stably<T>(s: Seq<T>, key: spec_fn(T) -> int) -> Seq<T>
    decreases s.len(),
{
    if s.len() == 0 {
        seq![]
    } else {
        let t = sort_stably(s.drop_last(), key);
        t.insert(insertion_point(t, key, key(s.last()), 0), s.last())
    }
}

/// Each item's key is at most the next one's.
pub open spec fn ascending<T>(s: Seq<T>, key: spec_fn(T) -> int) -> bool {
    forall|i: int, j: int| 0 <= i <= j < s.len() ==> key(#[trigger] s[i]) <= key(#[trigger] s[j])
}

proof fn lemma_insertion_point_bounds<T>(s: Seq<T>, key: spec_fn(T) -> int, k: int, p: int)
    requires
        0 <= p <= s.len(),
        ascending(s, key),
        forall|i: int| 0 <= i < p ==> key(#[trigger] s[i]) <= k,
    ensures
        p <= insertion_point(s, key, k, p) <= s.len(),
        forall|i: int| 0 <= i < insertion_point(s, key, k, p) ==> key(#[trigger] s[i]) <= k,
        forall|i: int| insertion_point(s, key, k, p) <= i < s.len() ==> key(#[trigger] s[i]) > k,
    decreases s.len() - p,
{
    if p < s.len() && key(s[p]) <= k {
        lemma_insertion_point_bounds(s, key, k, p + 1);
    }
}

/// What the stable sort returns is in ascending key order.
pub proof fn sort_stably_ascends<T>(s: Seq<T>, key: spec_fn(T) -> int)
    ensures
        ascending(sort_stably(s, key), key),
        sort_stably(s, key).len() == s.len(),
    decreases s.len(),
{
    if s.len() > 0 {
        let t = sort_stably(s.drop_last(), key);
        sort_stably_ascends(s.drop_last(), key);
        let x = s.last();
        lemma_insertion_point_bounds(t, key, key(x), 0);
        let p = insertion_point(t, key, key(x), 0);
        let u = t.insert(p, x);
        assert forall|i: int, j: int| 0 <= i <= j < u.len() implies key(#[trigger] u[i]) <= key(
            #[trigger] u[j],
        ) by {
            if i < p && j < p {
            } else if i < p && j == p {
            } else if i < p {
                assert(u[j] == t[j - 1]);
            } else if i == p && j == p {
            } else if i == p {
                assert(u[j] == t[j - 1]);
            } else {
                assert(u[i] == t[i - 1]);
                assert(u[j] == t[j - 1]);
            }
        }
    }
}

} // verus!
