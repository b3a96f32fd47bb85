//! Orders of merit: the starting grid after qualifying and the running order
//! of the race. Both rank the sessions by a key, smaller first, and leave
//! sessions with equal keys in the order of the roster.

use vstd::prelude::*;
use vstd::relations::injective_on;
use vstd::set_lib::*;

verus! {

/// Whether the session at `j` comes before the session at `i`: its key is
/// smaller, or the keys are equal and it stands earlier in the roster.
pub open spec fn comes_before(keys: Seq<int>, j: int, i: int) -> bool {
    keys[j] < keys[i] || (keys[j] == keys[i] && j < i)
}

/// How many of the first `n` sessions come before the session at `i`.
pub open spec fn ahead_of(keys: Seq<int>, i: int, n: int) -> nat
    decreases n,
{
    if n <= 0 {
        0
    } else {
        ahead_of(keys, i, n - 1) + if comes_before(keys, n - 1, i) {
            1nat
        } else {
            0nat
        }
    }
}

/// The place of the session at `i`, counted from one: one more than the
/// number of sessions that come before it.
pub open spec fn place(keys: Seq<int>, i: int) -> nat {
    1 + ahead_of(keys, i, keys.len() as int)
}

/// Whether some session has the place `k`.
pub open spec fn place_taken(keys: Seq<int>, k: int) -> bool {
    exists|i: int| 0 <= i < keys.len() && #[trigger] place(keys, i) == k
}

/// The keys as numbers without bound.
pub open spec fn keys_of(keys: Seq<i128>) -> Seq<int> {
    Seq::new(keys.len(), |i: int| keys[i] as int)
}

/// At most `n` of the first `n` sessions come before any session.
pub proof fn ahead_of_bounded(keys: Seq<int>, i: int, n: int)
    requires
        0 <= n,
    ensures
        ahead_of(keys, i, n) <= n,
    decreases n,
{
    if n > 0 {
        ahead_of_bounded(keys, i, n - 1);
    }
}

/// A session does not come before itself, so among the first `n` sessions,
/// with `i` one of them, fewer than `n` come before `i`.
pub proof fn ahead_of_excludes_self(keys: Seq<int>, i: int, n: int)
    requires
        0 <= i < n,
    ensures
        ahead_of(keys, i, n) < n,
    decreases n,
{
    if n - 1 == i {
        ahead_of_bounded(keys, i, n - 1);
    } else {
        ahead_of_excludes_self(keys, i, n - 1);
    }
}

/// Where `a` comes before `b`, whatever comes before `a` comes before `b`;
/// and `a` itself comes before `b` but not before `a`. So more sessions come
/// before `b` than before `a`.
pub proof fn ahead_of_grows(keys: Seq<int>, a: int, b: int, n: int)
    requires
        0 <= a < keys.len(),
        0 <= b < keys.len(),
        0 <= n <= keys.len(),
        comes_before(keys, a, b),
    ensures
        ahead_of(keys, a, n) <= ahead_of(keys, b, n),
        a < n ==> ahead_of(keys, a, n) < ahead_of(keys, b, n),
    decreases n,
{
    if n > 0 {
        ahead_of_grows(keys, a, b, n - 1);
    }
}

/// The places are a permutation of `1..=N` that follows the keys: every place
/// lies in that range, no two sessions share a place, every place in the range
/// is taken, and a session with a smaller key has a smaller place.
#[verifier::rlimit(50)]
pub proof fn places_are_a_permutation(keys: Seq<int>)
    ensures
        forall|i: int| 0 <= i < keys.len() ==> 1 <= #[trigger] place(keys, i) <= keys.len(),
        forall|i: int, j: int|
            0 <= i < keys.len() && 0 <= j < keys.len() && i != j ==> #[trigger] place(keys, i)
                != #[trigger] place(keys, j),
        forall|k: int| 1 <= k <= keys.len() ==> #[trigger] place_taken(keys, k),
        forall|i: int, j: int|
            0 <= i < keys.len() && 0 <= j < keys.len() && keys[i] < keys[j] ==> #[trigger] place(
                keys,
                i,
            ) < #[trigger] place(keys, j),
{
    let n = keys.len() as int;
    assert forall|i: int| 0 <= i < n implies 1 <= #[trigger] place(keys, i) <= n by {
        ahead_of_excludes_self(keys, i, n);
    }
    assert forall|i: int, j: int| 0 <= i < n && 0 <= j < n && i != j implies #[trigger] place(
        keys,
        i,
    ) != #[trigger] place(keys, j) by {
        if comes_before(keys, i, j) {
            ahead_of_grows(keys, i, j, n);
        } else {
            assert(comes_before(keys, j, i));
            ahead_of_grows(keys, j, i, n);
        }
    }
    assert forall|i: int, j: int| 0 <= i < n && 0 <= j < n && keys[i] < keys[j] implies #[trigger] place(
        keys,
        i,
    ) < #[trigger] place(keys, j) by {
        ahead_of_grows(keys, i, j, n);
    }
    let roster = set_int_range(0, n);
    let range = set_int_range(1, n + 1);
    let taken = roster.map(|i: int| place(keys, i) as int);
    lemma_int_range(0, n);
    lemma_int_range(1, n + 1);
    assert(injective_on(|i: int| place(keys, i) as int, roster));
    lemma_map_size(roster, taken, |i: int| place(keys, i) as int);
    assert(taken.subset_of(range)) by {
        assert forall|k: int| taken.contains(k) implies range.contains(k) by {
            let i = choose|i: int| roster.contains(i) && k == place(keys, i) as int;
            assert(1 <= place(keys, i) <= n);
        }
    }
    lemma_subset_equality(taken, range);
    assert forall|k: int| 1 <= k <= n implies #[trigger] place_taken(keys, k) by {
        assert(range.contains(k));
        assert(taken.contains(k));
        let i = choose|i: int| roster.contains(i) && k == place(keys, i) as int;
        assert(0 <= i < n && place(keys, i) == k);
    }
}

/// The place of every session, in the order of the roster.
pub fn places(keys: &Vec<i128>) -> (r: Vec<usize>)
    ensures
        r@.len() == keys@.len(),
        forall|i: int| 0 <= i < keys@.len() ==> #[trigger] r@[i] == place(keys_of(keys@), i),
{
    let n = keys.len();
    let ghost model = keys_of(keys@);
    let mut out: Vec<usize> = Vec::new();
    let mut i: usize = 0;
    while i < n
        invariant
            i <= n,
            n == keys@.len(),
            model == keys_of(keys@),
            out@.len() == i,
            forall|k: int| 0 <= k < i ==> #[trigger] out@[k] == place(model, k),
        decreases n - i,
    {
        let mut ahead: usize = 0;
        let mut j: usize = 0;
        while j < n
            invariant
                j <= n,
                i < n,
                n == keys@.len(),
                model == keys_of(keys@),
                ahead == ahead_of(model, i as int, j as int),
                ahead <= j,
            decreases n - j,
        {
            if keys[j] < keys[i] || (keys[j] == keys[i] && j < i) {
                ahead += 1;
            }
            j += 1;
        }
        proof {
            ahead_of_excludes_self(model, i as int, n as int);
        }
        out.push(ahead + 1);
        i += 1;
    }
    out
}

} // verus!
