//! Lists of flags and how many of them are set.

use vstd::prelude::*;

verus! {

/// How many entries of a list of flags are set.
pub open spec fn count_true(flags: Seq<bool>) -> nat
    decreases flags.len(),
{
    if flags.len() == 0 {
        0
    } else {
        count_true(flags.drop_last()) + if flags.last() {
            1nat
        } else {
            0nat
        }
    }
}

/// No flag of a fresh list is set.
pub proof fn lemma_count_fresh(n: nat)
    ensures
        count_true(Seq::new(n, |i: int| false)) == 0,
    decreases n,
{
    if n > 0 {
        lemma_count_fresh((n - 1) as nat);
        assert(Seq::new(n, |i: int| false).drop_last() =~= Seq::new(
            (n - 1) as nat,
            |i: int| false,
        ));
    }
}

/// No more flags are set than there are.
pub proof fn lemma_count_bound(flags: Seq<bool>)
    ensures
        count_true(flags) <= flags.len(),
    decreases flags.len(),
{
    if flags.len() > 0 {
        lemma_count_bound(flags.drop_last());
    }
}

/// Where every flag from `k` on is clear and one before `k` is clear too,
/// fewer than `k` are set.
pub proof fn lemma_count_room(flags: Seq<bool>, k: int, j: int)
    requires
        0 <= j < k <= flags.len(),
        !flags[j],
        forall|i: int| k <= i < flags.len() ==> !flags[i],
    ensures
        count_true(flags) < k,
    decreases flags.len(),
{
    if flags.len() > k {
        lemma_count_room(flags.drop_last(), k, j);
    } else if j == k - 1 {
        lemma_count_bound(flags.drop_last());
    } else {
        lemma_count_room(flags.drop_last(), k - 1, j);
    }
}

/// Where every flag from `k` on is clear, at most `k` are set.
pub proof fn lemma_count_prefix(flags: Seq<bool>, k: int)
    requires
        0 <= k <= flags.len(),
        forall|i: int| k <= i < flags.len() ==> !flags[i],
    ensures
        count_true(flags) <= k,
    decreases flags.len(),
{
    if flags.len() > k {
        lemma_count_prefix(flags.drop_last(), k);
    } else {
        lemma_count_bound(flags);
    }
}

/// Setting a clear flag raises the count by one.
pub proof fn lemma_count_set(flags: Seq<bool>, index: int)
    requires
        0 <= index < flags.len(),
        !flags[index],
    ensures
        count_true(flags.update(index, true)) == count_true(flags) + 1,
    decreases flags.len(),
{
    let after = flags.update(index, true);
    if index == flags.len() - 1 {
        assert(after.drop_last() =~= flags.drop_last());
    } else {
        lemma_count_set(flags.drop_last(), index);
        assert(after.drop_last() =~= flags.drop_last().update(index, true));
    }
}

/// The place of the first flag that is set, if one is.
pub open spec fn first_true(flags: Seq<bool>) -> Option<int>
    decreases flags.len(),
{
    if flags.len() == 0 {
        None
    } else {
        match first_true(flags.drop_last()) {
            Some(i) => Some(i),
            None => if flags.last() {
                Some(flags.len() - 1)
            } else {
                None
            },
        }
    }
}

/// The first flag that is set is set, and none before it is.
pub proof fn lemma_first_true(flags: Seq<bool>)
    ensures
        match first_true(flags) {
            Some(i) => 0 <= i < flags.len() && flags[i] && forall|j: int| 0 <= j < i ==> !flags[j],
            None => forall|j: int| 0 <= j < flags.len() ==> !flags[j],
        },
    decreases flags.len(),
{
    if flags.len() > 0 {
        let front = flags.drop_last();
        lemma_first_true(front);
        match first_true(front) {
            Some(i) => {
                assert(flags[i] == front[i]);
                assert forall|j: int| 0 <= j < i implies !flags[j] by {
                    assert(flags[j] == front[j]);
                }
            },
            None => {
                assert forall|j: int| 0 <= j < flags.len() - 1 implies !flags[j] by {
                    assert(flags[j] == front[j]);
                }
            },
        }
    }
}

/// Setting a flag makes it the first one set unless an earlier one is.
pub proof fn lemma_first_set(flags: Seq<bool>, index: int)
    requires
        0 <= index < flags.len(),
    ensures
        first_true(flags.update(index, true)) == Some(
            match first_true(flags) {
                Some(j) => if j < index {
                    j
                } else {
                    index
                },
                None => index,
            },
        ),
{
    let after = flags.update(index, true);
    let expected = match first_true(flags) {
        Some(j) => if j < index {
            j
        } else {
            index
        },
        None => index,
    };
    lemma_first_true(flags);
    lemma_first_true(after);
    assert(after[expected]);
    assert forall|k: int| 0 <= k < expected implies !after[k] by {
        assert(after[k] == flags[k]);
    }
    match first_true(after) {
        Some(i) => {
            if i < expected {
                assert(!after[i]);
            } else if expected < i {
                assert(after[expected]);
            }
        },
        None => {
            assert(after[index]);
        },
    }
}

/// A list of `n` flags, none of them set.
pub fn cleared(n: usize) -> (r: Vec<bool>)
    ensures
        r@ == Seq::new(n as nat, |i: int| false),
{
    let mut r: Vec<bool> = Vec::new();
    let mut i: usize = 0;
    while i < n
        invariant
            i <= n,
            r.len() == i,
            forall|j: int| 0 <= j < i ==> !r[j],
        decreases n - i,
    {
        r.push(false);
        i = i + 1;
    }
    assert(r@ =~= Seq::new(n as nat, |i: int| false));
    r
}

} // verus!
