//! Choosing which sentences make up a summary.
//!
//! A sentence's score enters as a key, an integer that orders as the score
//! does: a larger key is a better score. Of two sentences with equal keys the
//! earlier one ranks higher.

use vstd::prelude::*;

verus! {

/// The number of sentences a summary keeps: the rounded product of sentence
/// count and ratio, held between one and the number of sentences.
pub open spec fn spec_summary_size(n: nat, rounded: nat) -> nat {
    let at_least_one = if rounded < 1 {
        1
    } else {
        rounded
    };
    if at_least_one > n {
        n
    } else {
        at_least_one
    }
}

/// Whether sentence `i` ranks above sentence `j`.
pub open spec fn outranks(keys: Seq<u64>, i: int, j: int) -> bool {
    keys[i] > keys[j] || (keys[i] == keys[j] && i < j)
}

/// Whether `picked` is in strictly ascending order.
pub open spec fn ascending(picked: Seq<usize>) -> bool {
    forall|a: int, b: int| 0 <= a < b < picked.len() ==> picked[a] < picked[b]
}

/// Whether index `j` is among `picked`.
pub open spec fn holds(picked: Seq<usize>, j: int) -> bool {
    exists|a: int| 0 <= a < picked.len() && picked[a] == j
}

/// Whether `picked` lists, in document order, the `count` best-ranked of the
/// sentences that `keys` scores: it is ascending, and whatever it holds
/// ranks above whatever it leaves out.
pub open spec fn is_top_selection(keys: Seq<u64>, count: nat, picked: Seq<usize>) -> bool {
    &&& picked.len() == count
    &&& ascending(picked)
    &&& forall|a: int| 0 <= a < picked.len() ==> #[trigger] picked[a] < keys.len()
    &&& forall|a: int, j: int|
        #![trigger picked[a], holds(picked, j)]
        0 <= a < picked.len() && 0 <= j < keys.len() && !holds(picked, j) ==> outranks(
            keys,
            picked[a] as int,
            j,
        )
}

/// How many of `flags` are set.
pub open spec fn count_true(flags: Seq<bool>) -> nat
    decreases flags.len(),
{
    if flags.len() == 0 {
        0
    } else {
        count_true(flags.drop_last()) + if flags.last() {
            1nat
        } else {
            0nat
        }
    }
}

proof fn lemma_count_after_set(flags: Seq<bool>, i: int)
    requires
        0 <= i < flags.len(),
        !flags[i],
    ensures
        count_true(flags.update(i, true)) == count_true(flags) + 1,
    decreases flags.len(),
{
    if i == flags.len() - 1 {
        assert(flags.update(i, true).drop_last() == flags.drop_last());
    } else {
        lemma_count_after_set(flags.drop_last(), i);
        assert(flags.update(i, true).drop_last() == flags.drop_last().update(i, true));
    }
}

proof fn lemma_count_all_set(flags: Seq<bool>)
    requires
        forall|i: int| 0 <= i < flags.len() ==> flags[i],
    ensures
        count_true(flags) == flags.len(),
    decreases flags.len(),
{
    if flags.len() > 0 {
        lemma_count_all_set(flags.drop_last());
    }
}

proof fn lemma_count_none_set(flags: Seq<bool>)
    requires
        forall|i: int| 0 <= i < flags.len() ==> !flags[i],
    ensures
        count_true(flags) == 0,
    decreases flags.len(),
{
    if flags.len() > 0 {
        lemma_count_none_set(flags.drop_last());
    }
}

/// Two ascending lists that hold the same indices are the same list.
pub proof fn lemma_ascending_same_members(p: Seq<usize>, q: Seq<usize>)
    requires
        ascending(p),
        ascending(q),
        forall|j: int| holds(p, j) <==> holds(q, j),
    ensures
        p == q,
    decreases p.len(),
{
    if p.len() == 0 {
        if q.len() > 0 {
            assert(holds(q, q[0] as int));
        }
        assert(p =~= q);
    } else {
        let top = p.last();
        assert(holds(p, top as int));
        assert(holds(q, top as int));
        let b = choose|b: int| 0 <= b < q.len() && q[b] == top;
        assert(holds(q, q.last() as int));
        assert(holds(p, q.last() as int));
        assert(q.last() == top);
        assert(b == q.len() - 1);
        let p0 = p.drop_last();
        let q0 = q.drop_last();
        assert forall|j: int| holds(p0, j) <==> holds(q0, j) by {
            if holds(p0, j) {
                let a = choose|a: int| 0 <= a < p0.len() && p0[a] == j;
                assert(p[a] == j);
                assert(holds(p, j));
                let c = choose|c: int| 0 <= c < q.len() && q[c] == j;
                assert(c != q.len() - 1);
                assert(q0[c] == j);
            }
            if holds(q0, j) {
                let c = choose|c: int| 0 <= c < q0.len() && q0[c] == j;
                assert(q[c] == j);
                assert(holds(q, j));
                let a = choose|a: int| 0 <= a < p.len() && p[a] == j;
                assert(a != p.len() - 1);
                assert(p0[a] == j);
            }
        }
        lemma_ascending_same_members(p0, q0);
        assert(p =~= p0.push(top));
        assert(q =~= q0.push(top));
    }
}

proof fn lemma_top_selection_members(keys: Seq<u64>, count: nat, p: Seq<usize>, q: Seq<usize>)
    requires
        is_top_selection(keys, count, p),
        is_top_selection(keys, count, q),
    ensures
        forall|j: int| holds(p, j) ==> holds(q, j),
{
    if exists|x: int| holds(p, x) && !holds(q, x) {
        let x = choose|x: int| holds(p, x) && !holds(q, x);
        let a = choose|a: int| 0 <= a < p.len() && p[a] == x;
        assert(0 <= x < keys.len());
        // Whatever q holds, p holds too: otherwise it and x would each rank
        // above the other.
        assert forall|y: usize| q.contains(y) implies p.contains(y) by {
            let b = choose|b: int| 0 <= b < q.len() && q[b] == y;
            if !holds(p, y as int) {
                assert(outranks(keys, p[a] as int, y as int));
                assert(outranks(keys, q[b] as int, x));
            }
            let a2 = choose|a2: int| 0 <= a2 < p.len() && p[a2] == y as int;
            assert(p[a2] == y);
        }
        assert(q.to_set().subset_of(p.to_set()));
        p.unique_seq_to_set();
        q.unique_seq_to_set();
        vstd::seq_lib::seq_to_set_is_finite(p);
        vstd::seq_lib::seq_to_set_is_finite(q);
        vstd::set_lib::lemma_subset_equality(q.to_set(), p.to_set());
        assert(p.to_set().contains(p[a]));
        assert(q.contains(p[a]));
        let b = choose|b: int| 0 <= b < q.len() && q[b] == p[a];
        assert(holds(q, x));
    }
}

/// The best-ranked sentences are determined by the keys and the count: two
/// selections of the same count from the same keys are equal.
pub proof fn lemma_top_selection_unique(
    keys: Seq<u64>,
    count: nat,
    p: Seq<usize>,
    q: Seq<usize>,
)
    requires
        is_top_selection(keys, count, p),
        is_top_selection(keys, count, q),
    ensures
        p == q,
{
    lemma_top_selection_members(keys, count, p, q);
    lemma_top_selection_members(keys, count, q, p);
    lemma_ascending_same_members(p, q);
}

/// A summary keeps at least one sentence of a document that has any and
/// never more than the document has; between these bounds it keeps as many
/// as the rounded product says.
pub proof fn lemma_summary_size_bounds(n: nat, rounded: nat)
    ensures
        spec_summary_size(n, rounded) <= n,
        n >= 1 ==> spec_summary_size(n, rounded) >= 1,
        1 <= rounded <= n ==> spec_summary_size(n, rounded) == rounded,
{
}

/// The number of sentences to keep, from the number of sentences and the
/// rounded product of that number and the ratio.
pub fn summary_size(n: usize, rounded: usize) -> (size: usize)
    ensures
        size == spec_summary_size(n as nat, rounded as nat),
{
    let at_least_one: usize = if rounded < 1 {
        1
    } else {
        rounded
    };
    if at_least_one > n {
        n
    } else {
        at_least_one
    }
}

/// The best-ranked sentence among those not yet chosen.
fn best_unchosen(keys: &Vec<u64>, chosen: &Vec<bool>) -> (best: usize)
    requires
        chosen.len() == keys.len(),
        count_true(chosen@) < keys.len(),
    ensures
        best < keys.len(),
        !chosen@[best as int],
        forall|j: int|
            0 <= j < keys.len() && !chosen@[j] && j != best ==> outranks(keys@, best as int, j),
{
    let n: usize = keys.len();
    let mut best: usize = n;
    let mut j: usize = 0;
    while j < n
        invariant
            j <= n,
            n == keys.len(),
            chosen.len() == n,
            best <= n,
            best == n ==> forall|u: int| 0 <= u < j ==> chosen@[u],
            best < n ==> best < j && !chosen@[best as int],
            best < n ==> forall|u: int|
                0 <= u < j && !chosen@[u] && u != best ==> outranks(keys@, best as int, u),
        decreases n - j,
    {
        if !chosen[j] && (best == n || keys[j] > keys[best]) {
            best = j;
        }
        j += 1;
    }
    proof {
        if best == n {
            lemma_count_all_set(chosen@);
        }
    }
    best
}

/// The `count` best-ranked sentences, in document order; all of them where
/// `count` exceeds their number.
pub fn select_top(keys: &Vec<u64>, count: usize) -> (picked: Vec<usize>)
    ensures
        is_top_selection(
            keys@,
            if count <= keys.len() {
                count as nat
            } else {
                keys.len() as nat
            },
            picked@,
        ),
{
    let n: usize = keys.len();
    let want: usize = if count <= n {
        count
    } else {
        n
    };
    let mut chosen: Vec<bool> = vec![false; n];
    let mut round: usize = 0;
    proof {
        lemma_count_none_set(chosen@);
    }
    while round < want
        invariant
            round <= want <= n,
            n == keys.len(),
            chosen.len() == n,
            count_true(chosen@) == round,
            forall|i: int, j: int|
                0 <= i < n && 0 <= j < n && chosen@[i] && !chosen@[j] ==> outranks(keys@, i, j),
        decreases want - round,
    {
        let best: usize = best_unchosen(keys, &chosen);
        proof {
            lemma_count_after_set(chosen@, best as int);
        }
        chosen.set(best, true);
        round += 1;
    }
    let mut picked: Vec<usize> = Vec::new();
    let mut i: usize = 0;
    assert(chosen@.take(0) =~= Seq::<bool>::empty());
    while i < n
        invariant
            i <= n,
            n == keys.len(),
            chosen.len() == n,
            picked.len() == count_true(chosen@.take(i as int)),
            ascending(picked@),
            forall|a: int| 0 <= a < picked.len() ==> picked@[a] < i && chosen@[picked@[a] as int],
            forall|j: int| 0 <= j < i && chosen@[j] ==> holds(picked@, j),
        decreases n - i,
    {
        assert(chosen@.take(i + 1).drop_last() == chosen@.take(i as int));
        if chosen[i] {
            let ghost before = picked@;
            picked.push(i);
            assert forall|j: int| 0 <= j < i + 1 && chosen@[j] implies holds(picked@, j) by {
                if j < i {
                    let a = choose|a: int| 0 <= a < before.len() && before[a] == j;
                    assert(picked@[a] == j);
                } else {
                    assert(picked@[before.len() as int] == j);
                }
            }
        }
        i += 1;
    }
    assert(chosen@.take(n as int) == chosen@);
    picked
}

} // verus!
