//! Choosing positions of a sequence and putting them in order.
use vstd::prelude::*;
use vstd::seq_lib::*;
use vstd::set_lib::*;

verus! {

/// The positions below `n` at which `wanted` holds, in ascending order.
pub open spec fn chosen(n: nat, wanted: spec_fn(int) -> bool) -> Seq<int>
    decreases n,
{
    if n == 0 {
        Seq::empty()
    } else {
        let before = chosen((n - 1) as nat, wanted);
        if wanted(n - 1) {
            before.push(n - 1)
        } else {
            before
        }
    }
}

/// A position is chosen exactly when it is wanted, and chosen positions ascend.
pub proof fn lemma_chosen(n: nat, wanted: spec_fn(int) -> bool)
    ensures
        forall|i: int| #[trigger] chosen(n, wanted).contains(i) <==> 0 <= i < n && wanted(i),
        forall|a: int, b: int|
            0 <= a < b < chosen(n, wanted).len() ==> #[trigger] chosen(n, wanted)[a]
                < #[trigger] chosen(n, wanted)[b],
        forall|a: int|
            0 <= a < chosen(n, wanted).len() ==> 0 <= #[trigger] chosen(n, wanted)[a] < n && wanted(
                chosen(n, wanted)[a],
            ),
    decreases n,
{
    if n > 0 {
        let before = chosen((n - 1) as nat, wanted);
        lemma_chosen((n - 1) as nat, wanted);
        let all = chosen(n, wanted);
        assert forall|i: int| #[trigger] all.contains(i) <==> 0 <= i < n && wanted(i) by {
            if wanted(n - 1) {
                if all.contains(i) {
                    let k = choose|k: int| 0 <= k < all.len() && all[k] == i;
                    if k < before.len() {
                        assert(before[k] == i);
                        assert(before.contains(i));
                    }
                }
                if 0 <= i < n && wanted(i) {
                    if i < n - 1 {
                        assert(before.contains(i));
                        let k = choose|k: int| 0 <= k < before.len() && before[k] == i;
                        assert(all[k] == i);
                    } else {
                        assert(all[before.len() as int] == i);
                    }
                }
            } else {
                assert(all.contains(i) <==> before.contains(i));
            }
        }
        assert forall|a: int, b: int| 0 <= a < b < all.len() implies #[trigger] all[a]
            < #[trigger] all[b] by {
            if b < before.len() {
                assert(before[a] < before[b]);
            } else {
                assert(before[a] < n - 1);
            }
        }
    }
}

/// How many items of a sequence `wanted` holds of.
pub open spec fn count<T>(items: Seq<T>, wanted: spec_fn(T) -> bool) -> nat
    decreases items.len(),
{
    if items.len() == 0 {
        0
    } else {
        count(items.drop_last(), wanted) + (if wanted(items.last()) {
            1nat
        } else {
            0nat
        })
    }
}

/// What the items of a sequence come to together.
pub open spec fn total<T>(items: Seq<T>, worth: spec_fn(T) -> nat) -> nat
    decreases items.len(),
{
    if items.len() == 0 {
        0
    } else {
        total(items.drop_last(), worth) + worth(items.last())
    }
}

/// A count does not exceed the number of items.
pub proof fn lemma_count_bounded<T>(items: Seq<T>, wanted: spec_fn(T) -> bool)
    ensures
        count(items, wanted) <= items.len(),
    decreases items.len(),
{
    if items.len() > 0 {
        lemma_count_bounded(items.drop_last(), wanted);
    }
}

/// What the first items come to together is no more than what all do.
pub proof fn lemma_total_grows<T>(items: Seq<T>, worth: spec_fn(T) -> nat, n: int)
    requires
        0 <= n <= items.len(),
    ensures
        total(items.take(n), worth) <= total(items, worth),
    decreases items.len(),
{
    if n < items.len() {
        lemma_total_grows(items.drop_last(), worth, n);
        assert(items.drop_last().take(n) =~= items.take(n));
    } else {
        assert(items.take(n) =~= items);
    }
}

/// Positions as mathematical integers.
pub open spec fn ints(positions: Seq<usize>) -> Seq<int> {
    Seq::new(positions.len(), |i: int| positions[i] as int)
}

/// The numbers of some positions hold what the positions hold.
pub proof fn lemma_ints_contain(positions: Seq<usize>, i: usize)
    ensures
        ints(positions).contains(i as int) <==> positions.contains(i),
{
    if positions.contains(i) {
        let k = choose|k: int| 0 <= k < positions.len() && positions[k] == i;
        assert(ints(positions)[k] == i as int);
    }
    if ints(positions).contains(i as int) {
        let k = choose|k: int| 0 <= k < ints(positions).len() && ints(positions)[k] == i as int;
        assert(positions[k] == i);
    }
}

/// Positions below `n` with no repetition are at most `n` in number.
pub proof fn lemma_distinct_bounded(positions: Seq<usize>, n: nat)
    requires
        positions.no_duplicates(),
        forall|i: int| 0 <= i < positions.len() ==> #[trigger] positions[i] < n,
    ensures
        positions.len() <= n,
{
    let all = ints(positions);
    assert(all.no_duplicates()) by {
        assert forall|i: int, j: int|
            0 <= i < all.len() && 0 <= j < all.len() && i != j implies all[i] != all[j] by {
            assert(positions[i] != positions[j]);
        }
    }
    all.unique_seq_to_set();
    let range = set_int_range(0, n as int);
    lemma_int_range(0, n as int);
    assert(all.to_set().subset_of(range)) by {
        assert forall|x: int| all.to_set().contains(x) implies range.contains(x) by {
            let i = choose|i: int| 0 <= i < all.len() && all[i] == x;
            assert(positions[i] < n);
        }
    }
    lemma_len_subset(all.to_set(), range);
}

/// A strict order on positions: of two different ones exactly one comes before the other.
pub open spec fn strict_order(before: spec_fn(usize, usize) -> bool) -> bool {
    &&& forall|a: usize| !#[trigger] before(a, a)
    &&& forall|a: usize, b: usize, c: usize|
        #[trigger] before(a, b) && #[trigger] before(b, c) ==> before(a, c)
    &&& forall|a: usize, b: usize| a != b ==> #[trigger] before(a, b) || before(b, a)
}

/// Whether each position comes before all that follow it.
pub open spec fn in_order(positions: Seq<usize>, before: spec_fn(usize, usize) -> bool) -> bool {
    forall|i: int, j: int|
        0 <= i < j < positions.len() ==> before(#[trigger] positions[i], #[trigger] positions[j])
}

/// The positions, in the given order.
pub(crate) fn sort_positions<F: Fn(usize, usize) -> bool>(
    positions: &Vec<usize>,
    comes_before: F,
    Ghost(before): Ghost<spec_fn(usize, usize) -> bool>,
) -> (r: Vec<usize>)
    requires
        positions@.no_duplicates(),
        strict_order(before),
        forall|a: usize, b: usize|
            positions@.contains(a) && positions@.contains(b) ==> #[trigger] call_requires(
                comes_before,
                (a, b),
            ),
        forall|a: usize, b: usize, out: bool|
            #[trigger] call_ensures(comes_before, (a, b), out) ==> out == before(a, b),
    ensures
        in_order(r@, before),
        r@.len() == positions@.len(),
        r@.to_multiset() == positions@.to_multiset(),
        forall|a: usize| #[trigger] r@.contains(a) <==> positions@.contains(a),
{
    let mut out: Vec<usize> = Vec::new();
    assert(positions@.take(0) =~= out@);
    for i in 0..positions.len()
        invariant
            positions@.no_duplicates(),
            strict_order(before),
            forall|a: usize, b: usize|
                positions@.contains(a) && positions@.contains(b) ==> #[trigger] call_requires(
                    comes_before,
                    (a, b),
                ),
            forall|a: usize, b: usize, out: bool|
                #[trigger] call_ensures(comes_before, (a, b), out) ==> out == before(a, b),
            in_order(out@, before),
            out@.len() == i,
            out@.to_multiset() == positions@.take(i as int).to_multiset(),
            forall|a: usize| #[trigger] out@.contains(a) <==> positions@.take(i as int).contains(a),
    {
        let item: usize = positions[i];
        let ghost head = positions@.take(i as int);
        proof {
            assert(!head.contains(item)) by {
                if head.contains(item) {
                    let k = choose|k: int| 0 <= k < head.len() && head[k] == item;
                    assert(positions@[k] == positions@[i as int]);
                }
            }
            assert(positions@.contains(item));
        }
        let mut at: usize = 0;
        let mut found = false;
        while at < out.len() && !found
            invariant
                at <= out@.len(),
                strict_order(before),
                !out@.contains(item),
                positions@.contains(item),
                forall|a: usize| #[trigger] out@.contains(a) ==> positions@.contains(a),
                forall|a: usize, b: usize|
                    positions@.contains(a) && positions@.contains(b) ==> #[trigger] call_requires(
                        comes_before,
                        (a, b),
                    ),
                forall|a: usize, b: usize, out: bool|
                    #[trigger] call_ensures(comes_before, (a, b), out) ==> out == before(a, b),
                forall|k: int| 0 <= k < at ==> before(#[trigger] out@[k], item),
                found ==> at < out@.len() && before(item, out@[at as int]),
            decreases out.len() - at, (if found { 0int } else { 1int }),
        {
            assert(out@.contains(out@[at as int]));
            if comes_before(item, out[at]) {
                found = true;
            } else {
                at += 1;
            }
        }
        let ghost prior = out@;
        out.insert(at, item);
        proof {
            assert(out@ == prior.insert(at as int, item));
            assert forall|a: int, b: int| 0 <= a < b < out@.len() implies before(
                #[trigger] out@[a],
                #[trigger] out@[b],
            ) by {
                let x = if a < at {
                    prior[a]
                } else if a == at {
                    item
                } else {
                    prior[a - 1]
                };
                let y = if b < at {
                    prior[b]
                } else if b == at {
                    item
                } else {
                    prior[b - 1]
                };
                assert(out@[a] == x && out@[b] == y);
                if a < at && b > at {
                    assert(before(prior[a], prior[b - 1]));
                } else if a == at && b > at {
                    if b - 1 > at {
                        assert(before(prior[at as int], prior[b - 1]));
                    }
                } else if a > at {
                    assert(before(prior[a - 1], prior[b - 1]));
                }
            }
            to_multiset_insert(prior, at as int, item);
            let next = positions@.take(i + 1);
            assert(next =~= head.push(item));
            to_multiset_build(head, item);
            assert forall|a: usize| #[trigger] out@.contains(a) <==> next.contains(a) by {
                if out@.contains(a) {
                    let k = choose|k: int| 0 <= k < out@.len() && out@[k] == a;
                    if k < at {
                        assert(prior[k] == a);
                        assert(prior.contains(a));
                        assert(head.contains(a));
                        let m = choose|m: int| 0 <= m < head.len() && head[m] == a;
                        assert(next[m] == a);
                    } else if k == at {
                        assert(next[i as int] == a);
                    } else {
                        assert(prior[k - 1] == a);
                        assert(prior.contains(a));
                        assert(head.contains(a));
                        let m = choose|m: int| 0 <= m < head.len() && head[m] == a;
                        assert(next[m] == a);
                    }
                }
                if next.contains(a) {
                    let m = choose|m: int| 0 <= m < next.len() && next[m] == a;
                    if m < head.len() {
                        assert(head[m] == a);
                        assert(head.contains(a));
                        assert(prior.contains(a));
                        let k = choose|k: int| 0 <= k < prior.len() && prior[k] == a;
                        if k < at {
                            assert(out@[k] == a);
                        } else {
                            assert(out@[k + 1] == a);
                        }
                    } else {
                        assert(out@[at as int] == a);
                    }
                }
            }
        }
    }
    assert(positions@.take(positions@.len() as int) =~= positions@);
    out
}

} // verus!
