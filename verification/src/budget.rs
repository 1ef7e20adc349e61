//! Choosing which items stay within a budget.
use vstd::prelude::*;

verus! {

/// The items whose flag is set, in their order.
pub open spec fn kept<T>(items: Seq<T>, flags: Seq<bool>) -> Seq<T>
    decreases items.len(),
{
    if items.len() == 0 || flags.len() == 0 {
        Seq::empty()
    } else {
        let rest = kept(items.drop_last(), flags.drop_last());
        if flags.last() {
            rest.push(items.last())
        } else {
            rest
        }
    }
}

/// How many flags are set.
pub open spec fn count_set(flags: Seq<bool>) -> nat
    decreases flags.len(),
{
    if flags.len() == 0 {
        0
    } else {
        count_set(flags.drop_last()) + if flags.last() {
            1nat
        } else {
            0nat
        }
    }
}

/// The sum of the weights whose flag is set.
pub open spec fn total_set(weights: Seq<u128>, flags: Seq<bool>) -> nat
    decreases flags.len(),
{
    if flags.len() == 0 || weights.len() == 0 {
        0
    } else {
        total_set(weights.drop_last(), flags.drop_last()) + if flags.last() {
            weights.last() as nat
        } else {
            0
        }
    }
}

/// Item `i` is given up before item `j`: it is heavier, or as heavy and earlier.
pub open spec fn goes_before(weights: Seq<u128>, i: int, j: int) -> bool {
    weights[i] > weights[j] || (weights[i] == weights[j] && i < j)
}

/// `i` is the first item to give up among those whose flag is set.
pub open spec fn is_first_to_go(weights: Seq<u128>, flags: Seq<bool>, i: int) -> bool {
    &&& 0 <= i < flags.len()
    &&& flags[i]
    &&& forall|j: int|
        0 <= j < flags.len() && flags[j] && j != i ==> goes_before(weights, i, j)
}

/// The first item to give up among those whose flag is set.
pub open spec fn first_to_go(weights: Seq<u128>, flags: Seq<bool>) -> int {
    choose|i: int| is_first_to_go(weights, flags, i)
}

/// The flags that are left when items are given up, the heaviest first and
/// among equals the earliest first, until the rest fits the budget or is a
/// single item.
pub open spec fn within_budget(weights: Seq<u128>, flags: Seq<bool>, budget: nat) -> Seq<bool>
    decreases count_set(flags),
    via within_budget_terminates
{
    if total_set(weights, flags) <= budget || count_set(flags) <= 1 {
        flags
    } else {
        within_budget(weights, flags.update(first_to_go(weights, flags), false), budget)
    }
}

#[via_fn]
proof fn within_budget_terminates(weights: Seq<u128>, flags: Seq<bool>, budget: nat) {
    if count_set(flags) > 1 {
        lemma_first_to_go_exists(weights, flags);
        lemma_clear(weights, flags, first_to_go(weights, flags));
    }
}

/// All flags set.
pub open spec fn all_set(n: nat) -> Seq<bool> {
    Seq::new(n, |i: int| true)
}

proof fn lemma_first_to_go_exists(weights: Seq<u128>, flags: Seq<bool>)
    requires
        count_set(flags) >= 1,
    ensures
        is_first_to_go(weights, flags, first_to_go(weights, flags)),
    decreases flags.len(),
{
    let n = flags.len() - 1;
    let shorter = flags.drop_last();
    if count_set(shorter) >= 1 {
        lemma_first_to_go_exists(weights, shorter);
        let k = first_to_go(weights, shorter);
        assert(flags[k] == shorter[k]);
        if flags.last() && goes_before(weights, n, k) {
            assert forall|j: int| 0 <= j < flags.len() && flags[j] && j != n implies goes_before(
                weights,
                n,
                j,
            ) by {
                assert(shorter[j]);
                if j != k {
                    assert(goes_before(weights, k, j));
                }
            }
            assert(is_first_to_go(weights, flags, n));
        } else {
            assert forall|j: int| 0 <= j < flags.len() && flags[j] && j != k implies goes_before(
                weights,
                k,
                j,
            ) by {
                if j < n {
                    assert(shorter[j]);
                }
            }
            assert(is_first_to_go(weights, flags, k));
        }
    } else {
        assert forall|j: int| 0 <= j < n implies !flags[j] by {
            lemma_unset(shorter, j);
        }
        assert(is_first_to_go(weights, flags, n));
    }
}

proof fn lemma_unset(flags: Seq<bool>, j: int)
    requires
        count_set(flags) == 0,
        0 <= j < flags.len(),
    ensures
        !flags[j],
    decreases flags.len(),
{
    if j < flags.len() - 1 {
        lemma_unset(flags.drop_last(), j);
    }
}

/// Clearing one flag takes one off the count and its weight off the total.
proof fn lemma_clear(weights: Seq<u128>, flags: Seq<bool>, i: int)
    requires
        0 <= i < flags.len(),
        flags[i],
    ensures
        count_set(flags.update(i, false)) == count_set(flags) - 1,
        weights.len() == flags.len() ==> total_set(weights, flags.update(i, false)) == total_set(
            weights,
            flags,
        ) - weights[i],
    decreases flags.len(),
{
    let cleared = flags.update(i, false);
    if i == flags.len() - 1 {
        assert(cleared.drop_last() =~= flags.drop_last());
    } else {
        assert(cleared.drop_last() =~= flags.drop_last().update(i, false));
        if weights.len() == flags.len() {
            lemma_clear(weights.drop_last(), flags.drop_last(), i);
        } else {
            lemma_clear(weights, flags.drop_last(), i);
        }
    }
}

/// All of the flags are set.
pub proof fn lemma_all_set(n: nat)
    ensures
        count_set(all_set(n)) == n,
    decreases n,
{
    if n > 0 {
        assert(all_set(n).drop_last() =~= all_set((n - 1) as nat));
        lemma_all_set((n - 1) as nat);
    }
}

/// As many items are kept as flags are set.
pub proof fn kept_length<T>(items: Seq<T>, flags: Seq<bool>)
    requires
        items.len() == flags.len(),
    ensures
        kept(items, flags).len() == count_set(flags),
        count_set(flags) <= flags.len(),
    decreases items.len(),
{
    if items.len() > 0 {
        kept_length(items.drop_last(), flags.drop_last());
    }
}

/// What fits the budget keeps as many flags as there were, clears only flags
/// that were set, and leaves one set where one was set.
pub proof fn within_budget_narrows(weights: Seq<u128>, flags: Seq<bool>, budget: nat)
    ensures
        within_budget(weights, flags, budget).len() == flags.len(),
        count_set(within_budget(weights, flags, budget)) <= count_set(flags),
        forall|i: int|
            0 <= i < flags.len() && #[trigger] within_budget(weights, flags, budget)[i]
                ==> flags[i],
        count_set(flags) >= 1 ==> count_set(within_budget(weights, flags, budget)) >= 1,
    decreases count_set(flags),
{
    if !(total_set(weights, flags) <= budget || count_set(flags) <= 1) {
        lemma_first_to_go_exists(weights, flags);
        let k = first_to_go(weights, flags);
        lemma_clear(weights, flags, k);
        within_budget_narrows(weights, flags.update(k, false), budget);
    }
}

/// What is kept fits the budget, or is a single item.
pub proof fn within_budget_fits(weights: Seq<u128>, flags: Seq<bool>, budget: nat)
    ensures
        ({
            let left = within_budget(weights, flags, budget);
            total_set(weights, left) <= budget || count_set(left) <= 1
        }),
    decreases count_set(flags),
{
    if !(total_set(weights, flags) <= budget || count_set(flags) <= 1) {
        lemma_first_to_go_exists(weights, flags);
        let k = first_to_go(weights, flags);
        lemma_clear(weights, flags, k);
        within_budget_fits(weights, flags.update(k, false), budget);
    }
}

/// Items go largest first: whatever was given up is heavier than whatever is
/// kept, or as heavy and earlier.
pub proof fn within_budget_drops_largest_first(
    weights: Seq<u128>,
    flags: Seq<bool>,
    budget: nat,
    dropped: int,
    stays: int,
)
    requires
        0 <= dropped < flags.len(),
        0 <= stays < flags.len(),
        flags[dropped],
        !within_budget(weights, flags, budget)[dropped],
        within_budget(weights, flags, budget)[stays],
    ensures
        goes_before(weights, dropped, stays),
    decreases count_set(flags),
{
    within_budget_narrows(weights, flags, budget);
    if !(total_set(weights, flags) <= budget || count_set(flags) <= 1) {
        lemma_first_to_go_exists(weights, flags);
        let k = first_to_go(weights, flags);
        lemma_clear(weights, flags, k);
        let next = flags.update(k, false);
        within_budget_narrows(weights, next, budget);
        assert(flags[stays]);
        if dropped == k {
            assert(next[stays]);
        } else {
            within_budget_drops_largest_first(weights, next, budget, dropped, stays);
        }
    }
}

/// No more is given up than needed: with any one of the given up items back,
/// the rest would be over the budget.
pub proof fn within_budget_drops_no_more_than_needed(
    weights: Seq<u128>,
    flags: Seq<bool>,
    budget: nat,
    dropped: int,
)
    requires
        weights.len() == flags.len(),
        0 <= dropped < flags.len(),
        flags[dropped],
        !within_budget(weights, flags, budget)[dropped],
    ensures
        total_set(weights, within_budget(weights, flags, budget)) + weights[dropped] > budget,
    decreases count_set(flags),
{
    if !(total_set(weights, flags) <= budget || count_set(flags) <= 1) {
        lemma_first_to_go_exists(weights, flags);
        let k = first_to_go(weights, flags);
        lemma_clear(weights, flags, k);
        let next = flags.update(k, false);
        let left = within_budget(weights, next, budget);
        if dropped != k {
            within_budget_drops_no_more_than_needed(weights, next, budget, dropped);
        } else if total_set(weights, next) <= budget || count_set(next) <= 1 {
            assert(left == next);
        } else {
            lemma_first_to_go_exists(weights, next);
            let second = first_to_go(weights, next);
            assert(flags[second]);
            lemma_clear(weights, next, second);
            within_budget_narrows(weights, next.update(second, false), budget);
            within_budget_drops_no_more_than_needed(weights, next, budget, second);
        }
    }
}

/// The index of the first item to give up.
fn find_first_to_go(weights: &Vec<u128>, flags: &Vec<bool>) -> (r: usize)
    requires
        weights@.len() == flags@.len(),
        count_set(flags@) >= 1,
    ensures
        is_first_to_go(weights@, flags@, r as int),
{
    let mut best: Option<usize> = None;
    let mut i: usize = 0;
    while i < flags.len()
        invariant
            i <= flags@.len(),
            weights@.len() == flags@.len(),
            match best {
                None => forall|j: int| 0 <= j < i ==> !flags@[j],
                Some(b) => b < i && flags@[b as int] && forall|j: int|
                    0 <= j < i && flags@[j] && j != b ==> goes_before(weights@, b as int, j),
            },
        decreases flags@.len() - i,
    {
        if flags[i] {
            match best {
                None => {
                    best = Some(i);
                },
                Some(b) => {
                    if weights[i] > weights[b] {
                        best = Some(i);
                    }
                },
            }
        }
        i += 1;
    }
    proof {
        lemma_first_to_go_exists(weights@, flags@);
        assert(flags@[first_to_go(weights@, flags@)]);
    }
    match best {
        Some(b) => b,
        None => 0,
    }
}

/// The rest of a sum is not negative.
proof fn lemma_total_grows(weights: Seq<u128>, flags: Seq<bool>, i: int)
    requires
        0 <= i <= flags.len(),
        weights.len() == flags.len(),
    ensures
        total_set(weights.take(i), flags.take(i)) <= total_set(weights, flags),
    decreases flags.len() - i,
{
    if i < flags.len() {
        lemma_total_grows(weights, flags, i + 1);
        assert(weights.take(i + 1).drop_last() =~= weights.take(i));
        assert(flags.take(i + 1).drop_last() =~= flags.take(i));
    } else {
        assert(weights.take(i) =~= weights);
        assert(flags.take(i) =~= flags);
    }
}

/// Whether the items whose flag is set fit the budget.
fn fits(weights: &Vec<u128>, flags: &Vec<bool>, budget: usize) -> (r: bool)
    requires
        weights@.len() == flags@.len(),
    ensures
        r == (total_set(weights@, flags@) <= budget),
{
    let limit: u128 = budget as u128;
    let mut total: u128 = 0;
    let mut i: usize = 0;
    while i < flags.len()
        invariant
            i <= flags@.len(),
            weights@.len() == flags@.len(),
            limit == budget,
            total == total_set(weights@.take(i as int), flags@.take(i as int)),
            total <= limit,
        decreases flags@.len() - i,
    {
        assert(weights@.take(i + 1).drop_last() =~= weights@.take(i as int));
        assert(flags@.take(i + 1).drop_last() =~= flags@.take(i as int));
        if flags[i] {
            if weights[i] > limit - total {
                proof {
                    lemma_total_grows(weights@, flags@, i + 1);
                }
                return false;
            }
            total = total + weights[i];
        }
        i += 1;
    }
    assert(weights@.take(i as int) =~= weights@);
    assert(flags@.take(i as int) =~= flags@);
    true
}

/// Which items stay when items are given up, the heaviest first, until the rest
/// fits the budget or is a single item.
pub fn fit(weights: &Vec<u128>, budget: usize) -> (r: Vec<bool>)
    ensures
        r@ == within_budget(weights@, all_set(weights@.len()), budget as nat),
        r@.len() == weights@.len(),
{
    let mut flags: Vec<bool> = Vec::new();
    let mut left: usize = 0;
    while left < weights.len()
        invariant
            left <= weights@.len(),
            flags@ == all_set(left as nat),
        decreases weights@.len() - left,
    {
        assert(all_set((left + 1) as nat) =~= flags@.push(true));
        flags.push(true);
        left += 1;
    }
    proof {
        lemma_all_set(weights@.len());
    }
    while left > 1 && !fits(weights, &flags, budget)
        invariant
            flags@.len() == weights@.len(),
            left == count_set(flags@),
            within_budget(weights@, all_set(weights@.len()), budget as nat) == within_budget(
                weights@,
                flags@,
                budget as nat,
            ),
        decreases left,
    {
        let k: usize = find_first_to_go(weights, &flags);
        proof {
            lemma_clear(weights@, flags@, k as int);
            let m = first_to_go(weights@, flags@);
            assert(is_first_to_go(weights@, flags@, m));
            assert(k == m);
        }
        flags.set(k, false);
        left -= 1;
    }
    flags
}

/// The items whose flag is set.
pub fn retain<T>(items: Vec<T>, flags: &Vec<bool>) -> (r: Vec<T>)
    requires
        items@.len() == flags@.len(),
    ensures
        r@ == kept(items@, flags@),
{
    let ghost source = items@;
    let n: usize = items.len();
    let mut out: Vec<T> = Vec::new();
    let mut i: usize = 0;
    for item in it: items
        invariant
            it.seq() == source,
            source.len() == flags@.len(),
            n == source.len(),
            i == it.index(),
            out@ == kept(source.take(i as int), flags@.take(i as int)),
    {
        assert(source.take(i + 1).drop_last() =~= source.take(i as int));
        assert(flags@.take(i + 1).drop_last() =~= flags@.take(i as int));
        if flags[i] {
            out.push(item);
        }
        i += 1;
    }
    assert(source.take(i as int) =~= source);
    assert(flags@.take(i as int) =~= flags@);
    out
}

/// Items are kept one by one: an item is kept just where its flag is set, and what is
/// kept stays in its order.
pub proof fn items_are_kept_one_by_one<T>(
    a: Seq<T>,
    b: Seq<T>,
    fa: Seq<bool>,
    fb: Seq<bool>,
    x: T,
)
    requires
        a.len() == fa.len(),
        b.len() == fb.len(),
    ensures
        kept(a + b, fa + fb) == kept(a, fa) + kept(b, fb),
        kept(seq![x], seq![true]) == seq![x],
        kept(seq![x], seq![false]) == Seq::<T>::empty(),
        kept(Seq::<T>::empty(), Seq::empty()) == Seq::<T>::empty(),
    decreases b.len(),
{
    reveal_with_fuel(kept, 2);
    assert(seq![x].drop_last() =~= Seq::<T>::empty());
    assert(kept(seq![x], seq![true]) =~= seq![x]);
    if b.len() == 0 {
        assert(a + b =~= a);
        assert(fa + fb =~= fa);
        assert(kept(a, fa) + kept(b, fb) =~= kept(a, fa));
    } else {
        items_are_kept_one_by_one(a, b.drop_last(), fa, fb.drop_last(), x);
        assert((a + b).drop_last() =~= a + b.drop_last());
        assert((fa + fb).drop_last() =~= fa + fb.drop_last());
        assert(kept(a + b, fa + fb) =~= kept(a, fa) + kept(b, fb));
    }
}

/// The total is the sum of the weights whose flag is set.
pub proof fn weights_add_up(
    a: Seq<u128>,
    b: Seq<u128>,
    fa: Seq<bool>,
    fb: Seq<bool>,
    w: u128,
)
    requires
        a.len() == fa.len(),
        b.len() == fb.len(),
    ensures
        total_set(a + b, fa + fb) == total_set(a, fa) + total_set(b, fb),
        total_set(seq![w], seq![true]) == w,
        total_set(seq![w], seq![false]) == 0,
        count_set(fa + fb) == count_set(fa) + count_set(fb),
        count_set(seq![true]) == 1,
        count_set(seq![false]) == 0,
    decreases b.len(),
{
    reveal_with_fuel(total_set, 2);
    reveal_with_fuel(count_set, 2);
    assert(seq![w].drop_last() =~= Seq::<u128>::empty());
    assert(seq![true].drop_last() =~= Seq::<bool>::empty());
    if b.len() == 0 {
        assert(a + b =~= a);
        assert(fa + fb =~= fa);
    } else {
        weights_add_up(a, b.drop_last(), fa, fb.drop_last(), w);
        assert((a + b).drop_last() =~= a + b.drop_last());
        assert((fa + fb).drop_last() =~= fa + fb.drop_last());
    }
}

/// Items that are chosen by a test are those that pass it, in their order.
pub proof fn lemma_kept_is_filter<T>(items: Seq<T>, flags: Seq<bool>, p: spec_fn(T) -> bool)
    requires
        items.len() == flags.len(),
        forall|i: int| 0 <= i < items.len() ==> flags[i] == #[trigger] p(items[i]),
    ensures
        kept(items, flags) == items.filter(p),
    decreases items.len(),
{
    reveal(Seq::filter);
    if items.len() > 0 {
        let front = items.drop_last();
        assert forall|i: int| 0 <= i < front.len() implies flags.drop_last()[i]
            == #[trigger] p(front[i]) by {
            assert(p(items[i]) == flags[i]);
        }
        lemma_kept_is_filter(front, flags.drop_last(), p);
        assert(p(items[items.len() - 1]) == flags[items.len() - 1]);
    }
}

} // verus!
