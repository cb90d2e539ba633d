//! Combinations of positions.

use vstd::prelude::*;

verus! {

/// All ways to choose `k` of the first `n` positions.
pub open spec fn combinations(n: nat, k: nat) -> Seq<Seq<int>>
    decreases n,
{
    if k == 0 {
        seq![Seq::empty()]
    } else if n == 0 {
        Seq::empty()
    } else {
        let last = n - 1;
        combinations((n - 1) as nat, k) + combinations((n - 1) as nat, (k - 1) as nat).map_values(
            |chosen: Seq<int>| chosen.push(last),
        )
    }
}

/// Whether a sequence is a way to choose `k` of the first `n` positions.
pub open spec fn is_choice(chosen: Seq<int>, n: nat, k: nat) -> bool {
    &&& chosen.len() == k
    &&& forall|i: int| 0 <= i < k ==> 0 <= #[trigger] chosen[i] < n
    &&& forall|i: int, j: int| 0 <= i < j < k ==> #[trigger] chosen[i] < #[trigger] chosen[j]
}

/// The combinations are all ways to choose positions, each of them once.
pub proof fn combinations_are_choices(n: nat, k: nat)
    ensures
        combinations(n, k).no_duplicates(),
        forall|chosen: Seq<int>|
            combinations(n, k).contains(chosen) <==> #[trigger] is_choice(chosen, n, k),
    decreases n,
{
    let all = combinations(n, k);
    if k == 0 {
        assert forall|chosen: Seq<int>| all.contains(chosen) <==> #[trigger] is_choice(
            chosen,
            n,
            k,
        ) by {
            if is_choice(chosen, n, k) {
                assert(chosen =~= Seq::<int>::empty());
                assert(all[0] == chosen);
            }
        }
    } else if n == 0 {
        assert forall|chosen: Seq<int>| all.contains(chosen) <==> #[trigger] is_choice(
            chosen,
            n,
            k,
        ) by {
            if is_choice(chosen, n, k) {
                assert(0 <= chosen[0] < n);
            }
        }
    } else {
        let m = (n - 1) as nat;
        let last = n - 1;
        let without = combinations(m, k);
        let fewer = combinations(m, (k - 1) as nat);
        let with = fewer.map_values(|chosen: Seq<int>| chosen.push(last));
        combinations_are_choices(m, k);
        combinations_are_choices(m, (k - 1) as nat);
        assert forall|chosen: Seq<int>| all.contains(chosen) <==> #[trigger] is_choice(
            chosen,
            n,
            k,
        ) by {
            if all.contains(chosen) {
                let i = choose|i: int| 0 <= i < all.len() && all[i] == chosen;
                if i < without.len() {
                    assert(without.contains(without[i]));
                    assert(is_choice(chosen, m, k));
                } else {
                    let rest = fewer[i - without.len()];
                    assert(fewer.contains(rest));
                    assert(is_choice(rest, m, (k - 1) as nat));
                    assert(chosen == rest.push(last));
                }
            }
            if is_choice(chosen, n, k) {
                if chosen[k - 1] == last {
                    let rest = chosen.drop_last();
                    assert(is_choice(rest, m, (k - 1) as nat)) by {
                        assert forall|i: int| 0 <= i < k - 1 implies 0 <= #[trigger] rest[i] < m by {
                            assert(chosen[i] < chosen[k - 1]);
                        }
                    }
                    let i = choose|i: int| 0 <= i < fewer.len() && fewer[i] == rest;
                    assert(with[i] =~= chosen);
                    assert(all[without.len() + i] == chosen);
                } else {
                    assert(is_choice(chosen, m, k)) by {
                        assert forall|i: int| 0 <= i < k implies 0 <= #[trigger] chosen[i] < m by {
                            if i < k - 1 {
                                assert(chosen[i] < chosen[k - 1]);
                            }
                        }
                    }
                    let i = choose|i: int| 0 <= i < without.len() && without[i] == chosen;
                    assert(all[i] == chosen);
                }
            }
        }
        assert forall|a: int, b: int|
            0 <= a < all.len() && 0 <= b < all.len() && a != b implies all[a] != all[b] by {
            if a < without.len() && b < without.len() {
                assert(without[a] != without[b]);
            } else if a >= without.len() && b >= without.len() {
                let one = fewer[a - without.len()];
                let other = fewer[b - without.len()];
                assert(one != other);
                if all[a] == all[b] {
                    assert(one =~= all[a].drop_last());
                    assert(other =~= all[b].drop_last());
                }
            } else {
                let (p, q) = if a < without.len() {
                    (a, b)
                } else {
                    (b, a)
                };
                assert(without.contains(without[p]));
                assert(is_choice(without[p], m, k));
                assert(without[p][k - 1] < m);
                assert(fewer.contains(fewer[q - without.len()]));
                assert(is_choice(fewer[q - without.len()], m, (k - 1) as nat));
                assert(all[q][k - 1] == last);
            }
        }
    }
}

/// The positions as integers.
pub open spec fn as_ints(positions: Seq<usize>) -> Seq<int> {
    positions.map_values(|position: usize| position as int)
}

/// Returns all ways to choose `k` of the first `n` positions.
pub fn choose_positions(n: usize, k: usize) -> (choices: Vec<Vec<usize>>)
    ensures
        choices@.len() == combinations(n as nat, k as nat).len(),
        forall|i: int|
            0 <= i < choices@.len() ==> as_ints((#[trigger] choices@[i])@) == combinations(
                n as nat,
                k as nat,
            )[i],
    decreases n,
{
    let mut choices: Vec<Vec<usize>> = Vec::new();
    if k == 0 {
        let none: Vec<usize> = Vec::new();
        assert(as_ints(none@) =~= Seq::<int>::empty());
        choices.push(none);
        return choices;
    }
    if n == 0 {
        return choices;
    }
    let last: usize = n - 1;
    let mut choices = choose_positions(last, k);
    let fewer = choose_positions(last, k - 1);
    let ghost without = choices@;
    let ghost start = fewer@;
    let ghost all = combinations(n as nat, k as nat);
    let mut i: usize = 0;
    while i < fewer.len()
        invariant
            last == n - 1,
            0 < k,
            all == combinations(n as nat, k as nat),
            start.len() == combinations(last as nat, (k - 1) as nat).len(),
            fewer@ == start,
            i <= start.len(),
            without.len() == combinations(last as nat, k as nat).len(),
            choices@.len() == without.len() + i,
            forall|c: int|
                0 <= c < start.len() ==> as_ints((#[trigger] start[c])@) == combinations(
                    last as nat,
                    (k - 1) as nat,
                )[c],
            forall|c: int|
                0 <= c < choices@.len() ==> as_ints((#[trigger] choices@[c])@) == all[c],
        decreases start.len() - i,
    {
        let mut chosen: Vec<usize> = Vec::new();
        let mut j: usize = 0;
        while j < fewer[i].len()
            invariant
                i < fewer@.len(),
                j <= fewer@[i as int]@.len(),
                chosen@ == fewer@[i as int]@.take(j as int),
            decreases fewer@[i as int]@.len() - j,
        {
            chosen.push(fewer[i][j]);
            j = j + 1;
        }
        assert(chosen@ =~= fewer@[i as int]@);
        let ghost rest = as_ints(chosen@);
        chosen.push(last);
        proof {
            assert(as_ints(chosen@) =~= rest.push(last as int));
            assert(all[without.len() + i] == rest.push(last as int));
        }
        choices.push(chosen);
        i = i + 1;
    }
    choices
}

/// Of two combinations the one comes first that has the smaller position where they differ last.
pub proof fn combinations_come_in_order(n: nat, k: nat, c: int, d: int)
    requires
        0 <= c < d < combinations(n, k).len(),
    ensures
        exists|j: int|
            {
                &&& 0 <= j < k
                &&& (#[trigger] combinations(n, k)[c][j]) < combinations(n, k)[d][j]
                &&& forall|m: int|
                    j < m < k ==> (#[trigger] combinations(n, k)[c][m]) == combinations(n, k)[d][m]
            },
    decreases n,
{
    let all = combinations(n, k);
    if k > 0 && n > 0 {
        let m = (n - 1) as nat;
        let fewer = combinations(m, (k - 1) as nat);
        let w = combinations(m, k).len() as int;
        if d < w {
            combinations_come_in_order(m, k, c, d);
            let j = choose|j: int|
                {
                    &&& 0 <= j < k
                    &&& (#[trigger] combinations(m, k)[c][j]) < combinations(m, k)[d][j]
                    &&& forall|i: int|
                        j < i < k ==> (#[trigger] combinations(m, k)[c][i]) == combinations(
                            m,
                            k,
                        )[d][i]
                };
            assert(all[c][j] < all[d][j]);
        } else if c >= w {
            let rest = (k - 1) as nat;
            combinations_are_choices(m, rest);
            assert(fewer.contains(fewer[c - w]) && fewer.contains(fewer[d - w]));
            assert(is_choice(fewer[c - w], m, rest) && is_choice(fewer[d - w], m, rest));
            combinations_come_in_order(m, rest, c - w, d - w);
            let j = choose|j: int|
                {
                    &&& 0 <= j < rest
                    &&& (#[trigger] fewer[c - w][j]) < fewer[d - w][j]
                    &&& forall|i: int|
                        j < i < rest ==> (#[trigger] fewer[c - w][i]) == fewer[d - w][i]
                };
            assert(all[c] == fewer[c - w].push(n - 1));
            assert(all[d] == fewer[d - w].push(n - 1));
            assert(all[c][j] < all[d][j]);
            assert forall|i: int| j < i < k implies (#[trigger] all[c][i]) == all[d][i] by {
                if i < rest {
                    assert(fewer[c - w][i] == fewer[d - w][i]);
                }
            }
        } else {
            let rest = (k - 1) as nat;
            combinations_are_choices(m, k);
            combinations_are_choices(m, rest);
            assert(combinations(m, k).contains(all[c]));
            assert(is_choice(all[c], m, k));
            assert(fewer.contains(fewer[d - w]));
            assert(is_choice(fewer[d - w], m, rest));
            assert(all[d] == fewer[d - w].push(n - 1));
            assert(all[c][k - 1] < all[d][k - 1]);
        }
    }
}

} // verus!
