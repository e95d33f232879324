use vstd::multiset::*;
use vstd::prelude::*;

verus! {

broadcast use vstd::multiset::group_multiset_axioms;

/// Hundredths of a degree in half a turn.
pub const HALF_TURN: i32 = 18_000;

/// Hundredths of a degree in a full turn.
pub const FULL_TURN: i32 = 36_000;

/// Reflects a direction beyond south onto the other side, so that only the
/// distance from north remains.
pub open spec fn fold(v: int) -> int {
    if v > HALF_TURN as int {
        FULL_TURN as int - v
    } else {
        v
    }
}

/// In the group order, value `x` comes before value `y`: it occurs more often,
/// or as often and is smaller.
pub open spec fn ranks_before(m: Multiset<i64>, x: i64, y: i64) -> bool {
    m.count(x) > m.count(y) || (m.count(x) == m.count(y) && x < y)
}

/// `a` is the first value of `m` in the group order.
pub open spec fn is_first(m: Multiset<i64>, a: i64) -> bool {
    &&& m.count(a) > 0
    &&& forall|y: i64| #[trigger] m.count(y) > 0 && y != a ==> ranks_before(m, a, y)
}

/// `b` is the second value of `m` in the group order, after `a`.
pub open spec fn is_second(m: Multiset<i64>, a: i64, b: i64) -> bool {
    &&& m.count(b) > 0
    &&& b != a
    &&& forall|y: i64| #[trigger] m.count(y) > 0 && y != a && y != b ==> ranks_before(m, b, y)
}

pub open spec fn first_value(m: Multiset<i64>) -> i64 {
    choose|a: i64| is_first(m, a)
}

/// The second value in the group order, or the first where there is only one.
pub open spec fn second_value(m: Multiset<i64>) -> i64 {
    let a = first_value(m);
    if exists|b: i64| is_second(m, a, b) {
        choose|b: i64| is_second(m, a, b)
    } else {
        a
    }
}

/// The low/high pair of a set of readings: the two most frequent values, in
/// ascending order; `(0, 0)` when there is no reading.
pub open spec fn mode_pair(m: Multiset<i64>) -> (i64, i64) {
    if m.len() == 0 {
        (0, 0)
    } else {
        let a = first_value(m);
        let b = second_value(m);
        if a <= b {
            (a, b)
        } else {
            (b, a)
        }
    }
}

proof fn lemma_first_unique(m: Multiset<i64>, a: i64)
    requires
        is_first(m, a),
    ensures
        first_value(m) == a,
{
    let c = first_value(m);
    assert(is_first(m, c));
    if c != a {
        assert(ranks_before(m, a, c));
        assert(ranks_before(m, c, a));
    }
}

proof fn lemma_second_unique(m: Multiset<i64>, a: i64, b: i64)
    requires
        is_second(m, a, b),
    ensures
        (choose|c: i64| is_second(m, a, c)) == b,
{
    let c = choose|c: i64| is_second(m, a, c);
    assert(is_second(m, a, c));
    if c != b {
        assert(ranks_before(m, b, c));
        assert(ranks_before(m, c, b));
    }
}

/// The low/high pair does not depend on the order of the readings: two
/// sequences that are permutations of each other give the same pair.
pub proof fn mode_pair_ignores_order(s1: Seq<i64>, s2: Seq<i64>)
    requires
        s1.to_multiset() == s2.to_multiset(),
    ensures
        mode_pair(s1.to_multiset()) == mode_pair(s2.to_multiset()),
{
}

/// Readings that are all equal to `v` give the pair `(v, v)`.
pub proof fn mode_pair_of_equal_values(s: Seq<i64>, v: i64)
    requires
        s.len() > 0,
        forall|i: int| 0 <= i < s.len() ==> s[i] == v,
    ensures
        mode_pair(s.to_multiset()) == (v, v),
{
    let m = s.to_multiset();
    s.to_multiset_ensures();
    assert(s.contains(s[0]));
    assert forall|y: i64| #[trigger] m.count(y) > 0 implies y == v by {
        assert(s.contains(y));
    }
    assert(is_first(m, v));
    lemma_first_unique(m, v);
    assert(!exists|b: i64| is_second(m, v, b));
}

/// Readings of exactly two distinct values that occur equally often give the
/// pair of the smaller and the larger; the smaller one counts as the most
/// frequent.
pub proof fn mode_pair_of_two_tied_values(s: Seq<i64>, x: i64, y: i64)
    requires
        x < y,
        s.contains(x),
        s.contains(y),
        forall|i: int| 0 <= i < s.len() ==> s[i] == x || s[i] == y,
        s.to_multiset().count(x) == s.to_multiset().count(y),
    ensures
        first_value(s.to_multiset()) == x,
        mode_pair(s.to_multiset()) == (x, y),
{
    let m = s.to_multiset();
    s.to_multiset_ensures();
    assert forall|z: i64| #[trigger] m.count(z) > 0 implies z == x || z == y by {
        assert(s.contains(z));
    }
    assert(is_first(m, x));
    lemma_first_unique(m, x);
    assert(is_second(m, x, y));
    lemma_second_unique(m, x, y);
}

/// Folding leaves a direction from north to south unchanged, and folding
/// twice is folding once.
pub proof fn fold_is_idempotent(v: int)
    ensures
        0 <= v <= HALF_TURN ==> fold(v) == v,
        fold(fold(v)) == fold(v),
        fold(v) <= HALF_TURN,
{
}

/// Folds a wind direction onto the range from north to south.
pub fn fold_direction(v: i32) -> (r: i32)
    ensures
        r == fold(v as int),
{
    if v > HALF_TURN {
        FULL_TURN - v
    } else {
        v
    }
}

/// Index in `values` of the value first in the group order, skipping `skip`.
fn best_index(values: &Vec<i64>, counts: &Vec<u64>, m: Ghost<Multiset<i64>>, skip: Option<usize>) -> (r: Option<usize>)
    requires
        values.len() == counts.len(),
        values@.no_duplicates(),
        forall|j: int| 0 <= j < values.len() ==> counts[j] as nat == m@.count(#[trigger] values[j]),
    ensures
        match r {
            Some(k) => {
                &&& k < values.len()
                &&& skip != Some(k)
                &&& forall|j: int| 0 <= j < values.len() && j != k && skip != Some(j as usize)
                    ==> ranks_before(m@, values[k as int], #[trigger] values[j])
            },
            None => values.len() == 0 || (values.len() == 1 && skip == Some(0usize)),
        },
{
    let mut best: Option<usize> = None;
    let mut j: usize = 0;
    while j < values.len()
        invariant
            values.len() == counts.len(),
            values@.no_duplicates(),
            forall|i: int| 0 <= i < values.len() ==> counts[i] as nat == m@.count(#[trigger] values[i]),
            j <= values.len(),
            match best {
                Some(k) => {
                    &&& k < j
                    &&& skip != Some(k)
                    &&& forall|i: int| 0 <= i < j && i != k && skip != Some(i as usize)
                        ==> ranks_before(m@, values[k as int], #[trigger] values[i])
                },
                None => j == 0 || (j == 1 && skip == Some(0usize)),
            },
        decreases values.len() - j,
    {
        if skip != Some(j) {
            match best {
                None => {
                    best = Some(j);
                },
                Some(k) => {
                    if counts[j] > counts[k] || (counts[j] == counts[k] && values[j] < values[k]) {
                        best = Some(j);
                        proof {
                            assert forall|i: int| 0 <= i < j + 1 && i != j && skip != Some(i as usize)
                                implies ranks_before(m@, values[j as int], #[trigger] values[i]) by {
                                if i != k {
                                    assert(ranks_before(m@, values[k as int], values[i]));
                                    assert(values[i] != values[j as int]);
                                }
                            }
                        }
                    } else {
                        proof {
                            assert(values[k as int] != values[j as int]);
                        }
                    }
                },
            }
        }
        j = j + 1;
    }
    best
}

/// Reduces a set of readings to its low/high pair: the two most frequent
/// values (ties going to the smaller value), in ascending order.
///
/// Readings are fixed-point integers, so two readings fall in one group
/// exactly when they are equal at that resolution; this keeps the grouping
/// independent of the order of the readings.
pub fn calculate_bin_values(data: &Vec<i64>) -> (r: (i64, i64))
    ensures
        r == mode_pair(data@.to_multiset()),
{
    let ghost m = data@.to_multiset();
    proof {
        data@.to_multiset_ensures();
    }
    if data.len() == 0 {
        return (0, 0);
    }
    let mut values: Vec<i64> = Vec::new();
    let mut counts: Vec<u64> = Vec::new();
    let n = data.len();
    let mut i: usize = 0;
    proof {
        data@.take(0).to_multiset_ensures();
        lemma_multiset_empty_len(data@.take(0).to_multiset());
    }
    while i < n
        invariant
            n == data.len(),
            i <= n,
            values.len() == counts.len(),
            values@.no_duplicates(),
            forall|j: int| 0 <= j < values.len() ==> counts[j] as nat == data@.take(i as int).to_multiset().count(#[trigger] values[j]),
            forall|j: int| 0 <= j < values.len() ==> 1 <= #[trigger] counts[j] <= i,
            forall|v: i64| #[trigger] data@.take(i as int).to_multiset().count(v) > 0 ==> values@.contains(v),
        decreases n - i,
    {
        let ghost before = data@.take(i as int);
        let item = data[i];
        proof {
            assert(data@.take(i + 1) =~= before.push(item));
            before.to_multiset_ensures();
        }
        let ghost old_values = values@;
        let mut found = false;
        let mut j: usize = 0;
        while j < values.len()
            invariant
                values.len() == counts.len(),
                j <= values.len(),
                !found ==> forall|t: int| 0 <= t < j ==> values[t] != item,
                found ==> values@.contains(item),
                values@.no_duplicates(),
                forall|t: int| 0 <= t < values.len() ==> counts[t] as nat
                    == (if found && values[t] == item { before.to_multiset().count(values[t]) + 1 } else { before.to_multiset().count(values[t]) }),
                forall|t: int| 0 <= t < values.len() ==> 1 <= #[trigger] counts[t] <= (if found && values[t] == item { i + 1 } else { i as int }),
                i < n,
                n == data.len(),
            decreases values.len() - j,
        {
            if !found && values[j] == item {
                counts.set(j, counts[j] + 1);
                found = true;
            }
            j = j + 1;
        }
        if !found {
            values.push(item);
            counts.push(1);
            proof {
                assert(values@.last() == item);
            }
        }
        i = i + 1;
        proof {
            let now = data@.take(i as int).to_multiset();
            assert(now == before.to_multiset().insert(item));
            assert forall|v: i64| #[trigger] now.count(v) > 0 implies values@.contains(v) by {
                if v == item {
                    if !found {
                        assert(values[values.len() - 1] == item);
                    }
                } else {
                    assert(before.to_multiset().count(v) > 0);
                    assert(old_values.contains(v));
                    let t = choose|t: int| 0 <= t < old_values.len() && old_values[t] == v;
                    assert(values@[t] == v);
                }
            }
        }
    }
    proof {
        assert(data@.take(n as int) =~= data@);
    }
    let first = best_index(&values, &counts, Ghost(m), None);
    let k = match first {
        Some(k) => k,
        None => {
            proof {
                assert(m.count(data@[0]) > 0);
                assert(values@.contains(data@[0]));
            }
            0
        },
    };
    let a = values[k];
    proof {
        assert forall|y: i64| #[trigger] m.count(y) > 0 && y != a implies ranks_before(m, a, y) by {
            assert(values@.contains(y));
            let t = choose|t: int| 0 <= t < values.len() && values[t] == y;
        }
        assert(is_first(m, a));
        lemma_first_unique(m, a);
    }
    let second = best_index(&values, &counts, Ghost(m), Some(k));
    let b = match second {
        Some(l) => {
            let b = values[l];
            proof {
                assert forall|y: i64| #[trigger] m.count(y) > 0 && y != a && y != b implies ranks_before(m, b, y) by {
                    assert(values@.contains(y));
                    let t = choose|t: int| 0 <= t < values.len() && values[t] == y;
                }
                assert(values@.no_duplicates());
                assert(b != a);
                assert(is_second(m, a, b));
                lemma_second_unique(m, a, b);
            }
            b
        },
        None => {
            proof {
                assert forall|b: i64| !is_second(m, a, b) by {
                    if is_second(m, a, b) {
                        assert(values@.contains(b));
                        let t = choose|t: int| 0 <= t < values.len() && values[t] == b;
                        assert(t == k);
                    }
                }
            }
            a
        },
    };
    if a <= b {
        (a, b)
    } else {
        (b, a)
    }
}

} // verus!
