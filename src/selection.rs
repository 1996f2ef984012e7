use vstd::prelude::*;

verus! {

/// How many keys of `s` are strictly greater than `v`.
pub open spec fn count_above(s: Seq<u64>, v: u64) -> nat
    decreases s.len(),
{
    if s.len() == 0 {
        0
    } else {
        count_above(s.drop_last(), v) + if s.last() > v {
            1nat
        } else {
            0nat
        }
    }
}

/// How many keys of `s` are at least `v`.
pub open spec fn count_at_least(s: Seq<u64>, v: u64) -> nat
    decreases s.len(),
{
    if s.len() == 0 {
        0
    } else {
        count_at_least(s.drop_last(), v) + if s.last() >= v {
            1nat
        } else {
            0nat
        }
    }
}

/// `v` is the `n`-th highest key of `s`, counting equal keys once each: fewer
/// than `n` keys lie above it, and at least `n` keys lie at or above it.
pub open spec fn is_nth_highest(s: Seq<u64>, n: nat, v: u64) -> bool {
    count_above(s, v) < n <= count_at_least(s, v)
}

proof fn lemma_none_above(s: Seq<u64>, v: u64)
    requires
        forall|j: int| 0 <= j < s.len() ==> s[j] <= v,
    ensures
        count_above(s, v) == 0,
    decreases s.len(),
{
    if s.len() > 0 {
        lemma_none_above(s.drop_last(), v);
    }
}

proof fn lemma_some_below(s: Seq<u64>, v: u64)
    requires
        count_at_least(s, v) < s.len(),
    ensures
        exists|j: int| 0 <= j < s.len() && s[j] < v,
    decreases s.len(),
{
    if s.len() > 0 {
        if s.last() < v {
            assert(s[s.len() - 1] < v);
        } else {
            lemma_some_below(s.drop_last(), v);
            let j = choose|j: int| 0 <= j < s.drop_last().len() && s.drop_last()[j] < v;
            assert(s[j] < v);
        }
    }
}

/// With no key strictly between `a` and `b`, the keys above `a` are exactly
/// the keys at or above `b`.
proof fn lemma_adjacent_counts(s: Seq<u64>, a: u64, b: u64)
    requires
        a < b,
        forall|j: int| 0 <= j < s.len() ==> !(a < #[trigger] s[j] < b),
    ensures
        count_above(s, a) == count_at_least(s, b),
    decreases s.len(),
{
    if s.len() > 0 {
        lemma_adjacent_counts(s.drop_last(), a, b);
    }
}

proof fn lemma_counts_ordered(s: Seq<u64>, a: u64, b: u64)
    requires
        a < b,
    ensures
        count_at_least(s, b) <= count_above(s, a),
    decreases s.len(),
{
    if s.len() > 0 {
        lemma_counts_ordered(s.drop_last(), a, b);
    }
}

/// The `n`-th highest key is determined by the keys alone: any two positions
/// that meet the contract of `nth_highest` are the same, so the normalization
/// reference of a run depends on its input only.
pub proof fn lemma_nth_highest_unique(keys: Seq<u64>, n: nat, r1: int, r2: int)
    requires
        0 <= r1 < keys.len(),
        0 <= r2 < keys.len(),
        is_nth_highest(keys, n, keys[r1]),
        is_nth_highest(keys, n, keys[r2]),
        forall|j: int| 0 <= j < r1 ==> keys[j] != keys[r1],
        forall|j: int| 0 <= j < r2 ==> keys[j] != keys[r2],
    ensures
        r1 == r2,
{
    if keys[r1] < keys[r2] {
        lemma_counts_ordered(keys, keys[r1], keys[r2]);
    } else if keys[r2] < keys[r1] {
        lemma_counts_ordered(keys, keys[r2], keys[r1]);
    }
}

/// The number of keys at least `v`.
fn count_keys_at_least(keys: &Vec<u64>, v: u64) -> (r: usize)
    ensures
        r == count_at_least(keys@, v),
{
    let n = keys.len();
    let mut c: usize = 0;
    let mut i: usize = 0;
    while i < n
        invariant
            n == keys@.len(),
            0 <= i <= n,
            c == count_at_least(keys@.subrange(0, i as int), v),
            c <= i,
        decreases n - i,
    {
        assert(keys@.subrange(0, i + 1).drop_last() =~= keys@.subrange(0, i as int));
        if keys[i] >= v {
            c += 1;
        }
        i += 1;
    }
    assert(keys@.subrange(0, n as int) =~= keys@);
    c
}

/// The position of the `n`-th highest key (equal keys counted once each), at
/// its first occurrence. The value found there is the reference against which
/// a normalization divides: `n` ranks below the top rather than the top itself.
pub fn nth_highest(keys: &Vec<u64>, n: usize) -> (r: usize)
    requires
        1 <= n <= keys@.len(),
    ensures
        r < keys@.len(),
        is_nth_highest(keys@, n as nat, keys@[r as int]),
        forall|j: int| 0 <= j < r ==> keys@[j] != keys@[r as int],
{
    let len = keys.len();
    let mut cur: usize = 0;
    let mut i: usize = 1;
    while i < len
        invariant
            len == keys@.len(),
            1 <= i <= len,
            cur < i,
            forall|j: int| 0 <= j < i ==> keys@[j] <= keys@[cur as int],
            forall|j: int| 0 <= j < cur ==> keys@[j] != keys@[cur as int],
        decreases len - i,
    {
        if keys[i] > keys[cur] {
            cur = i;
        }
        i += 1;
    }
    proof {
        lemma_none_above(keys@, keys@[cur as int]);
    }
    loop
        invariant
            len == keys@.len(),
            1 <= n <= len,
            cur < len,
            count_above(keys@, keys@[cur as int]) < n,
            forall|j: int| 0 <= j < cur ==> keys@[j] != keys@[cur as int],
        decreases keys@[cur as int],
    {
        let at_least = count_keys_at_least(keys, keys[cur]);
        if at_least >= n {
            return cur;
        }
        proof {
            lemma_some_below(keys@, keys@[cur as int]);
        }
        let mut next: usize = len;
        let mut i: usize = 0;
        while i < len
            invariant
                len == keys@.len(),
                cur < len,
                0 <= i <= len,
                next <= len,
                next == len ==> forall|j: int| 0 <= j < i ==> keys@[j] >= keys@[cur as int],
                next < len ==> next < i && keys@[next as int] < keys@[cur as int],
                next < len ==> forall|j: int|
                    0 <= j < i && keys@[j] < keys@[cur as int] ==> keys@[j] <= keys@[next as int],
                next < len ==> forall|j: int| 0 <= j < next ==> keys@[j] != keys@[next as int],
            decreases len - i,
        {
            if keys[i] < keys[cur] && (next == len || keys[i] > keys[next]) {
                next = i;
            }
            i += 1;
        }
        proof {
            lemma_adjacent_counts(keys@, keys@[next as int], keys@[cur as int]);
        }
        cur = next;
    }
}

/// The positions of the `k` highest keys (all positions when there are fewer
/// keys), highest first; among equal keys the earlier position comes first.
pub fn best_indices(keys: &Vec<u64>, k: usize) -> (r: Vec<usize>)
    ensures
        r@.len() == if k <= keys@.len() { k as int } else { keys@.len() as int },
        forall|a: int| 0 <= a < r@.len() ==> r@[a] < keys@.len(),
        forall|a: int, b: int| 0 <= a < b < r@.len() ==> r@[a] != r@[b],
        forall|a: int, b: int|
            0 <= a < b < r@.len() ==> keys@[r@[a] as int] > keys@[r@[b] as int] || (keys@[r@[a] as int]
                == keys@[r@[b] as int] && r@[a] < r@[b]),
        forall|a: int, u: int|
            #![trigger r@[a], keys@[u]]
            0 <= a < r@.len() && 0 <= u < keys@.len() && !r@.contains(u as usize)
                ==> keys@[r@[a] as int] > keys@[u] || (keys@[r@[a] as int] == keys@[u] && r@[a] < u),
{
    let len = keys.len();
    let want = if k <= len { k } else { len };
    let mut taken: Vec<bool> = Vec::new();
    let mut t: usize = 0;
    while t < len
        invariant
            0 <= t <= len,
            taken@.len() == t,
            forall|j: int| 0 <= j < t ==> !taken@[j],
            count_free(taken@) == t,
        decreases len - t,
    {
        let ghost before = taken@;
        taken.push(false);
        assert(taken@.drop_last() =~= before);
        t += 1;
    }
    let mut out: Vec<usize> = Vec::new();
    while out.len() < want
        invariant
            len == keys@.len(),
            want <= len,
            out@.len() <= want,
            taken@.len() == len,
            count_free(taken@) + out@.len() == len,
            forall|a: int| 0 <= a < out@.len() ==> out@[a] < len,
            forall|j: int| 0 <= j < len ==> (taken@[j] <==> out@.contains(j as usize)),
            forall|a: int, b: int| 0 <= a < b < out@.len() ==> out@[a] != out@[b],
            forall|a: int, b: int|
                0 <= a < b < out@.len() ==> keys@[out@[a] as int] > keys@[out@[b] as int] || (
                keys@[out@[a] as int] == keys@[out@[b] as int] && out@[a] < out@[b]),
            forall|a: int, u: int|
                #![trigger out@[a], keys@[u]]
                0 <= a < out@.len() && 0 <= u < len && !out@.contains(u as usize) ==> keys@[out@[a] as int]
                    > keys@[u] || (keys@[out@[a] as int] == keys@[u] && out@[a] < u),
        decreases want - out@.len(),
    {
        let mut best: usize = len;
        let mut i: usize = 0;
        while i < len
            invariant
                len == keys@.len(),
                taken@.len() == len,
                0 <= i <= len,
                best == len || (best < i && !taken@[best as int]),
                best == len ==> forall|j: int| 0 <= j < i ==> taken@[j],
                best < len ==> forall|j: int|
                    0 <= j < i && !taken@[j] ==> keys@[best as int] > keys@[j] || (keys@[best as int]
                        == keys@[j] && best <= j),
            decreases len - i,
        {
            if !taken[i] && (best == len || keys[i] > keys[best]) {
                best = i;
            }
            i += 1;
        }
        if best == len {
            proof {
                lemma_some_free(taken@);
            }
            assert(false);
        }
        let ghost old_out = out@;
        proof {
            lemma_take_one(taken@, best as int);
        }
        out.push(best);
        taken.set(best, true);
        proof {
            assert(out@[out@.len() - 1] == best);
            assert(out@.contains(best));
            assert forall|j: int| 0 <= j < len implies (taken@[j] <==> out@.contains(j as usize)) by {
                if j != best {
                    if out@.contains(j as usize) {
                        let a = choose|a: int| 0 <= a < out@.len() && out@[a] == j as usize;
                        assert(old_out[a] == j as usize);
                    }
                    if old_out.contains(j as usize) {
                        let a = choose|a: int| 0 <= a < old_out.len() && old_out[a] == j as usize;
                        assert(out@[a] == j as usize);
                    }
                }
            }
            assert forall|a: int, u: int|
                #![trigger out@[a], keys@[u]]
                0 <= a < out@.len() && 0 <= u < len && !out@.contains(u as usize) implies keys@[out@[a] as int]
                    > keys@[u] || (keys@[out@[a] as int] == keys@[u] && out@[a] < u) by {
                if !old_out.contains(u as usize) {
                    assert(!taken@[u] || u == best);
                } else {
                    let b = choose|b: int| 0 <= b < old_out.len() && old_out[b] == u as usize;
                    assert(out@[b] == u as usize);
                }
            }
        }
    }
    out
}

/// How many positions of `s` are still free.
pub open spec fn count_free(s: Seq<bool>) -> nat
    decreases s.len(),
{
    if s.len() == 0 {
        0
    } else {
        count_free(s.drop_last()) + if s.last() {
            0nat
        } else {
            1nat
        }
    }
}

proof fn lemma_take_one(s: Seq<bool>, i: int)
    requires
        0 <= i < s.len(),
        !s[i],
    ensures
        count_free(s.update(i, true)) + 1 == count_free(s),
    decreases s.len(),
{
    if i == s.len() - 1 {
        assert(s.update(i, true).drop_last() =~= s.drop_last());
    } else {
        lemma_take_one(s.drop_last(), i);
        assert(s.update(i, true).drop_last() =~= s.drop_last().update(i, true));
    }
}

proof fn lemma_some_free(s: Seq<bool>)
    requires
        count_free(s) > 0,
    ensures
        exists|j: int| 0 <= j < s.len() && !s[j],
    decreases s.len(),
{
    if !s.last() {
        assert(!s[s.len() - 1]);
    } else {
        lemma_some_free(s.drop_last());
        let j = choose|j: int| 0 <= j < s.drop_last().len() && !s.drop_last()[j];
        assert(!s[j]);
    }
}

} // verus!
