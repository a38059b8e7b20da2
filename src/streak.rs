use vstd::prelude::*;

verus! {

pub open spec fn sum_of(s: Seq<i32>) -> int
    decreases s.len(),
{
    if s.len() == 0 {
        0
    } else {
        sum_of(s.drop_last()) + s.last()
    }
}

pub open spec fn squares_of(s: Seq<i32>) -> int
    decreases s.len(),
{
    if s.len() == 0 {
        0
    } else {
        squares_of(s.drop_last()) + s.last() * s.last()
    }
}

/// The sum of the `k` scores that start at `i`.
pub open spec fn window_sum(s: Seq<i32>, i: int, k: int) -> int {
    sum_of(s.subrange(i, i + k))
}

/// `start` is the first window of length `k` with the largest sum.
pub open spec fn is_best_start(s: Seq<i32>, k: int, start: int) -> bool {
    &&& 0 <= start <= s.len() - k
    &&& forall|j: int| 0 <= j <= s.len() - k ==> window_sum(s, j, k) <= window_sum(s, start, k)
    &&& forall|j: int| 0 <= j < start ==> window_sum(s, j, k) < window_sum(s, start, k)
}

proof fn lemma_sum_drop_first(s: Seq<i32>)
    requires
        s.len() > 0,
    ensures
        sum_of(s) == s[0] + sum_of(s.drop_first()),
    decreases s.len(),
{
    if s.len() > 1 {
        lemma_sum_drop_first(s.drop_last());
        assert(s.drop_last().drop_first() =~= s.drop_first().drop_last());
    } else {
        assert(s.drop_last() =~= Seq::<i32>::empty());
        assert(s.drop_first() =~= Seq::<i32>::empty());
    }
}

proof fn lemma_sum_bound(s: Seq<i32>)
    ensures
        -(s.len() as int) * 2147483648 <= sum_of(s) <= (s.len() as int) * 2147483647,
    decreases s.len(),
{
    if s.len() > 0 {
        lemma_sum_bound(s.drop_last());
    }
}

/// The window sum moves along by dropping the first score and taking the next.
proof fn lemma_window_slide(s: Seq<i32>, i: int, k: int)
    requires
        0 <= i,
        0 < k,
        i + k < s.len(),
    ensures
        window_sum(s, i + 1, k) == window_sum(s, i, k) - s[i] + s[i + k],
{
    let w = s.subrange(i, i + k + 1);
    lemma_sum_drop_first(w);
    assert(w.drop_first() =~= s.subrange(i + 1, i + 1 + k));
    assert(w.drop_last() =~= s.subrange(i, i + k));
}

/// The start of the first window of `k` scores with the largest sum.
pub fn best_window_start(scores: &[i32], k: usize) -> (r: usize)
    requires
        0 < k <= scores.len(),
    ensures
        is_best_start(scores@, k as int, r as int),
{
    let s = Ghost(scores@);
    let mut cur: i128 = 0;
    let mut i: usize = 0;
    while i < k
        invariant
            i <= k <= scores.len(),
            s@ == scores@,
            cur == sum_of(scores@.subrange(0, i as int)),
            -(i as int) * 2147483648 <= cur <= (i as int) * 2147483647,
        decreases k - i,
    {
        proof {
            assert(scores@.subrange(0, i as int + 1).drop_last() =~= scores@.subrange(0, i as int));
        }
        cur = cur + scores[i] as i128;
        i += 1;
    }
    let mut best: i128 = cur;
    let mut best_start: usize = 0;
    let mut start: usize = 0;
    let last = scores.len() - k;
    while start < last
        invariant
            0 < k <= scores.len(),
            last == scores.len() - k,
            start <= last,
            best_start <= start,
            cur == window_sum(scores@, start as int, k as int),
            best == window_sum(scores@, best_start as int, k as int),
            forall|j: int| 0 <= j <= start ==> window_sum(scores@, j, k as int) <= best,
            forall|j: int| 0 <= j < best_start ==> window_sum(scores@, j, k as int) < best,
        decreases last - start,
    {
        proof {
            lemma_window_slide(scores@, start as int, k as int);
            lemma_sum_bound(scores@.subrange(start as int, start + k));
            lemma_sum_bound(scores@.subrange(start + 1, start + 1 + k));
        }
        cur = cur - scores[start] as i128 + scores[start + k] as i128;
        start += 1;
        if cur > best {
            best = cur;
            best_start = start;
        }
    }
    best_start
}

/// The best streak: with no window length, the whole history; otherwise the
/// first run of `n` consecutive scores with the largest sum. When no such run
/// can be formed (`n` is zero, or larger than the history), the streak is
/// empty.
pub fn best_streak(scores: &[i32], n: Option<usize>) -> (r: Vec<i32>)
    ensures
        n is None ==> r@ == scores@,
        n is Some && (n->0 == 0 || n->0 > scores.len()) ==> r@.len() == 0,
        n is Some && 0 < n->0 <= scores.len() ==> exists|st: int|
            is_best_start(scores@, n->0 as int, st) && r@ == scores@.subrange(st, st + n->0),
{
    match n {
        None => {
            let mut out: Vec<i32> = Vec::new();
            let mut i: usize = 0;
            while i < scores.len()
                invariant
                    i <= scores.len(),
                    out@ == scores@.take(i as int),
                decreases scores.len() - i,
            {
                out.push(scores[i]);
                i += 1;
                proof {
                    assert(out@ =~= scores@.take(i as int));
                }
            }
            proof {
                assert(scores@.take(scores.len() as int) =~= scores@);
            }
            out
        },
        Some(k) => {
            if k == 0 || k > scores.len() {
                return Vec::new();
            }
            let st = best_window_start(scores, k);
            let mut out: Vec<i32> = Vec::new();
            let mut i: usize = 0;
            while i < k
                invariant
                    i <= k,
                    st + k <= scores.len(),
                    out@ == scores@.subrange(st as int, st + i),
                decreases k - i,
            {
                out.push(scores[st + i]);
                i += 1;
                proof {
                    assert(out@ =~= scores@.subrange(st as int, st + i));
                }
            }
            out
        },
    }
}

/// A streak with the totals that its mean and population standard deviation
/// are computed from: mean `total / n`, variance `sum_of_squares / n - mean^2`
/// for `n` scores.
#[derive(Debug, PartialEq, Eq)]
pub struct Streak {
    pub scores: Vec<i32>,
    pub total: i128,
    pub sum_of_squares: i128,
}

/// The best streak of a chronological score history, with its totals.
pub fn streak_of(scores: &[i32], n: Option<usize>) -> (r: Streak)
    ensures
        n is None ==> r.scores@ == scores@,
        n is Some && (n->0 == 0 || n->0 > scores.len()) ==> r.scores@.len() == 0,
        n is Some && 0 < n->0 <= scores.len() ==> exists|st: int|
            is_best_start(scores@, n->0 as int, st) && r.scores@ == scores@.subrange(st, st + n->0),
        r.total == sum_of(r.scores@),
        r.sum_of_squares == squares_of(r.scores@),
{
    let chosen = best_streak(scores, n);
    let mut total: i128 = 0;
    let mut squares: i128 = 0;
    let mut i: usize = 0;
    while i < chosen.len()
        invariant
            i <= chosen.len(),
            total == sum_of(chosen@.take(i as int)),
            squares == squares_of(chosen@.take(i as int)),
            -(i as int) * 2147483648 <= total <= (i as int) * 2147483647,
            0 <= squares <= (i as int) * 4611686018427387904,
        decreases chosen.len() - i,
    {
        proof {
            assert(chosen@.take(i as int + 1).drop_last() =~= chosen@.take(i as int));
        }
        let x = chosen[i] as i128;
        proof {
            assert(0 <= x * x <= 4611686018427387904) by (nonlinear_arith)
                requires
                    -2147483648 <= x <= 2147483647,
            ;
        }
        total = total + x;
        squares = squares + x * x;
        i += 1;
    }
    proof {
        assert(chosen@.take(chosen.len() as int) =~= chosen@);
    }
    Streak { scores: chosen, total, sum_of_squares: squares }
}

} // verus!
