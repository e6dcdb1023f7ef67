//! Trimmed-mean statistics over a sequence of solve times.
//!
//! A time is a whole number of nanoseconds. An "average of N" is the mean of
//! the N most recent times after one best and one worst time have been set
//! aside; it is undefined until N times exist.

use vstd::prelude::*;

verus! {

/// Window of the short average.
pub const SHORT_WINDOW: usize = 5;

/// Window of the long average.
pub const LONG_WINDOW: usize = 12;

/// Sum of all the times of `s`.
pub open spec fn total(s: Seq<u64>) -> nat
    decreases s.len(),
{
    if s.len() == 0 {
        0
    } else {
        total(s.drop_last()) + s.last() as nat
    }
}

/// The smallest time of a non-empty `s`.
pub open spec fn least(s: Seq<u64>) -> u64
    recommends
        s.len() > 0,
    decreases s.len(),
{
    if s.len() <= 1 {
        s[0]
    } else if s.last() < least(s.drop_last()) {
        s.last()
    } else {
        least(s.drop_last())
    }
}

/// The largest time of a non-empty `s`.
pub open spec fn greatest(s: Seq<u64>) -> u64
    recommends
        s.len() > 0,
    decreases s.len(),
{
    if s.len() <= 1 {
        s[0]
    } else if s.last() > greatest(s.drop_last()) {
        s.last()
    } else {
        greatest(s.drop_last())
    }
}

/// What is left of the sum of `w` once one smallest and one largest time are
/// taken away. Equal times count one by one: only a single occurrence of each
/// extreme leaves.
pub open spec fn trimmed_total(w: Seq<u64>) -> int
    recommends
        w.len() >= 2,
{
    total(w) - least(w) - greatest(w)
}

/// Mean of `w` without one best and one worst time, rounded down to a whole
/// nanosecond.
pub open spec fn trimmed_mean(w: Seq<u64>) -> int
    recommends
        w.len() >= 3,
{
    trimmed_total(w) / (w.len() - 2)
}

/// The `n` most recent times of `s`, oldest first.
pub open spec fn recent(s: Seq<u64>, n: nat) -> Seq<u64>
    recommends
        n <= s.len(),
{
    s.subrange(s.len() - n, s.len() as int)
}

/// Average of the `n` most recent times of `s`: undefined while `s` holds
/// fewer than `n` times, and for windows too small to trim.
pub open spec fn average(s: Seq<u64>, n: nat) -> Option<u64> {
    if 3 <= n <= s.len() {
        Some(trimmed_mean(recent(s, n)) as u64)
    } else {
        None
    }
}

/// The short and the long average of a solve of `time` that follows the
/// solves `prior`.
pub open spec fn stats_for(prior: Seq<u64>, time: u64) -> (Option<u64>, Option<u64>) {
    (
        average(prior.push(time), SHORT_WINDOW as nat),
        average(prior.push(time), LONG_WINDOW as nat),
    )
}

/// Every time of `s` lies between `least(s)` and `greatest(s)`, and both are
/// times of `s`.
pub proof fn lemma_extremes(s: Seq<u64>)
    requires
        s.len() > 0,
    ensures
        forall|i: int| 0 <= i < s.len() ==> least(s) <= #[trigger] s[i] <= greatest(s),
        exists|i: int| 0 <= i < s.len() && s[i] == least(s),
        exists|i: int| 0 <= i < s.len() && s[i] == greatest(s),
    decreases s.len(),
{
    if s.len() == 1 {
        assert(s[0] == least(s));
        assert(s[0] == greatest(s));
    } else {
        let p = s.drop_last();
        lemma_extremes(p);
        let a = choose|i: int| 0 <= i < p.len() && p[i] == least(p);
        let b = choose|i: int| 0 <= i < p.len() && p[i] == greatest(p);
        assert(s[a] == p[a] && s[b] == p[b]);
        let last = s.len() - 1;
        assert(s[if s.last() < least(p) { last } else { a }] == least(s));
        assert(s[if s.last() > greatest(p) { last } else { b }] == greatest(s));
        assert forall|i: int| 0 <= i < s.len() implies least(s) <= #[trigger] s[i] <= greatest(
            s,
        ) by {
            if i < p.len() {
                assert(s[i] == p[i]);
            }
        }
    }
}

/// With one smallest and one largest time set aside, what remains of `s` sums
/// to no less than that many smallest times and no more than that many
/// largest.
pub proof fn lemma_trimmed_total_bounds(s: Seq<u64>)
    requires
        s.len() >= 2,
    ensures
        (s.len() - 2) * least(s) <= trimmed_total(s) <= (s.len() - 2) * greatest(s),
    decreases s.len(),
{
    let p = s.drop_last();
    if s.len() == 2 {
        assert(total(p.drop_last()) == 0);
        assert(total(p) == p[0]);
        assert(total(s) == s[0] + s[1]);
    } else {
        lemma_trimmed_total_bounds(p);
        lemma_extremes(p);
        let n = p.len() - 2;
        let x = s.last() as int;
        let lo = least(p) as int;
        let hi = greatest(p) as int;
        assert(n * lo <= trimmed_total(p) <= n * hi);
        assert((n + 1) * lo == n * lo + lo) by (nonlinear_arith);
        assert((n + 1) * hi == n * hi + hi) by (nonlinear_arith);
        if x < lo {
            assert(trimmed_total(s) == trimmed_total(p) + lo);
            assert((n + 1) * x <= (n + 1) * lo) by (nonlinear_arith)
                requires
                    x <= lo,
                    n >= 0,
            ;
        } else if x > hi {
            assert(trimmed_total(s) == trimmed_total(p) + hi);
            assert((n + 1) * hi <= (n + 1) * x) by (nonlinear_arith)
                requires
                    hi <= x,
                    n >= 0,
            ;
        } else {
            assert(trimmed_total(s) == trimmed_total(p) + x);
        }
    }
}

/// A trimmed mean lies between the best and the worst time of its window.
pub proof fn lemma_trimmed_mean_bounds(w: Seq<u64>)
    requires
        w.len() >= 3,
    ensures
        least(w) <= trimmed_mean(w) <= greatest(w),
{
    lemma_trimmed_total_bounds(w);
    let k = w.len() - 2;
    let t = trimmed_total(w);
    let lo = least(w) as int;
    let hi = greatest(w) as int;
    assert(lo <= t / k <= hi) by (nonlinear_arith)
        requires
            k > 0,
            k * lo <= t <= k * hi,
    ;
}

/// Trimmed mean of the times of `times` from index `start` on.
fn window_mean(times: &Vec<u64>, start: usize) -> (r: u64)
    requires
        start + 3 <= times.len(),
    ensures
        r == trimmed_mean(times@.subrange(start as int, times.len() as int)),
{
    let ghost w = times@.subrange(start as int, times.len() as int);
    let mut sum: u128 = times[start] as u128;
    let mut lo: u64 = times[start];
    let mut hi: u64 = times[start];
    let mut i: usize = start + 1;
    proof {
        assert(w.take(1).drop_last().len() == 0);
        assert(total(w.take(1).drop_last()) == 0);
        assert(w.take(1).last() == times[start as int]);
    }
    while i < times.len()
        invariant
            start < i <= times.len(),
            start + 3 <= times.len(),
            w == times@.subrange(start as int, times.len() as int),
            sum == total(w.take(i - start)),
            lo == least(w.take(i - start)),
            hi == greatest(w.take(i - start)),
            sum <= (i - start) * u64::MAX,
        decreases times.len() - i,
    {
        let x: u64 = times[i];
        proof {
            let next = w.take(i - start + 1);
            assert(next.drop_last() == w.take(i - start));
            assert(next.last() == x);
        }
        sum = sum + x as u128;
        if x < lo {
            lo = x;
        }
        if x > hi {
            hi = x;
        }
        i = i + 1;
    }
    proof {
        assert(w.take(i - start) == w);
        lemma_trimmed_total_bounds(w);
        lemma_trimmed_mean_bounds(w);
        assert(0 <= (w.len() - 2) * least(w)) by (nonlinear_arith)
            requires
                w.len() >= 2,
        ;
    }
    let count: u128 = (times.len() - start - 2) as u128;
    let rest: u128 = sum - lo as u128 - hi as u128;
    (rest / count) as u64
}

/// Average of the `n` most recent times: the mean of that window without one
/// best and one worst time, or `None` while fewer than `n` times exist.
pub fn average_of(times: &Vec<u64>, n: usize) -> (r: Option<u64>)
    ensures
        r == average(times@, n as nat),
        r is Some <==> 3 <= n <= times@.len(),
{
    if n < 3 || times.len() < n {
        None
    } else {
        Some(window_mean(times, times.len() - n))
    }
}

/// An average looks at its window only: it is the same over the whole
/// history and over any tail of it that still holds the window.
pub proof fn lemma_average_of_tail(s: Seq<u64>, k: nat, n: nat)
    requires
        k <= s.len(),
        n <= k || k == s.len(),
    ensures
        average(recent(s, k), n) == average(s, n),
{
    if k == s.len() {
        assert(recent(s, k) == s);
    } else if 3 <= n {
        assert(recent(recent(s, k), n) == recent(s, n));
    }
}

/// The two averages that belong to a solve of `new_time` coming after the
/// solves `prior`: over the 5 and over the 12 most recent times, the new one
/// included. `prior` may be the whole history or any tail of it.
pub fn compute_stats(prior: &Vec<u64>, new_time: u64) -> (r: (Option<u64>, Option<u64>))
    ensures
        r == stats_for(prior@, new_time),
        r.0 is Some <==> prior@.len() + 1 >= SHORT_WINDOW,
        r.1 is Some <==> prior@.len() + 1 >= LONG_WINDOW,
{
    let keep: usize = if prior.len() < LONG_WINDOW - 1 {
        prior.len()
    } else {
        LONG_WINDOW - 1
    };
    let from: usize = prior.len() - keep;
    let mut window: Vec<u64> = Vec::new();
    let mut i: usize = from;
    while i < prior.len()
        invariant
            from <= i <= prior.len(),
            window@ == prior@.subrange(from as int, i as int),
        decreases prior.len() - i,
    {
        window.push(prior[i]);
        i = i + 1;
    }
    window.push(new_time);
    proof {
        let all = prior@.push(new_time);
        assert(window@ == recent(all, (keep + 1) as nat));
        lemma_average_of_tail(all, (keep + 1) as nat, SHORT_WINDOW as nat);
        lemma_average_of_tail(all, (keep + 1) as nat, LONG_WINDOW as nat);
    }
    (average_of(&window, SHORT_WINDOW), average_of(&window, LONG_WINDOW))
}

/// The best of `s`: its smallest time, if it has any.
pub open spec fn best(s: Seq<u64>) -> Option<u64> {
    if s.len() == 0 {
        None
    } else {
        Some(least(s))
    }
}

/// The best among the values of `s` that are present, if any is.
pub open spec fn best_present(s: Seq<Option<u64>>) -> Option<u64>
    decreases s.len(),
{
    if s.len() == 0 {
        None
    } else {
        better(best_present(s.drop_last()), s.last())
    }
}

/// The smaller of two results, where an absent one never wins.
pub open spec fn better(a: Option<u64>, b: Option<u64>) -> Option<u64> {
    match (a, b) {
        (Some(x), Some(y)) => if y < x {
            b
        } else {
            a
        },
        (Some(_), None) => a,
        (None, _) => b,
    }
}

/// A best `new` is no worse than an earlier best `old`: where `old` exists,
/// `new` exists too and is not larger.
pub open spec fn no_worse(new: Option<u64>, old: Option<u64>) -> bool {
    match old {
        Some(o) => new is Some && new->0 <= o,
        None => true,
    }
}

/// Plain mean of all times of `s`, rounded down, if it has any.
pub open spec fn mean(s: Seq<u64>) -> Option<u64> {
    if s.len() == 0 {
        None
    } else {
        Some((total(s) / s.len()) as u64)
    }
}

/// Personal best: the smallest of all times, `None` for an empty history.
pub fn best_of(times: &Vec<u64>) -> (r: Option<u64>)
    ensures
        r == best(times@),
{
    if times.len() == 0 {
        return None;
    }
    let mut lo: u64 = times[0];
    let mut i: usize = 1;
    while i < times.len()
        invariant
            0 < i <= times.len(),
            lo == least(times@.take(i as int)),
        decreases times.len() - i,
    {
        proof {
            assert(times@.take(i + 1).drop_last() == times@.take(i as int));
        }
        if times[i] < lo {
            lo = times[i];
        }
        i = i + 1;
    }
    proof {
        assert(times@.take(i as int) == times@);
    }
    Some(lo)
}

/// The smallest of the values that are present, `None` where none is.
pub fn best_present_of(values: &Vec<Option<u64>>) -> (r: Option<u64>)
    ensures
        r == best_present(values@),
{
    let mut found: Option<u64> = None;
    let mut i: usize = 0;
    while i < values.len()
        invariant
            i <= values.len(),
            found == best_present(values@.take(i as int)),
        decreases values.len() - i,
    {
        proof {
            assert(values@.take(i + 1).drop_last() == values@.take(i as int));
        }
        found = match (found, values[i]) {
            (Some(x), Some(y)) => if y < x {
                Some(y)
            } else {
                Some(x)
            },
            (Some(x), None) => Some(x),
            (None, v) => v,
        };
        i = i + 1;
    }
    proof {
        assert(values@.take(i as int) == values@);
    }
    found
}

/// Mean of all times, rounded down to a whole nanosecond; `None` for an
/// empty history.
pub fn mean_of(times: &Vec<u64>) -> (r: Option<u64>)
    ensures
        r == mean(times@),
{
    if times.len() == 0 {
        return None;
    }
    let mut sum: u128 = 0;
    let mut i: usize = 0;
    while i < times.len()
        invariant
            i <= times.len(),
            sum == total(times@.take(i as int)),
            sum <= i * u64::MAX,
        decreases times.len() - i,
    {
        proof {
            assert(times@.take(i + 1).drop_last() == times@.take(i as int));
        }
        sum = sum + times[i] as u128;
        i = i + 1;
    }
    proof {
        assert(times@.take(i as int) == times@);
        let n = times.len() as int;
        let t = total(times@) as int;
        assert(0 <= t / n <= u64::MAX) by (nonlinear_arith)
            requires
                n > 0,
                0 <= t <= n * u64::MAX,
        ;
    }
    Some((sum / times.len() as u128) as u64)
}

/// A personal best never gets worse: with one more time the smallest time is
/// the old smallest or smaller.
pub proof fn lemma_best_never_worse(s: Seq<u64>, time: u64)
    ensures
        no_worse(best(s.push(time)), best(s)),
        best(s.push(time)) == better(best(s), Some(time)),
{
    assert(s.push(time).drop_last() == s);
}

/// The best of the values present never gets worse when one more value, or one
/// more absence, follows.
pub proof fn lemma_best_present_never_worse(s: Seq<Option<u64>>, next: Option<u64>)
    ensures
        no_worse(best_present(s.push(next)), best_present(s)),
{
    assert(s.push(next).drop_last() == s);
}

/// A best over a history is no worse than the best over any earlier state of
/// it, however many solves came in between.
pub proof fn lemma_best_of_longer_history(s: Seq<u64>, k: int)
    requires
        0 <= k <= s.len(),
    ensures
        no_worse(best(s), best(s.take(k))),
    decreases s.len() - k,
{
    if k == s.len() {
        assert(s.take(k) == s);
    } else {
        lemma_best_of_longer_history(s, k + 1);
        assert(s.take(k + 1) == s.take(k).push(s[k]));
        lemma_best_never_worse(s.take(k), s[k]);
    }
}

/// The same for the best of the values present.
pub proof fn lemma_best_present_of_longer_history(s: Seq<Option<u64>>, k: int)
    requires
        0 <= k <= s.len(),
    ensures
        no_worse(best_present(s), best_present(s.take(k))),
    decreases s.len() - k,
{
    if k == s.len() {
        assert(s.take(k) == s);
    } else {
        lemma_best_present_of_longer_history(s, k + 1);
        assert(s.take(k + 1) == s.take(k).push(s[k]));
        lemma_best_present_never_worse(s.take(k), s[k]);
    }
}

/// Whether `s` is in ascending order.
pub open spec fn ascending(s: Seq<u64>) -> bool {
    forall|i: int, j: int| 0 <= i <= j < s.len() ==> s[i] <= s[j]
}

/// Taking one time out of `s` takes exactly that time off the sum.
pub proof fn lemma_total_remove(s: Seq<u64>, i: int)
    requires
        0 <= i < s.len(),
    ensures
        total(s.remove(i)) + s[i] == total(s),
    decreases s.len(),
{
    if i == s.len() - 1 {
        assert(s.remove(i) == s.drop_last());
    } else {
        lemma_total_remove(s.drop_last(), i);
        assert(s.remove(i).drop_last() == s.drop_last().remove(i));
        assert(s.remove(i).last() == s.last());
    }
}

/// The sum does not depend on the order of the times.
pub proof fn lemma_total_of_permutation(a: Seq<u64>, b: Seq<u64>)
    requires
        a.to_multiset() == b.to_multiset(),
    ensures
        total(a) == total(b),
    decreases a.len(),
{
    broadcast use vstd::seq_lib::group_to_multiset_ensures;

    assert(a.len() == b.len()) by {
        vstd::seq_lib::to_multiset_len(a);
        vstd::seq_lib::to_multiset_len(b);
    }
    if a.len() > 0 {
        let x = a.last();
        assert(a.contains(x));
        assert(b.to_multiset().count(x) > 0);
        assert(b.contains(x));
        let i = choose|i: int| 0 <= i < b.len() && b[i] == x;
        assert(a.drop_last() == a.remove(a.len() - 1));
        assert(a.drop_last().to_multiset() == a.to_multiset().remove(x));
        assert(b.remove(i).to_multiset() == b.to_multiset().remove(x));
        lemma_total_of_permutation(a.drop_last(), b.remove(i));
        lemma_total_remove(b, i);
    }
}

/// The rule in words: put the window in ascending order, leave out its first
/// and its last time, and add up the rest. That sum is the trimmed total, so
/// of several equal best or worst times exactly one is left out.
pub proof fn lemma_trimmed_total_by_sorting(w: Seq<u64>, sorted: Seq<u64>)
    requires
        w.len() >= 2,
        ascending(sorted),
        sorted.to_multiset() == w.to_multiset(),
    ensures
        sorted.len() == w.len(),
        least(w) == sorted[0],
        greatest(w) == sorted[sorted.len() - 1],
        trimmed_total(w) == total(sorted.subrange(1, sorted.len() - 1)),
{
    broadcast use vstd::seq_lib::group_to_multiset_ensures;

    assert(sorted.len() == w.len()) by {
        vstd::seq_lib::to_multiset_len(w);
        vstd::seq_lib::to_multiset_len(sorted);
    }
    let n = sorted.len() as int;
    lemma_extremes(w);
    lemma_total_of_permutation(w, sorted);
    let lo = least(w);
    let hi = greatest(w);
    assert(w.contains(lo) && w.contains(hi));
    assert(sorted.to_multiset().count(lo) > 0 && sorted.to_multiset().count(hi) > 0);
    assert(sorted.contains(lo) && sorted.contains(hi));
    assert(sorted.contains(sorted[0]) && sorted.contains(sorted[n - 1]));
    assert(w.to_multiset().count(sorted[0]) > 0 && w.to_multiset().count(sorted[n - 1]) > 0);
    assert(w.contains(sorted[0]) && w.contains(sorted[n - 1]));
    assert(lo == sorted[0]);
    assert(hi == sorted[n - 1]);
    let front = sorted.drop_last();
    lemma_total_remove(front, 0);
    assert(front.remove(0) == sorted.subrange(1, n - 1));
}

} // verus!
