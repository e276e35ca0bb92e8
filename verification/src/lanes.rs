//! The round-robin partition underlying the scheduler: the job pushed at
//! index `i` belongs to lane `i % lane_count`, and each lane keeps its jobs
//! in push order. These spec functions describe the partition, and the
//! lemmas state its laws: placement, lane sizes, and the lane-major order
//! in which collecting strategies hand results back.

use vstd::prelude::*;

verus! {

/// How many of the first `n` push indices (`0 <= i < n`) the round-robin
/// assignment over `lane_count` lanes places in lane `k`: the count of
/// `i < n` with `i % lane_count == k`, written in closed form.
pub open spec fn lane_len(n: int, lane_count: int, k: int) -> int {
    if 0 <= k && k < n {
        (n - 1 - k) / lane_count + 1
    } else {
        0
    }
}

/// The jobs that round-robin assignment places in lane `k`, in push order:
/// element `j` of lane `k` is the job pushed at index `j * lane_count + k`.
pub open spec fn lane_view<T>(jobs: Seq<T>, lane_count: int, k: int) -> Seq<T> {
    Seq::new(
        lane_len(jobs.len() as int, lane_count, k) as nat,
        |j: int| jobs[j * lane_count + k],
    )
}

/// All lanes of the round-robin partition of `jobs`, in lane-index order.
pub open spec fn lanes_view<T>(jobs: Seq<T>, lane_count: int) -> Seq<Seq<T>> {
    Seq::new(lane_count as nat, |k: int| lane_view(jobs, lane_count, k))
}

/// The combined size of lanes `0 .. upto`: where a job of lane `k` stands in
/// the lane-major concatenation is `lane_total(n, lane_count, k)` plus its
/// in-lane position.
pub open spec fn lane_total(n: int, lane_count: int, upto: int) -> int
    decreases upto,
{
    if upto <= 0 {
        0
    } else {
        lane_total(n, lane_count, upto - 1) + lane_len(n, lane_count, upto - 1)
    }
}

/// Lane sizes are nonnegative.
pub proof fn lemma_lane_len_nonneg(n: int, lane_count: int, k: int)
    requires
        1 <= lane_count,
    ensures
        0 <= lane_len(n, lane_count, k),
{
    if 0 <= k && k < n {
        assert((n - 1 - k) / lane_count >= 0) by (nonlinear_arith)
            requires n - 1 - k >= 0 && lane_count >= 1;
    }
}

/// Pushing one more job grows exactly the lane `n % lane_count` it is
/// assigned to, by one, and leaves every other lane's size unchanged.
pub proof fn lemma_lane_len_step(n: int, lane_count: int, k: int)
    requires
        1 <= lane_count,
        0 <= k < lane_count,
        0 <= n,
    ensures
        lane_len(n + 1, lane_count, k) == lane_len(n, lane_count, k) + if k == n % lane_count {
            1int
        } else {
            0int
        },
{
    let l = lane_count;
    let q = n / l;
    let r = n % l;
    vstd::arithmetic::div_mod::lemma_fundamental_div_mod(n, l);
    assert(0 <= r < l) by (nonlinear_arith)
        requires l >= 1 && n >= 0 && r == n % l;
    assert(q >= 0) by (nonlinear_arith)
        requires l >= 1 && n >= 0 && q == n / l;
    if k == r {
        // lane k receives the new job: n - k == q * l
        assert((n - k) / l == q) by (nonlinear_arith)
            requires n == q * l + k && l >= 1 && q >= 0;
        if n > k {
            assert(q >= 1) by (nonlinear_arith)
                requires n == q * l + k && n > k && l >= 1 && q >= 0;
            assert((n - 1 - k) / l == q - 1) by (nonlinear_arith)
                requires n == q * l + k && l >= 1 && q >= 1;
        }
    } else {
        if k < n {
            // the remainder of (n - k) by l is nonzero, so taking one off
            // the dividend leaves the quotient alone
            if r > k {
                assert((n - k) / l == q && (n - 1 - k) / l == q) by (nonlinear_arith)
                    requires n == q * l + r && l >= 1 && q >= 0 && 0 <= k < r < l;
            } else {
                assert((n - k) / l == q - 1 && (n - 1 - k) / l == q - 1) by (nonlinear_arith)
                    requires n == q * l + r && l >= 1 && q >= 0 && 0 <= r < k < l && k < n;
            }
        } else {
            // k >= n: lane k is empty before and, since k != n % lane_count,
            // it cannot be the lane of push index n, so k > n
            if k == n {
                assert(n % l == n) by (nonlinear_arith)
                    requires 0 <= n < l;
            }
        }
    }
}

/// The lane that receives push index `n` holds, before that push, exactly
/// `n / lane_count` jobs — the position the new job will take.
pub proof fn lemma_lane_len_at_mod(n: int, lane_count: int)
    requires
        1 <= lane_count,
        0 <= n,
    ensures
        lane_len(n, lane_count, n % lane_count) == n / lane_count,
{
    let l = lane_count;
    let q = n / l;
    let r = n % l;
    vstd::arithmetic::div_mod::lemma_fundamental_div_mod(n, l);
    assert(0 <= r < l && q >= 0) by (nonlinear_arith)
        requires l >= 1 && n >= 0 && r == n % l && q == n / l;
    if n > r {
        assert(q >= 1) by (nonlinear_arith)
            requires n == q * l + r && n > r && l >= 1 && q >= 0;
        assert((n - 1 - r) / l == q - 1) by (nonlinear_arith)
            requires n == q * l + r && l >= 1 && q >= 1;
    } else {
        assert(q == 0) by (nonlinear_arith)
            requires n == q * l + r && n <= r && l >= 1 && q >= 0 && r >= 0;
    }
}

/// In-lane slot `j` of lane `k` stands for push index `j * lane_count + k`:
/// the index is in range, and its round-robin lane and in-lane position are
/// `k` and `j` again.
pub proof fn lemma_lane_slot(n: int, lane_count: int, k: int, j: int)
    requires
        1 <= lane_count,
        0 <= k < lane_count,
        0 <= j < lane_len(n, lane_count, k),
    ensures
        0 <= j * lane_count + k < n,
        (j * lane_count + k) % lane_count == k,
        (j * lane_count + k) / lane_count == j,
{
    let l = lane_count;
    assert(k < n);
    assert(j <= (n - 1 - k) / l);
    assert(j * l <= n - 1 - k) by (nonlinear_arith)
        requires l >= 1 && j >= 0 && n - 1 - k >= 0 && j <= (n - 1 - k) / l;
    assert(j * l + k >= 0) by (nonlinear_arith)
        requires j >= 0 && l >= 1 && k >= 0;
    vstd::arithmetic::div_mod::lemma_fundamental_div_mod_converse(j * l + k, l, j, k);
}

/// The job pushed at index `i` is found at in-lane position `i / lane_count`
/// of lane `i % lane_count`.
pub proof fn lemma_push_index_slot(n: int, lane_count: int, i: int)
    requires
        1 <= lane_count,
        0 <= i < n,
    ensures
        0 <= i % lane_count < lane_count,
        0 <= i / lane_count < lane_len(n, lane_count, i % lane_count),
        (i / lane_count) * lane_count + (i % lane_count) == i,
{
    let l = lane_count;
    let q = i / l;
    let r = i % l;
    vstd::arithmetic::div_mod::lemma_fundamental_div_mod(i, l);
    assert(0 <= r < l && q >= 0) by (nonlinear_arith)
        requires l >= 1 && i >= 0 && r == i % l && q == i / l;
    assert(r < n);
    assert(q <= (n - 1 - r) / l) by (nonlinear_arith)
        requires i == q * l + r && i < n && l >= 1 && q >= 0;
}

/// Law of round-robin placement: for any pushed jobs and any lane count
/// `lane_count >= 1`, the job pushed at index `i` stands in lane
/// `i % lane_count`, at in-lane position `i / lane_count`.
pub proof fn lemma_round_robin_placement<T>(jobs: Seq<T>, lane_count: int, i: int)
    requires
        1 <= lane_count,
        0 <= i < jobs.len(),
    ensures
        0 <= i % lane_count < lane_count,
        0 <= i / lane_count < lane_view(jobs, lane_count, i % lane_count).len(),
        lane_view(jobs, lane_count, i % lane_count)[i / lane_count] == jobs[i],
{
    lemma_push_index_slot(jobs.len() as int, lane_count, i);
}

/// Pushing one job extends lane `jobs.len() % lane_count` with that job and
/// leaves every other lane as it was.
pub proof fn lemma_lane_view_push<T>(jobs: Seq<T>, job: T, lane_count: int, k: int)
    requires
        1 <= lane_count,
        0 <= k < lane_count,
    ensures
        lane_view(jobs.push(job), lane_count, k) == if k == jobs.len() as int % lane_count {
            lane_view(jobs, lane_count, k).push(job)
        } else {
            lane_view(jobs, lane_count, k)
        },
{
    let l = lane_count;
    let n = jobs.len() as int;
    lemma_lane_len_step(n, l, k);
    lemma_lane_len_nonneg(n, l, k);
    if k == n % l {
        lemma_lane_len_at_mod(n, l);
        let m = lane_len(n, l, k);
        vstd::arithmetic::div_mod::lemma_fundamental_div_mod(n, l);
        assert(m * l + k == n) by (nonlinear_arith)
            requires m == n / l && k == n % l && l >= 1 && n >= 0;
        assert forall|j: int| 0 <= j < m implies lane_view(jobs.push(job), l, k)[j] == lane_view(
            jobs,
            l,
            k,
        ).push(job)[j] by {
            lemma_lane_slot(n, l, k, j);
        }
        assert(lane_view(jobs.push(job), l, k)[m] == job);
        assert(lane_view(jobs.push(job), l, k) =~= lane_view(jobs, l, k).push(job));
    } else {
        assert forall|j: int| 0 <= j < lane_len(n, l, k) implies lane_view(jobs.push(job), l, k)[j]
            == lane_view(jobs, l, k)[j] by {
            lemma_lane_slot(n, l, k, j);
        }
        assert(lane_view(jobs.push(job), l, k) =~= lane_view(jobs, l, k));
    }
}

/// With no jobs, every lane is empty.
pub proof fn lemma_lanes_of_empty<T>(lane_count: int, k: int)
    ensures
        lane_view(Seq::<T>::empty(), lane_count, k) == Seq::<T>::empty(),
{
    assert(lane_view(Seq::<T>::empty(), lane_count, k) =~= Seq::<T>::empty());
}

proof fn lemma_lane_total_of_zero(lane_count: int, upto: int)
    ensures
        lane_total(0, lane_count, upto) == 0,
    decreases upto,
{
    if upto > 0 {
        lemma_lane_total_of_zero(lane_count, upto - 1);
    }
}

proof fn lemma_lane_total_step(n: int, lane_count: int, upto: int)
    requires
        1 <= lane_count,
        0 <= n,
        0 <= upto <= lane_count,
    ensures
        lane_total(n + 1, lane_count, upto) == lane_total(n, lane_count, upto) + if n % lane_count
            < upto {
            1int
        } else {
            0int
        },
    decreases upto,
{
    vstd::arithmetic::div_mod::lemma_fundamental_div_mod(n, lane_count);
    assert(0 <= n % lane_count < lane_count) by (nonlinear_arith)
        requires lane_count >= 1 && n >= 0;
    if upto > 0 {
        lemma_lane_total_step(n, lane_count, upto - 1);
        lemma_lane_len_step(n, lane_count, upto - 1);
    }
}

/// Law of conservation: the lane sizes of the round-robin partition of `n`
/// jobs over `lane_count` lanes add up to `n` — no job is dropped and none
/// is duplicated.
pub proof fn lemma_lane_sizes_sum(n: int, lane_count: int)
    requires
        1 <= lane_count,
        0 <= n,
    ensures
        lane_total(n, lane_count, lane_count) == n,
    decreases n,
{
    if n == 0 {
        lemma_lane_total_of_zero(lane_count, lane_count);
    } else {
        lemma_lane_sizes_sum(n - 1, lane_count);
        lemma_lane_total_step(n - 1, lane_count, lane_count);
        assert(0 <= (n - 1) % lane_count < lane_count) by (nonlinear_arith)
            requires lane_count >= 1 && n >= 1;
    }
}

/// The combined length of the first `upto` sequences of `s`.
pub open spec fn flat_len<T>(s: Seq<Seq<T>>, upto: int) -> int
    decreases upto,
{
    if upto <= 0 {
        0
    } else {
        flat_len(s, upto - 1) + s[upto - 1].len()
    }
}

proof fn lemma_flat_len_drop_first<T>(s: Seq<Seq<T>>, upto: int)
    requires
        1 <= upto <= s.len(),
    ensures
        flat_len(s, upto) == s[0].len() + flat_len(s.drop_first(), upto - 1),
    decreases upto,
{
    if upto > 1 {
        lemma_flat_len_drop_first(s, upto - 1);
    } else {
        assert(flat_len(s, 0) == 0);
        assert(flat_len(s.drop_first(), 0) == 0);
    }
}

proof fn lemma_flatten_len<T>(s: Seq<Seq<T>>)
    ensures
        s.flatten().len() == flat_len(s, s.len() as int),
    decreases s.len(),
{
    if s.len() > 0 {
        lemma_flatten_len(s.drop_first());
        lemma_flat_len_drop_first(s, s.len() as int);
    }
}

proof fn lemma_flatten_index<T>(s: Seq<Seq<T>>, k: int, j: int)
    requires
        0 <= k < s.len(),
        0 <= j < s[k].len(),
    ensures
        0 <= flat_len(s, k),
        flat_len(s, k) + j < s.flatten().len(),
        s.flatten()[flat_len(s, k) + j] == s[k][j],
    decreases k,
{
    if k == 0 {
        assert(s.flatten() == s.first().add(s.drop_first().flatten()));
    } else {
        lemma_flatten_index(s.drop_first(), k - 1, j);
        lemma_flat_len_drop_first(s, k);
        assert(s.flatten() == s.first().add(s.drop_first().flatten()));
    }
}

proof fn lemma_flat_len_of_lanes<T>(vals: Seq<T>, lane_count: int, upto: int)
    requires
        1 <= lane_count,
        0 <= upto <= lane_count,
    ensures
        flat_len(lanes_view(vals, lane_count), upto) == lane_total(
            vals.len() as int,
            lane_count,
            upto,
        ),
    decreases upto,
{
    if upto > 0 {
        lemma_flat_len_of_lanes(vals, lane_count, upto - 1);
        lemma_lane_len_nonneg(vals.len() as int, lane_count, upto - 1);
    }
}

/// Law of lane-major collection: concatenating the lanes of the round-robin
/// partition in lane-index order yields exactly one entry per job — the
/// combined length is `vals.len()` — and the entry for the job pushed at
/// index `i` stands at position `lane_total(n, lane_count, i % lane_count)
/// + i / lane_count`, which is its lane's offset plus its in-lane position.
/// For more than one lane this is not push order.
pub proof fn lemma_lane_major_order<T>(vals: Seq<T>, lane_count: int)
    requires
        1 <= lane_count,
    ensures
        lanes_view(vals, lane_count).flatten().len() == vals.len(),
        forall|i: int|
            0 <= i < vals.len() ==> lanes_view(vals, lane_count).flatten()[lane_total(
                vals.len() as int,
                lane_count,
                i % lane_count,
            ) + i / lane_count] == vals[i],
{
    let s = lanes_view(vals, lane_count);
    let n = vals.len() as int;
    lemma_flatten_len(s);
    lemma_flat_len_of_lanes(vals, lane_count, lane_count);
    lemma_lane_sizes_sum(n, lane_count);
    assert forall|i: int| 0 <= i < n implies s.flatten()[lane_total(n, lane_count, i % lane_count)
        + i / lane_count] == vals[i] by {
        lemma_push_index_slot(n, lane_count, i);
        let k = i % lane_count;
        let j = i / lane_count;
        lemma_flatten_index(s, k, j);
        lemma_flat_len_of_lanes(vals, lane_count, k);
    }
}

/// With a single lane, the lane is the whole job sequence in push order; the
/// same fact describes a single chunk holding every job.
pub proof fn lemma_single_lane<T>(jobs: Seq<T>)
    ensures
        lane_view(jobs, 1, 0) == jobs,
{
    let n = jobs.len() as int;
    if n > 0 {
        assert((n - 1) / 1 == n - 1) by (nonlinear_arith);
    }
    assert forall|j: int| 0 <= j < n implies lane_view(jobs, 1, 0)[j] == jobs[j] by {
        assert(j * 1 + 0 == j);
    }
    assert(lane_view(jobs, 1, 0) =~= jobs);
}

} // verus!
