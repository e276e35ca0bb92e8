//! The scheduler. A `Worker` owns a fixed number of ordered lanes and a push
//! counter; `push` appends each job to lane `pushed % lane_count`, so lane
//! membership and in-lane order are fixed at push time. A `Worker` is
//! single-use: each run plan consumes it, which rules out re-running at
//! compile time. The async execution of a plan is the caller's; the library
//! guarantees what the plan holds and in which order.

use vstd::prelude::*;

use crate::lanes::lane_len;
use crate::lanes::lane_total;
use crate::lanes::lane_view;
use crate::lanes::lanes_view;
use crate::lanes::lemma_lane_len_at_mod;
use crate::lanes::lemma_lane_len_nonneg;
use crate::lanes::lemma_lane_len_step;
use crate::lanes::lemma_lane_view_push;
use crate::lanes::lemma_lanes_of_empty;
use crate::lanes::lemma_lane_sizes_sum;
use crate::lanes::lemma_push_index_slot;
use crate::lanes::lemma_round_robin_placement;
use crate::lanes::lemma_single_lane;

verus! {

/// How many chunks the single-execution-context strategy forms over `n` jobs
/// with the given batch size: one chunk when every job fits in a batch,
/// otherwise the rounded-up quotient `ceil(n / batch)`.
pub open spec fn chunk_count(n: int, batch: int) -> int {
    if n <= batch {
        1
    } else {
        n / batch + if n % batch > 0 {
            1int
        } else {
            0int
        }
    }
}

/// The configuration error: a scheduler must have at least one lane, and
/// asking for zero lanes fails fast, before any job can be pushed or run.
#[derive(Clone, Copy, Debug, PartialEq, Eq, Structural)]
pub enum ConfigError {
    LaneCountZero,
}

/// A single-use task scheduler: jobs of type `F` are pushed one by one and
/// partitioned round-robin over `lane_count` lanes, each lane keeping its
/// jobs in push order. The job type is opaque to the scheduler.
#[verifier::reject_recursive_types(F)]
pub struct Worker<F> {
    lanes: Vec<Vec<F>>,
    pushed: usize,
    jobs: Ghost<Seq<F>>,
}

impl<F> Worker<F> {
    /// Every job ever pushed, in push order.
    pub closed spec fn jobs(self) -> Seq<F> {
        self.jobs@
    }

    /// The lanes, in lane-index order, each in push order.
    pub closed spec fn lanes(self) -> Seq<Seq<F>> {
        self.lanes@.map_values(|lane: Vec<F>| lane@)
    }

    /// The scheduler's invariant: at least one lane, the push counter counts
    /// the pushed jobs, and each lane holds exactly the round-robin share of
    /// the pushed jobs, in push order.
    pub closed spec fn wf(self) -> bool {
        &&& self.lanes@.len() >= 1
        &&& self.pushed == self.jobs@.len()
        &&& forall|k: int|
            0 <= k < self.lanes@.len() ==> self.lanes@[k]@ == lane_view(
                self.jobs@,
                self.lanes@.len() as int,
                k,
            )
    }

    /// Builds a scheduler with `batches` lanes and no jobs. Zero lanes is a
    /// configuration error: it fails fast rather than proceed to a state
    /// that could never execute.
    pub fn with_batches(batches: usize) -> (r: Result<Worker<F>, ConfigError>)
        ensures
            r is Ok <==> batches >= 1,
            (r matches Ok(w) ==> w.wf() && w.lanes().len() == batches && w.jobs() == Seq::<
                F,
            >::empty()),
            (r matches Err(e) ==> e == ConfigError::LaneCountZero),
    {
        if batches < 1 {
            return Err(ConfigError::LaneCountZero);
        }
        let mut lanes: Vec<Vec<F>> = Vec::new();
        let mut k: usize = 0;
        while k < batches
            invariant
                k <= batches,
                lanes@.len() == k,
                forall|m: int| 0 <= m < k ==> lanes@[m]@ == Seq::<F>::empty(),
            decreases batches - k,
        {
            lanes.push(Vec::new());
            k += 1;
        }
        let worker = Worker { lanes, pushed: 0, jobs: Ghost(Seq::empty()) };
        proof {
            assert forall|m: int| 0 <= m < worker.lanes@.len() implies worker.lanes@[m]@
                == lane_view(worker.jobs@, worker.lanes@.len() as int, m) by {
                lemma_lanes_of_empty::<F>(worker.lanes@.len() as int, m);
            }
        }
        Ok(worker)
    }

    /// How many lanes the scheduler has.
    pub fn lane_count(&self) -> (n: usize)
        requires
            self.wf(),
        ensures
            n == self.lanes().len(),
    {
        self.lanes.len()
    }

    /// How many jobs have been pushed so far.
    pub fn job_count(&self) -> (n: usize)
        requires
            self.wf(),
        ensures
            n == self.jobs().len(),
    {
        self.pushed
    }

    /// Appends the job to lane `jobs_pushed_so_far % lane_count` and counts
    /// the push; every other lane is left as it was. Never fails.
    pub fn push(&mut self, fut: F)
        requires
            old(self).wf(),
            old(self).jobs().len() < usize::MAX,
        ensures
            final(self).wf(),
            final(self).jobs() == old(self).jobs().push(fut),
            final(self).lanes().len() == old(self).lanes().len(),
            final(self).lanes() == old(self).lanes().update(
                old(self).jobs().len() as int % old(self).lanes().len() as int,
                old(self).lanes()[old(self).jobs().len() as int % old(self).lanes().len() as int]
                    .push(fut),
            ),
    {
        let idx = self.pushed % self.lanes.len();
        let mut lane = self.lanes.remove(idx);
        lane.push(fut);
        self.lanes.insert(idx, lane);
        self.pushed = self.pushed + 1;
        proof {
            self.jobs@ = self.jobs@.push(fut);
            let l = self.lanes@.len() as int;
            assert(self.lanes@ =~= old(self).lanes@.update(idx as int, self.lanes@[idx as int]));
            assert forall|k: int| 0 <= k < l implies self.lanes@[k]@ == lane_view(
                self.jobs@,
                l,
                k,
            ) by {
                lemma_lane_view_push(old(self).jobs@, fut, l, k);
            }
            assert(self.lanes() =~= old(self).lanes().update(
                old(self).jobs@.len() as int % l,
                old(self).lanes()[old(self).jobs@.len() as int % l].push(fut),
            ));
        }
    }

    /// Law of the scheduler's state: for any number of pushed jobs and any
    /// lane count of at least one, each lane of a well-formed scheduler is
    /// the round-robin share of the pushed jobs, the job pushed at index `i`
    /// stands in lane `i % lane_count` at in-lane position `i / lane_count`,
    /// and the lane sizes add up to the number of pushed jobs.
    pub proof fn lemma_partition(self)
        requires
            self.wf(),
        ensures
            1 <= self.lanes().len(),
            forall|k: int|
                0 <= k < self.lanes().len() ==> #[trigger] self.lanes()[k] == lane_view(
                    self.jobs(),
                    self.lanes().len() as int,
                    k,
                ),
            lane_total(
                self.jobs().len() as int,
                self.lanes().len() as int,
                self.lanes().len() as int,
            ) == self.jobs().len(),
            forall|i: int|
                0 <= i < self.jobs().len() ==> #[trigger] self.jobs()[i] == self.lanes()[i as int
                    % self.lanes().len() as int][i as int / self.lanes().len() as int],
    {
        let l = self.lanes@.len() as int;
        lemma_lane_sizes_sum(self.jobs@.len() as int, l);
        assert forall|i: int| 0 <= i < self.jobs().len() implies #[trigger] self.jobs()[i]
            == self.lanes()[i % l][i / l] by {
            lemma_round_robin_placement(self.jobs@, l, i);
        }
    }

    /// Consumes the scheduler and hands over its lanes, in lane-index order,
    /// for the caller to execute — one parallel execution context per lane.
    /// The plan is complete: lane `k` is exactly the round-robin share of the
    /// pushed jobs, in push order.
    pub fn into_lanes(self) -> (lanes: Vec<Vec<F>>)
        requires
            self.wf(),
        ensures
            lanes@.len() == self.lanes().len(),
            forall|k: int|
                0 <= k < lanes@.len() ==> #[trigger] lanes@[k]@ == lane_view(
                    self.jobs(),
                    self.lanes().len() as int,
                    k,
                ),
            lanes@.map_values(|lane: Vec<F>| lane@) == lanes_view(
                self.jobs(),
                self.lanes().len() as int,
            ),
    {
        proof {
            assert(self.lanes@.map_values(|lane: Vec<F>| lane@) =~= lanes_view(
                self.jobs@,
                self.lanes@.len() as int,
            ));
        }
        self.lanes
    }

    /// Consumes the scheduler and flattens the lanes back into a single
    /// sequence in global push order, undoing the round-robin partition.
    pub fn into_push_order(self) -> (flat: Vec<F>)
        requires
            self.wf(),
        ensures
            flat@ == self.jobs(),
    {
        let ghost jobs = self.jobs@;
        let mut lanes = self.lanes;
        let l = lanes.len();
        let n = self.pushed;
        let mut flat: Vec<F> = Vec::new();
        let mut i: usize = 0;
        proof {
            assert forall|k: int| 0 <= k < l implies lanes@[k]@ == lane_view(
                jobs,
                l as int,
                k,
            ).skip(lane_len(0, l as int, k)) by {
                assert(lane_view(jobs, l as int, k).skip(0) =~= lane_view(jobs, l as int, k));
            }
        }
        while i < n
            invariant
                1 <= l,
                lanes@.len() == l,
                i <= n,
                n == jobs.len(),
                flat@ == jobs.take(i as int),
                forall|k: int|
                    0 <= k < l ==> lanes@[k]@ == lane_view(jobs, l as int, k).skip(
                        lane_len(i as int, l as int, k),
                    ),
            decreases n - i,
        {
            let ghost lanes0 = lanes@;
            let k = i % l;
            let ghost kk = k as int;
            let ghost li = l as int;
            let ghost j = lane_len(i as int, li, kk);
            proof {
                lemma_push_index_slot(n as int, li, i as int);
                lemma_lane_len_at_mod(i as int, li);
                lemma_lane_len_nonneg(n as int, li, kk);
                assert(j == i as int / li);
                assert(lane_view(jobs, li, kk).len() == lane_len(n as int, li, kk));
                assert(lanes0[kk]@.len() == lane_len(n as int, li, kk) - j);
            }
            let mut lane = lanes.remove(k);
            let job = lane.remove(0);
            lanes.insert(k, lane);
            proof {
                assert(job == lane_view(jobs, li, kk)[j]);
                assert(job == jobs[j * li + kk]);
                assert(j * li + kk == i as int);
                assert(lanes@ =~= lanes0.update(kk, lanes@[kk]));
            }
            flat.push(job);
            i += 1;
            proof {
                assert(flat@ =~= jobs.take(i as int));
                assert forall|k2: int| 0 <= k2 < l implies lanes@[k2]@ == lane_view(
                    jobs,
                    li,
                    k2,
                ).skip(lane_len(i as int, li, k2)) by {
                    lemma_lane_len_step(i as int - 1, li, k2);
                    if k2 == kk {
                        assert(lanes@[k2]@ =~= lane_view(jobs, li, k2).skip(j + 1));
                    }
                }
            }
        }
        proof {
            assert(jobs.take(n as int) =~= jobs);
        }
        flat
    }

    /// The batch size the single-execution-context strategy runs with: the
    /// requested one, or the lane count when none is given.
    pub open spec fn batch_of(self, batch_size: Option<usize>) -> int {
        match batch_size {
            Some(b) => b as int,
            None => self.lanes().len() as int,
        }
    }

    /// Consumes the scheduler, ignores the lane structure, and regroups the
    /// jobs — flattened back into push order — round-robin into
    /// `chunk_count` chunks, for the caller to run one chunk after another on
    /// a single execution context, each chunk's jobs concurrently. This
    /// bounds how many jobs are in flight at once. Chunk `c` is the
    /// round-robin share `lane_view(jobs, chunk_count, c)` of the flattened
    /// jobs: the job at flattened index `i` belongs to chunk
    /// `i % chunk_count`, not to a contiguous slice.
    pub fn into_chunks(self, batch_size: Option<usize>) -> (chunks: Vec<Vec<F>>)
        requires
            self.wf(),
            (batch_size matches Some(b) ==> b >= 1),
        ensures
            chunks@.len() == chunk_count(self.jobs().len() as int, self.batch_of(batch_size)),
            forall|c: int|
                0 <= c < chunks@.len() ==> #[trigger] chunks@[c]@ == lane_view(
                    self.jobs(),
                    chunks@.len() as int,
                    c,
                ),
    {
        let batch = match batch_size {
            Some(b) => b,
            None => self.lanes.len(),
        };
        let ghost jobs = self.jobs@;
        let mut flat = self.into_push_order();
        let n = flat.len();
        if n <= batch {
            proof {
                lemma_single_lane(jobs);
            }
            let mut chunks: Vec<Vec<F>> = Vec::new();
            chunks.push(flat);
            return chunks;
        }
        let tail: usize = if n % batch > 0 {
            1
        } else {
            0
        };
        proof {
            assert(n as int / batch as int >= 1) by (nonlinear_arith)
                requires n as int > batch as int && batch as int >= 1;
            if n % batch > 0 {
                assert(batch >= 2) by {
                    assert(n as int % 1int == 0) by (nonlinear_arith)
                        requires n as int >= 0;
                }
                assert(n as int / batch as int + 1 <= n as int) by (nonlinear_arith)
                    requires n as int >= 2 && batch as int >= 2;
            } else {
                assert(n as int / batch as int <= n as int) by (nonlinear_arith)
                    requires n as int >= 0 && batch as int >= 1;
            }
        }
        let cc = n / batch + tail;
        let mut chunks: Vec<Vec<F>> = Vec::new();
        let mut c: usize = 0;
        while c < cc
            invariant
                c <= cc,
                chunks@.len() == c,
                forall|m: int| 0 <= m < c ==> chunks@[m]@ == Seq::<F>::empty(),
            decreases cc - c,
        {
            chunks.push(Vec::new());
            c += 1;
        }
        proof {
            assert forall|m: int| 0 <= m < cc implies chunks@[m]@ == lane_view(
                jobs.take(0),
                cc as int,
                m,
            ) by {
                assert(jobs.take(0) =~= Seq::<F>::empty());
                lemma_lanes_of_empty::<F>(cc as int, m);
            }
        }
        let mut i: usize = 0;
        while i < n
            invariant
                1 <= cc,
                chunks@.len() == cc,
                i <= n,
                n == jobs.len(),
                flat@ == jobs.skip(i as int),
                forall|k: int|
                    0 <= k < cc ==> chunks@[k]@ == lane_view(jobs.take(i as int), cc as int, k),
            decreases n - i,
        {
            let ghost chunks0 = chunks@;
            let job = flat.remove(0);
            let k = i % cc;
            proof {
                assert(job == jobs[i as int]);
                assert(flat@ =~= jobs.skip(i as int + 1));
            }
            let mut chunk = chunks.remove(k);
            chunk.push(job);
            chunks.insert(k, chunk);
            i += 1;
            proof {
                assert(chunks@ =~= chunks0.update(k as int, chunks@[k as int]));
                assert(jobs.take(i as int) =~= jobs.take(i as int - 1).push(job));
                assert forall|k2: int| 0 <= k2 < cc implies chunks@[k2]@ == lane_view(
                    jobs.take(i as int),
                    cc as int,
                    k2,
                ) by {
                    lemma_lane_view_push(jobs.take(i as int - 1), job, cc as int, k2);
                }
            }
        }
        proof {
            assert(jobs.take(n as int) =~= jobs);
        }
        chunks
    }
}

} // verus!
