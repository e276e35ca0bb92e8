//! Tests that drive the computed plans on a real async runtime, the way the
//! execution strategies do: one spawned context per lane (sequential or
//! joined in-lane execution), or sequential chunks on a single context.
//! A shared counter observes that every pushed job completes.

use std::sync::atomic::AtomicUsize;
use std::sync::atomic::Ordering;
use std::sync::Arc;
use std::sync::Mutex;

use lane_scheduler::results::concat_in_order;
use lane_scheduler::Worker;

fn runtime() -> tokio::runtime::Runtime {
    tokio::runtime::Builder::new_multi_thread()
        .worker_threads(3)
        .build()
        .unwrap()
}

#[test]
fn sequential_lanes_complete_every_job() {
    let rt = runtime();
    let counter = Arc::new(AtomicUsize::new(0));
    let mut w = Worker::with_batches(3).unwrap();
    for _ in 0..7usize {
        let c = Arc::clone(&counter);
        w.push(async move {
            c.fetch_add(1, Ordering::SeqCst);
        });
    }
    let lanes = w.into_lanes();
    rt.block_on(async move {
        let mut handles = Vec::new();
        for lane in lanes {
            handles.push(tokio::spawn(async move {
                for job in lane {
                    job.await;
                }
            }));
        }
        for h in handles {
            h.await.unwrap();
        }
    });
    assert_eq!(counter.load(Ordering::SeqCst), 7);
}

#[test]
fn collected_results_follow_lane_major_order() {
    let rt = runtime();
    let counter = Arc::new(AtomicUsize::new(0));
    let mut w = Worker::with_batches(3).unwrap();
    for i in 0..7usize {
        let c = Arc::clone(&counter);
        w.push(async move {
            c.fetch_add(1, Ordering::SeqCst);
            i
        });
    }
    let lanes = w.into_lanes();
    let per_lane = rt.block_on(async move {
        let mut handles = Vec::new();
        for lane in lanes {
            handles.push(tokio::spawn(async move {
                let mut out = Vec::new();
                for job in lane {
                    out.push(job.await);
                }
                out
            }));
        }
        let mut per_lane = Vec::new();
        for h in handles {
            per_lane.push(h.await.unwrap());
        }
        per_lane
    });
    assert_eq!(counter.load(Ordering::SeqCst), 7);
    assert_eq!(concat_in_order(per_lane), vec![0, 3, 6, 1, 4, 2, 5]);
}

#[test]
fn joined_lanes_complete_every_job() {
    let rt = runtime();
    let counter = Arc::new(AtomicUsize::new(0));
    let mut w = Worker::with_batches(2).unwrap();
    for i in 0..5usize {
        let c = Arc::clone(&counter);
        w.push(async move {
            c.fetch_add(1, Ordering::SeqCst);
            i
        });
    }
    let lanes = w.into_lanes();
    let per_lane = rt.block_on(async move {
        let mut handles = Vec::new();
        for lane in lanes {
            handles.push(tokio::spawn(futures::future::join_all(lane)));
        }
        let mut per_lane = Vec::new();
        for h in handles {
            per_lane.push(h.await.unwrap());
        }
        per_lane
    });
    assert_eq!(counter.load(Ordering::SeqCst), 5);
    // in-lane results are reassembled in push order, lanes in lane order
    assert_eq!(concat_in_order(per_lane), vec![0, 2, 4, 1, 3]);
}

#[test]
fn chunks_run_strictly_in_chunk_order() {
    let rt = runtime();
    let seen = Arc::new(Mutex::new(Vec::new()));
    let mut w = Worker::with_batches(4).unwrap();
    for i in 0..5usize {
        let seen = Arc::clone(&seen);
        w.push(async move {
            seen.lock().unwrap().push(i);
        });
    }
    let chunks = w.into_chunks(Some(2));
    assert_eq!(chunks.len(), 3);
    rt.block_on(async move {
        for chunk in chunks {
            futures::future::join_all(chunk).await;
        }
    });
    let got = Arc::try_unwrap(seen).unwrap().into_inner().unwrap();
    // chunk 0 holds jobs {0, 3}, chunk 1 holds {1, 4}, chunk 2 holds {2};
    // a chunk finishes before the next one starts
    assert_eq!(got.len(), 5);
    let mut first: Vec<usize> = got[0..2].to_vec();
    first.sort();
    assert_eq!(first, vec![0, 3]);
    let mut second: Vec<usize> = got[2..4].to_vec();
    second.sort();
    assert_eq!(second, vec![1, 4]);
    assert_eq!(got[4], 2);
}

#[test]
fn panicking_job_aborts_only_its_lane() {
    let rt = runtime();
    let counter = Arc::new(AtomicUsize::new(0));
    let mut w = Worker::with_batches(2).unwrap();
    // lane 0 holds push indices 0 and 2, lane 1 holds 1 and 3; job 0 panics,
    // so lane 0's remaining job never runs while lane 1 completes both
    for i in 0..4usize {
        let c = Arc::clone(&counter);
        w.push(async move {
            if i == 0 {
                panic!("job failure");
            }
            c.fetch_add(1, Ordering::SeqCst);
        });
    }
    let lanes = w.into_lanes();
    let lane_failed = rt.block_on(async move {
        let mut handles = Vec::new();
        for lane in lanes {
            handles.push(tokio::spawn(async move {
                for job in lane {
                    job.await;
                }
            }));
        }
        let mut lane_failed = Vec::new();
        for h in handles {
            lane_failed.push(h.await.is_err());
        }
        lane_failed
    });
    assert_eq!(lane_failed, vec![true, false]);
    assert_eq!(counter.load(Ordering::SeqCst), 2);
}

#[test]
fn empty_worker_completes_with_no_results() {
    let rt = runtime();
    let w = Worker::<std::future::Ready<usize>>::with_batches(3).unwrap();
    let lanes = w.into_lanes();
    let per_lane = rt.block_on(async move {
        let mut handles = Vec::new();
        for lane in lanes {
            handles.push(tokio::spawn(futures::future::join_all(lane)));
        }
        let mut per_lane = Vec::new();
        for h in handles {
            per_lane.push(h.await.unwrap());
        }
        per_lane
    });
    let collected: Vec<usize> = concat_in_order(per_lane);
    assert_eq!(collected, Vec::<usize>::new());
}
