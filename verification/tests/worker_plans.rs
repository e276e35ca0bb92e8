//! Tests of the scheduler's plan computation: lane assignment, flattening,
//! chunking, and lane-major result concatenation, on plain values.

use lane_scheduler::results::concat_in_order;
use lane_scheduler::ConfigError;
use lane_scheduler::Worker;

#[test]
fn zero_lanes_is_a_config_error() {
    let r = Worker::<u32>::with_batches(0);
    assert!(matches!(r, Err(ConfigError::LaneCountZero)));
}

#[test]
fn one_lane_is_accepted() {
    let r = Worker::<u32>::with_batches(1);
    assert!(r.is_ok());
}

#[test]
fn round_robin_lane_assignment() {
    let mut w = Worker::with_batches(3).unwrap();
    for i in 0..7u32 {
        w.push(i);
    }
    assert_eq!(w.lane_count(), 3);
    assert_eq!(w.job_count(), 7);
    let lanes = w.into_lanes();
    assert_eq!(lanes, vec![vec![0, 3, 6], vec![1, 4], vec![2, 5]]);
}

#[test]
fn lane_sizes_sum_to_job_count() {
    let mut w = Worker::with_batches(4).unwrap();
    for i in 0..11u32 {
        w.push(i);
    }
    let lanes = w.into_lanes();
    let mut total: usize = 0;
    for lane in &lanes {
        total += lane.len();
    }
    assert_eq!(total, 11);
}

#[test]
fn single_lane_keeps_push_order() {
    let mut w = Worker::with_batches(1).unwrap();
    for i in 0..5u32 {
        w.push(i);
    }
    assert_eq!(w.into_lanes(), vec![vec![0, 1, 2, 3, 4]]);
}

#[test]
fn more_lanes_than_jobs_leaves_tail_lanes_empty() {
    let mut w = Worker::with_batches(5).unwrap();
    w.push(0u32);
    w.push(1u32);
    let lanes = w.into_lanes();
    assert_eq!(lanes, vec![vec![0], vec![1], vec![], vec![], vec![]]);
}

#[test]
fn flatten_restores_push_order() {
    let mut w = Worker::with_batches(3).unwrap();
    for i in 0..7u32 {
        w.push(i);
    }
    assert_eq!(w.into_push_order(), vec![0, 1, 2, 3, 4, 5, 6]);
}

#[test]
fn chunks_of_two_over_five_jobs() {
    let mut w = Worker::with_batches(2).unwrap();
    for i in 0..5u32 {
        w.push(i);
    }
    let chunks = w.into_chunks(Some(2));
    assert_eq!(chunks, vec![vec![0, 3], vec![1, 4], vec![2]]);
}

#[test]
fn default_batch_fits_all_jobs_in_one_chunk() {
    let mut w = Worker::with_batches(4).unwrap();
    for i in 0..3u32 {
        w.push(i);
    }
    let chunks = w.into_chunks(None);
    assert_eq!(chunks, vec![vec![0, 1, 2]]);
}

#[test]
fn exact_batch_fits_all_jobs_in_one_chunk() {
    let mut w = Worker::with_batches(2).unwrap();
    for i in 0..4u32 {
        w.push(i);
    }
    let chunks = w.into_chunks(Some(4));
    assert_eq!(chunks, vec![vec![0, 1, 2, 3]]);
}

#[test]
fn even_split_makes_no_tail_chunk() {
    let mut w = Worker::with_batches(2).unwrap();
    for i in 0..6u32 {
        w.push(i);
    }
    let chunks = w.into_chunks(Some(3));
    assert_eq!(chunks, vec![vec![0, 2, 4], vec![1, 3, 5]]);
}

#[test]
fn no_jobs_yields_empty_plans() {
    let w = Worker::<u32>::with_batches(3).unwrap();
    let lanes = w.into_lanes();
    assert_eq!(lanes, vec![Vec::<u32>::new(), Vec::new(), Vec::new()]);

    let w = Worker::<u32>::with_batches(3).unwrap();
    assert_eq!(w.into_push_order(), Vec::<u32>::new());

    let w = Worker::<u32>::with_batches(3).unwrap();
    assert_eq!(w.into_chunks(None), vec![Vec::<u32>::new()]);

    let lanes: Vec<Vec<u32>> = vec![vec![], vec![], vec![]];
    assert_eq!(concat_in_order(lanes), Vec::<u32>::new());
}

#[test]
fn lane_major_concatenation_order() {
    let mut w = Worker::with_batches(3).unwrap();
    for i in 0..7u32 {
        w.push(i);
    }
    let flat = concat_in_order(w.into_lanes());
    assert_eq!(flat, vec![0, 3, 6, 1, 4, 2, 5]);
}

#[test]
fn concat_in_order_is_lane_major() {
    let parts = vec![vec![10, 13], vec![11, 14], vec![12]];
    assert_eq!(concat_in_order(parts), vec![10, 13, 11, 14, 12]);
}
