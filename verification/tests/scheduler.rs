use anne_hasher::poc_hashing::noncegen_rust;
use anne_hasher::scheduler::{
    hash_cpu, hash_part, lay_part, Handoff, Message, Reaction, Scheduler, WorkerTask, CPU_TASK_SIZE, CPU_WORKER,
    KIND_COMPLETED, KIND_READY,
};

const NONCE: u64 = 262144;

fn ready(worker: u8) -> Message {
    Message { worker, kind: KIND_READY, count: 0 }
}

fn completed(worker: u8, count: u64) -> Message {
    Message { worker, kind: KIND_COMPLETED, count }
}

fn sub_range(worker: u8, cache_size: u64, offset: u64, start: u64, nonces: u64) -> WorkerTask {
    WorkerTask {
        worker,
        cache_size,
        chunk_offset: offset,
        numeric_id: 5,
        local_startnonce: start,
        local_nonces: nonces,
    }
}

#[test]
fn cpu_threads_start_with_one_sub_range_each() {
    let mut scheduler = Scheduler::new(5, 1000, 200, 2, Vec::new(), 0);
    assert!(scheduler.wants_buffer(false));
    let tasks = scheduler.begin_fill(128 * NONCE);
    assert_eq!(
        tasks,
        vec![sub_range(0, 128, 0, 1000, 64), sub_range(0, 128, 64, 1064, 64)]
    );
    assert_eq!(scheduler.react(ready(CPU_WORKER), false), Reaction::NoWork);
    assert!(!scheduler.is_full());
    assert_eq!(
        scheduler.react(completed(CPU_WORKER, 64), false),
        Reaction::Progress { hashed: 64 }
    );
    assert_eq!(
        scheduler.react(completed(CPU_WORKER, 64), false),
        Reaction::Full { hashed: 128 }
    );
    assert!(scheduler.is_full());
    assert_eq!(scheduler.nonces_hashed(), 0);
    assert_eq!(scheduler.finish_fill(false), Handoff::Forward { nonces: 128, last: false });
    assert_eq!(scheduler.nonces_hashed(), 128);
    assert!(scheduler.wants_buffer(false));
}

#[test]
fn last_buffer_holds_what_is_left() {
    let mut scheduler = Scheduler::new(5, 1000, 200, 2, Vec::new(), 128);
    let tasks = scheduler.begin_fill(128 * NONCE + 17);
    assert_eq!(
        tasks,
        vec![sub_range(0, 128, 0, 1128, 64), sub_range(0, 128, 64, 1192, 8)]
    );
    assert_eq!(
        scheduler.react(completed(CPU_WORKER, 72), false),
        Reaction::Full { hashed: 200 }
    );
    assert_eq!(scheduler.finish_fill(false), Handoff::Forward { nonces: 72, last: true });
    assert_eq!(scheduler.nonces_hashed(), 200);
    assert!(!scheduler.wants_buffer(false));
}

#[test]
fn cpu_worker_asks_for_more() {
    let mut scheduler = Scheduler::new(5, 0, 1000, 1, Vec::new(), 0);
    let tasks = scheduler.begin_fill(150 * NONCE);
    assert_eq!(tasks, vec![sub_range(0, 150, 0, 0, CPU_TASK_SIZE)]);
    assert_eq!(
        scheduler.react(ready(CPU_WORKER), false),
        Reaction::Dispatch(sub_range(0, 150, 64, 64, 64))
    );
    assert_eq!(
        scheduler.react(ready(CPU_WORKER), false),
        Reaction::Dispatch(sub_range(0, 150, 128, 128, 22))
    );
    assert_eq!(scheduler.react(ready(CPU_WORKER), false), Reaction::NoWork);
}

#[test]
fn accelerators_come_first_and_leave_the_end_to_the_cpu() {
    let mut scheduler = Scheduler::new(5, 0, 1000, 1, vec![96], 0);
    let tasks = scheduler.begin_fill(240 * NONCE);
    assert_eq!(
        tasks,
        vec![sub_range(1, 240, 0, 0, 96), sub_range(0, 240, 96, 96, 64)]
    );
    assert_eq!(
        scheduler.react(ready(1), false),
        Reaction::Dispatch(sub_range(1, 240, 160, 160, 40))
    );
    assert_eq!(
        scheduler.react(ready(1), false),
        Reaction::Dispatch(sub_range(1, 240, 200, 200, 40))
    );
    assert_eq!(scheduler.react(ready(1), false), Reaction::NoWork);
    assert_eq!(scheduler.react(ready(CPU_WORKER), false), Reaction::NoWork);
}

#[test]
fn accelerator_without_cpu_takes_what_is_left() {
    let mut scheduler = Scheduler::new(5, 0, 1000, 0, vec![96], 0);
    let tasks = scheduler.begin_fill(176 * NONCE);
    assert_eq!(tasks, vec![sub_range(1, 176, 0, 0, 96)]);
    assert_eq!(
        scheduler.react(ready(1), false),
        Reaction::Dispatch(sub_range(1, 176, 96, 96, 80))
    );
}

#[test]
fn accelerator_gets_a_whole_worksize_while_one_is_left() {
    let mut scheduler = Scheduler::new(5, 0, 1000, 1, vec![96, 32], 0);
    let tasks = scheduler.begin_fill(400 * NONCE);
    assert_eq!(
        tasks,
        vec![
            sub_range(1, 400, 0, 0, 96),
            sub_range(2, 400, 96, 96, 32),
            sub_range(0, 400, 128, 128, 64),
        ]
    );
    assert_eq!(
        scheduler.react(ready(1), false),
        Reaction::Dispatch(sub_range(1, 400, 192, 192, 96))
    );
    assert_eq!(
        scheduler.react(ready(2), false),
        Reaction::Dispatch(sub_range(2, 400, 288, 288, 32))
    );
}

#[test]
fn small_buffer_is_handed_out_as_far_as_it_goes() {
    let mut scheduler = Scheduler::new(5, 10, 1000, 4, Vec::new(), 0);
    let tasks = scheduler.begin_fill(100 * NONCE);
    assert_eq!(
        tasks,
        vec![sub_range(0, 100, 0, 10, 64), sub_range(0, 100, 64, 74, 36)]
    );
}

#[test]
fn unknown_messages_change_nothing() {
    let mut scheduler = Scheduler::new(5, 0, 1000, 1, vec![96], 0);
    scheduler.begin_fill(400 * NONCE);
    assert_eq!(
        scheduler.react(Message { worker: 0, kind: 7, count: 1 }, false),
        Reaction::Ignored
    );
    assert_eq!(scheduler.react(ready(2), false), Reaction::Ignored);
    assert_eq!(scheduler.react(completed(0, 161), false), Reaction::Ignored);
    assert_eq!(
        scheduler.react(completed(1, 160), false),
        Reaction::Progress { hashed: 160 }
    );
    assert_eq!(scheduler.react(completed(1, 1), false), Reaction::Ignored);
}

#[test]
fn stop_ends_the_fill_and_forwards_nothing() {
    let mut scheduler = Scheduler::new(5, 0, 100, 1, Vec::new(), 0);
    assert!(!scheduler.wants_buffer(true));
    scheduler.begin_fill(64 * NONCE);
    assert_eq!(scheduler.react(completed(0, 64), true), Reaction::Stopped);
    assert_eq!(scheduler.react(ready(0), true), Reaction::Stopped);
    assert!(!scheduler.is_full());
    assert_eq!(scheduler.finish_fill(true), Handoff::Abandon);
    assert_eq!(scheduler.nonces_hashed(), 0);
}

#[test]
fn stop_after_a_full_buffer_forwards_nothing() {
    let mut scheduler = Scheduler::new(5, 0, 100, 1, Vec::new(), 0);
    scheduler.begin_fill(64 * NONCE);
    assert_eq!(
        scheduler.react(completed(0, 64), false),
        Reaction::Full { hashed: 64 }
    );
    assert_eq!(scheduler.finish_fill(true), Handoff::Abandon);
    assert_eq!(scheduler.nonces_hashed(), 0);
}

#[test]
fn unfinished_fill_is_abandoned() {
    let mut scheduler = Scheduler::new(5, 0, 100, 1, Vec::new(), 0);
    scheduler.begin_fill(64 * NONCE);
    assert_eq!(scheduler.finish_fill(false), Handoff::Abandon);
    assert_eq!(scheduler.nonces_hashed(), 0);
    assert!(scheduler.wants_buffer(false));
}

#[test]
fn worker_lays_its_sub_range_into_the_cache() {
    let mut cache = vec![0u8; 3 * 262144];
    hash_cpu(&mut cache, &sub_range(0, 3, 1, 900, 2));
    let mut expected = vec![0u8; 3 * 262144];
    noncegen_rust(&mut expected, 1, 5, 900, 2);
    assert!(cache == expected);
    assert!(cache[0..64].iter().all(|b| *b == 0));
    assert!(cache[64..128].iter().any(|b| *b != 0));
}

#[test]
fn fill_on_the_calling_thread() {
    let mut scheduler = Scheduler::new(5, 40, 3, 2, Vec::new(), 1);
    let mut cache = vec![0u8; 4 * 262144];
    scheduler.fill(&mut cache);
    assert!(scheduler.is_full());
    let mut expected = vec![0u8; 4 * 262144];
    noncegen_rust(&mut expected, 0, 5, 41, 2);
    assert!(cache == expected);
    assert_eq!(scheduler.finish_fill(false), Handoff::Forward { nonces: 2, last: true });
    assert_eq!(scheduler.nonces_hashed(), 3);
}

#[test]
fn part_computed_apart_is_laid_into_the_cache() {
    let work = sub_range(0, 3, 1, 900, 2);
    let part = hash_part(&work);
    assert_eq!(part.len(), 2 * 262144);
    let mut alone = vec![0u8; 2 * 262144];
    noncegen_rust(&mut alone, 0, 5, 900, 2);
    assert!(part == alone);
    let mut cache = vec![0x33u8; 3 * 262144 + 9];
    lay_part(&mut cache, &work, &part);
    let mut expected = vec![0x33u8; 3 * 262144 + 9];
    hash_cpu(&mut expected, &work);
    assert!(cache == expected);
}

#[test]
fn part_of_no_nonces_changes_nothing() {
    let work = sub_range(0, 2, 2, u64::MAX, 0);
    let part = hash_part(&work);
    assert!(part.is_empty());
    let mut cache = vec![0x33u8; 2 * 262144];
    lay_part(&mut cache, &work, &part);
    assert!(cache.iter().all(|b| *b == 0x33));
}
