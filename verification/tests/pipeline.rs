use anne_hasher::hasher::{Hasher, HasherTask, HostInfo, RunError};
use anne_hasher::poc_hashing::noncegen_rust;
use anne_hasher::scheduler::{Handoff, Message, Reaction, Scheduler, KIND_COMPLETED};
use anne_hasher::writer::{read_resume_info, write_resume_info, Writer};
use sha2::{Digest, Sha256};

const NONCE: usize = 262144;

fn hex(bytes: &[u8]) -> String {
    let mut s = String::new();
    for b in bytes {
        s.push_str(&format!("{:02x}", b));
    }
    s
}

fn task(id: u64, start: u64, nonces: u64, mem: &str, threads: u8) -> HasherTask {
    HasherTask {
        numeric_id: id,
        start_nonce: start,
        nonces,
        output_path: String::from("."),
        mem: String::from(mem),
        cpu_threads: threads,
        gpus: None,
        direct_io: false,
        benchmark: false,
    }
}

fn host() -> HostInfo {
    HostInfo {
        free_disk_space: 1 << 40,
        sector_size: 4096,
        avail_mem: 1 << 22,
        gpu_mem_needed: 0,
        path_exists: true,
    }
}

/// The file of a run of `nonces` nonces that was stopped after one buffer of
/// `first` nonces, with the progress recorded if `record` says so.
fn stopped_after(t: &HasherTask, nonces: u64, first: u64, record: bool) -> Vec<u8> {
    let mut file = vec![0u8; nonces as usize * NONCE + 8];
    write_resume_info(&mut file, 0).unwrap();
    let mut scheduler = Scheduler::new(t.numeric_id, t.start_nonce, nonces, t.cpu_threads, Vec::new(), 0);
    let mut writer = Writer::new(nonces, 0, false);
    let mut buffer = vec![0u8; first as usize * NONCE];
    scheduler.fill(&mut buffer);
    assert_eq!(scheduler.finish_fill(false), Handoff::Forward { nonces: first, last: false });
    writer.write_buffer(&mut file, &buffer);
    let finished = writer.finish_buffer(first, true);
    assert_eq!(finished.marker, None);
    assert!(!finished.sync);
    if record {
        write_resume_info(&mut file, writer.nonces_written()).unwrap();
    }
    file
}

#[test]
fn eight_nonces_single_threaded() {
    let mut t = task(12345678901234567890, 0, 8, "0B", 1);
    let file = Hasher::new().run(&mut t, &host(), None).unwrap().unwrap();
    assert_eq!(file.len(), 8 * 262144 + 8);
    assert_eq!(
        hex(&Sha256::digest(&file[..8 * 262144])),
        "84b6d935534c9ee1ac86890af832a1e4ae41911209c15c6a3f24362cca042f6d"
    );
    assert_eq!(&file[8 * 262144..], &[8, 0, 0, 0, 0xAF, 0xFE, 0xAF, 0xFE]);
}

#[test]
fn eight_nonces_with_four_threads_and_two_buffers() {
    let mut t = task(12345678901234567890, 0, 8, "1MiB", 4);
    let file = Hasher::new().run(&mut t, &host(), None).unwrap().unwrap();
    assert_eq!(file.len(), 8 * 262144 + 8);
    assert_eq!(
        hex(&Sha256::digest(&file[..8 * 262144])),
        "84b6d935534c9ee1ac86890af832a1e4ae41911209c15c6a3f24362cca042f6d"
    );
    assert_eq!(&file[8 * 262144..], &[8, 0, 0, 0, 0xAF, 0xFE, 0xAF, 0xFE]);
}

#[test]
fn plot_file_holds_each_scoop_of_each_nonce_in_its_place() {
    let mut t = task(7, 100, 3, "0B", 2);
    let file = Hasher::new().run(&mut t, &host(), None).unwrap().unwrap();
    assert_eq!(file.len(), 3 * NONCE + 8);
    for k in 0..3usize {
        let mut nonce = vec![0u8; NONCE];
        noncegen_rust(&mut nonce, 0, 7, 100 + k as u64, 1);
        for s in 0..4096usize {
            let at = s * 3 * 64 + k * 64;
            assert!(file[at..at + 64] == nonce[s * 64..s * 64 + 64]);
        }
    }
    assert_eq!(read_resume_info(&file), Ok(3));
}

#[test]
fn sixteen_nonces_agree_with_the_pinned_digest() {
    let mut t = task(7, 100, 16, "2MiB", 1);
    let file = Hasher::new().run(&mut t, &host(), None).unwrap().unwrap();
    assert_eq!(
        hex(&Sha256::digest(&file[..16 * NONCE])),
        "39a18781f5d275a55424230d7b1655b5265a592585032747e7ca9957d2159fbf"
    );
}

#[test]
fn stopped_run_is_resumed_to_the_same_file() {
    let mut t = task(0, 0, 16, "0B", 1);
    t.direct_io = true;
    let mut h = host();
    h.sector_size = 512;
    let found = stopped_after(&t, 16, 8, true);
    assert_eq!(read_resume_info(&found), Ok(8));
    let before = found.clone();
    let file = Hasher::new().run(&mut t, &h, Some(found)).unwrap().unwrap();
    assert_eq!(file.len(), 16 * NONCE + 8);
    assert_eq!(
        hex(&Sha256::digest(&file[..16 * NONCE])),
        "4514fda422fc7d2722dc9ca4350ab0b64d274d7dbfa015510a059548b1400bdf"
    );
    assert_eq!(read_resume_info(&file), Ok(16));
    for s in 0..4096usize {
        let at = s * 16 * 64;
        assert!(file[at..at + 8 * 64] == before[at..at + 8 * 64]);
    }
    let whole = Hasher::new().run(&mut t, &h, None).unwrap().unwrap();
    assert!(file == whole);
}

/// The digest of the slots from `from` up to `to` of every scoop of a file
/// of `nonces` nonces.
fn digest_of_slots(file: &[u8], nonces: usize, from: usize, to: usize) -> String {
    let mut digest = Sha256::new();
    for s in 0..4096usize {
        let at = s * nonces * 64;
        digest.update(&file[at + from * 64..at + to * 64]);
    }
    hex(&digest.finalize())
}

#[test]
fn sixty_four_nonces_stopped_while_the_first_buffer_fills() {
    let hasher = Hasher::new();
    let mut t = task(12345678901234567890, 0, 64, "0B", 1);
    t.direct_io = true;
    let layout = hasher.layout(&mut t, host().free_disk_space, 4096).unwrap();
    assert_eq!(layout.nonces, 64);
    assert_eq!(layout.nonces_per_sector, 64);
    let plan = hasher.plan(&t, &layout, &host(), None).unwrap();
    assert!(plan.create);
    assert_eq!(plan.buffer_size, 64 * NONCE as u64);
    let mut file = vec![0u8; 8];
    write_resume_info(&mut file, 0).unwrap();
    let mut scheduler = Scheduler::new(t.numeric_id, t.start_nonce, 64, 1, Vec::new(), 0);
    let mut writer = Writer::new(64, 0, false);
    let tasks = scheduler.begin_fill(plan.buffer_size);
    assert_eq!(tasks.len(), 1);
    assert_eq!(tasks[0].local_nonces, 64);
    assert_eq!(
        scheduler.react(Message { worker: 0, kind: KIND_COMPLETED, count: 32 }, false),
        Reaction::Progress { hashed: 32 }
    );
    assert_eq!(
        scheduler.react(Message { worker: 0, kind: KIND_COMPLETED, count: 32 }, true),
        Reaction::Stopped
    );
    assert_eq!(scheduler.finish_fill(true), Handoff::Abandon);
    assert_eq!(scheduler.nonces_hashed(), 0);
    let finished = writer.finish_buffer(0, true);
    assert_eq!(finished.marker, None);
    assert!(!finished.sync);
    assert!(!finished.done);
    assert_eq!(writer.nonces_written(), 0);
    let resumed = hasher.plan(&t, &layout, &host(), Some(&file)).unwrap();
    assert_eq!(resumed.progress, 0);
    assert!(!resumed.create);
    assert_eq!(resumed.buffer_size, plan.buffer_size);
}

#[test]
fn first_half_of_sixty_four_nonces() {
    let t = task(12345678901234567890, 0, 64, "0B", 1);
    let file = stopped_after(&t, 64, 32, true);
    assert_eq!(read_resume_info(&file), Ok(32));
    assert_eq!(
        digest_of_slots(&file, 64, 0, 32),
        "3899657912e75d21b8e90adc3c9738197a1b34dfe916d67969c0fa825ca1836b"
    );
    for s in [0usize, 1, 4095] {
        let at = s * 64 * 64 + 32 * 64;
        assert!(file[at..at + 32 * 64].iter().all(|b| *b == 0));
    }
}

#[test]
fn second_half_of_sixty_four_nonces_is_resumed() {
    let mut t = task(12345678901234567890, 0, 64, "0B", 1);
    t.direct_io = true;
    let mut found = vec![0x5Au8; 64 * NONCE + 8];
    write_resume_info(&mut found, 32).unwrap();
    let file = Hasher::new().run(&mut t, &host(), Some(found)).unwrap().unwrap();
    assert_eq!(file.len(), 64 * NONCE + 8);
    assert_eq!(read_resume_info(&file), Ok(64));
    assert_eq!(
        digest_of_slots(&file, 64, 32, 64),
        "17cf162b47a108f306cb9c6d87207337a092c4d6ce08e915fd421bbea6d7af35"
    );
    for s in 0..4096usize {
        let at = s * 64 * 64;
        assert!(file[at..at + 32 * 64].iter().all(|b| *b == 0x5A));
    }
}

#[test]
fn written_nonces_are_not_written_again() {
    let mut found = vec![0x5Au8; 4 * NONCE + 8];
    write_resume_info(&mut found, 3).unwrap();
    let mut t = task(9, 50, 4, "0B", 1);
    let file = Hasher::new().run(&mut t, &host(), Some(found)).unwrap().unwrap();
    let mut last = vec![0u8; NONCE];
    noncegen_rust(&mut last, 0, 9, 53, 1);
    for s in 0..4096usize {
        let at = s * 4 * 64;
        assert!(file[at..at + 3 * 64].iter().all(|b| *b == 0x5A));
        assert!(file[at + 3 * 64..at + 4 * 64] == last[s * 64..s * 64 + 64]);
    }
    assert_eq!(read_resume_info(&file), Ok(4));
}

#[test]
fn stopped_run_without_recorded_progress_starts_again() {
    let mut t = task(12345678901234567890, 0, 8, "0B", 1);
    let found = stopped_after(&t, 8, 2, false);
    assert_eq!(read_resume_info(&found), Ok(0));
    let file = Hasher::new().run(&mut t, &host(), Some(found)).unwrap().unwrap();
    assert_eq!(
        hex(&Sha256::digest(&file[..8 * NONCE])),
        "84b6d935534c9ee1ac86890af832a1e4ae41911209c15c6a3f24362cca042f6d"
    );
    assert_eq!(read_resume_info(&file), Ok(8));
}

#[test]
fn complete_file_stays_as_it_is() {
    let mut found = vec![0x42u8; 2 * NONCE + 8];
    write_resume_info(&mut found, 2).unwrap();
    let before = found.clone();
    let mut t = task(1, 1, 2, "0B", 1);
    let file = Hasher::new().run(&mut t, &host(), Some(found)).unwrap().unwrap();
    assert!(file == before);
}

#[test]
fn benchmark_of_one_nonce_creates_no_file() {
    let mut t = task(0, 0, 1, "0B", 1);
    t.benchmark = true;
    let started = std::time::Instant::now();
    let result = Hasher::new().run(&mut t, &host(), None);
    assert_eq!(result, Ok(None));
    assert!(started.elapsed() > std::time::Duration::from_nanos(0));
}

#[test]
fn benchmark_leaves_a_file_as_it_is() {
    let mut found = vec![0x42u8; NONCE + 8];
    write_resume_info(&mut found, 0).unwrap();
    let before = found.clone();
    let mut t = task(0, 0, 1, "0B", 1);
    t.benchmark = true;
    assert_eq!(Hasher::new().run(&mut t, &host(), Some(found)), Ok(Some(before)));
}

#[test]
fn run_settles_the_number_of_nonces() {
    let mut t = task(3, 0, 0, "0B", 1);
    let mut h = host();
    h.free_disk_space = 2 * NONCE as u64 + 100;
    let file = Hasher::new().run(&mut t, &h, None).unwrap().unwrap();
    assert_eq!(t.nonces, 2);
    assert_eq!(file.len(), 2 * NONCE + 8);
    assert_eq!(Hasher::new().file_name(&t), "3_0_2");
}

#[test]
fn run_of_no_nonces_gives_the_trailer_alone() {
    let mut t = task(3, 0, 7, "0B", 1);
    t.direct_io = true;
    let mut h = host();
    h.sector_size = 512;
    let file = Hasher::new().run(&mut t, &h, None).unwrap().unwrap();
    assert_eq!(t.nonces, 0);
    assert_eq!(file, vec![0, 0, 0, 0, 0xAF, 0xFE, 0xAF, 0xFE]);
}

#[test]
fn run_refuses_what_the_plan_refuses() {
    let hasher = Hasher::new();
    let mut missing = host();
    missing.path_exists = false;
    assert_eq!(
        hasher.run(&mut task(0, 0, 1, "0B", 1), &missing, None),
        Err(RunError::PathNotFound)
    );
    let mut full = host();
    full.free_disk_space = NONCE as u64 - 1;
    assert_eq!(
        hasher.run(&mut task(0, 0, 1, "0B", 1), &full, None),
        Err(RunError::InsufficientDiskSpace)
    );
    assert_eq!(
        hasher.run(&mut task(0, 0, 1, "much", 1), &host(), None),
        Err(RunError::InvalidMemory)
    );
    assert_eq!(
        hasher.run(&mut task(0, 0, 1 << 32, "0B", 1), &host(), None),
        Err(RunError::TooManyNonces)
    );
    let mut starved = task(0, 0, 1, "1MiB", 1);
    starved.gpus = Some(vec![String::from("0:0:0")]);
    let mut accelerated = host();
    accelerated.gpu_mem_needed = 1 << 20;
    assert_eq!(
        hasher.run(&mut starved, &accelerated, None),
        Err(RunError::InsufficientHostMemory)
    );
}

#[test]
fn run_refuses_a_file_it_cannot_take_up() {
    let hasher = Hasher::new();
    assert_eq!(
        hasher.run(&mut task(0, 0, 1, "0B", 1), &host(), Some(vec![0u8; NONCE + 8])),
        Err(RunError::ResumeInfoMissing)
    );
    let mut ahead = vec![0u8; NONCE + 8];
    write_resume_info(&mut ahead, 2).unwrap();
    assert_eq!(
        hasher.run(&mut task(0, 0, 1, "0B", 1), &host(), Some(ahead)),
        Err(RunError::ResumeInfoMissing)
    );
    let mut short = vec![0u8; NONCE];
    write_resume_info(&mut short, 0).unwrap();
    assert_eq!(
        hasher.run(&mut task(0, 0, 1, "0B", 1), &host(), Some(short)),
        Err(RunError::ResumeInfoMissing)
    );
}
