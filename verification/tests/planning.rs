use anne_hasher::buffer::{align_offset, PageAlignedByteBuffer};
use anne_hasher::hasher::{
    calculate_mem_to_use, mem_to_use, Hasher, HasherTask, HostInfo, Layout, RunError, RunPlan,
};

const NONCE: u64 = 262144;
const GIB: u64 = 1 << 30;
const MIB: u64 = 1 << 20;

fn task(nonces: u64, mem: &str) -> HasherTask {
    HasherTask {
        numeric_id: 12345678901234567890,
        start_nonce: 0,
        nonces,
        output_path: String::from("."),
        mem: String::from(mem),
        cpu_threads: 1,
        gpus: None,
        direct_io: false,
        benchmark: false,
    }
}

fn host() -> HostInfo {
    HostInfo {
        free_disk_space: 1 << 40,
        sector_size: 4096,
        avail_mem: 4 * 1024 * 1024,
        gpu_mem_needed: 0,
        path_exists: true,
    }
}

fn plain(nonces: u64) -> Layout {
    Layout { nonces, rounded: false, nonces_per_sector: 1, segment_size: nonces * NONCE }
}

fn trailer(progress: u32) -> Vec<u8> {
    let mut t = progress.to_le_bytes().to_vec();
    t.extend_from_slice(&[0xAF, 0xFE, 0xAF, 0xFE]);
    t
}

#[test]
fn offset_to_the_next_page() {
    assert_eq!(align_offset(0, 4096), 0);
    assert_eq!(align_offset(1, 4096), 4095);
    assert_eq!(align_offset(4095, 4096), 1);
    assert_eq!(align_offset(4096, 4096), 0);
    assert_eq!(align_offset(8193, 4096), 4095);
    assert_eq!(align_offset(usize::MAX, 4096), 1);
    assert_eq!(align_offset(17, 1), 0);
}

#[test]
fn buffer_is_zeroed_and_page_aligned() {
    let mut buffer = PageAlignedByteBuffer::new(1024 * 1024 + 3);
    assert_eq!(buffer.len(), 1024 * 1024 + 3);
    assert!(buffer.is_page_aligned());
    assert!(buffer.as_slice().iter().all(|b| *b == 0));
    assert_eq!(buffer.as_slice().as_ptr() as usize % page_size::get(), 0);
    {
        let bytes = buffer.get_buffer();
        assert_eq!(bytes.len(), 1024 * 1024 + 3);
        assert_eq!(bytes.as_ptr() as usize % page_size::get(), 0);
        bytes[0] = 1;
        bytes[1024 * 1024 + 2] = 2;
    }
    assert_eq!(buffer.as_slice()[0], 1);
    assert_eq!(buffer.as_slice()[1024 * 1024 + 2], 2);
    assert_eq!(buffer.as_slice()[1], 0);
    assert!(buffer.is_page_aligned());
}

#[test]
fn empty_buffer() {
    let mut buffer = PageAlignedByteBuffer::new(0);
    assert_eq!(buffer.len(), 0);
    assert!(buffer.as_slice().is_empty());
    assert!(buffer.get_buffer().is_empty());
}

#[test]
fn requested_nonces_are_kept_without_direct_io() {
    let mut t = task(100, "0B");
    let layout = Hasher::new().layout(&mut t, 0, 4096);
    assert_eq!(layout, Ok(plain(100)));
    assert_eq!(t.nonces, 100);
}

#[test]
fn nonces_are_rounded_down_to_whole_sectors() {
    let mut t = task(100, "0B");
    t.direct_io = true;
    let layout = Hasher::new().layout(&mut t, 1 << 40, 4096);
    assert_eq!(
        layout,
        Ok(Layout { nonces: 64, rounded: true, nonces_per_sector: 64, segment_size: 64 * NONCE })
    );
    assert_eq!(t.nonces, 64);
    let mut whole = task(128, "0B");
    whole.direct_io = true;
    assert_eq!(
        Hasher::new().layout(&mut whole, 1 << 40, 512),
        Ok(Layout { nonces: 128, rounded: false, nonces_per_sector: 8, segment_size: 128 * NONCE })
    );
    let mut small = task(63, "0B");
    small.direct_io = true;
    assert_eq!(
        Hasher::new().layout(&mut small, 1 << 40, 4096),
        Ok(Layout { nonces: 0, rounded: true, nonces_per_sector: 64, segment_size: 0 })
    );
    assert_eq!(small.nonces, 0);
}

#[test]
fn no_request_fills_the_disk() {
    let mut t = task(0, "0B");
    assert_eq!(Hasher::new().layout(&mut t, 10 * NONCE + 5, 4096), Ok(plain(10)));
    assert_eq!(t.nonces, 10);
    let mut direct = task(0, "0B");
    direct.direct_io = true;
    assert_eq!(
        Hasher::new().layout(&mut direct, 100 * NONCE, 4096),
        Ok(Layout { nonces: 64, rounded: true, nonces_per_sector: 64, segment_size: 64 * NONCE })
    );
}

#[test]
fn too_many_nonces_are_refused() {
    let mut t = task(0x1_0000_0000, "0B");
    assert_eq!(Hasher::new().layout(&mut t, 0, 4096), Err(RunError::TooManyNonces));
    assert_eq!(t.nonces, 0x1_0000_0000);
    let mut most = task(0xFFFF_FFFF, "0B");
    assert_eq!(Hasher::new().layout(&mut most, 0, 4096), Ok(plain(0xFFFF_FFFF)));
    let mut past = task(2, "0B");
    past.start_nonce = u64::MAX;
    assert_eq!(Hasher::new().layout(&mut past, 0, 4096), Err(RunError::TooManyNonces));
    let mut last = task(1, "0B");
    last.start_nonce = u64::MAX;
    assert_eq!(Hasher::new().layout(&mut last, 0, 4096), Ok(plain(1)));
}

#[test]
fn name_of_the_plot_file() {
    let hasher = Hasher::new();
    assert_eq!(hasher.file_name(&task(8, "0B")), "12345678901234567890_0_8");
    let mut t = task(0, "0B");
    t.numeric_id = 0;
    assert_eq!(hasher.file_name(&t), "0_0_0");
    t.numeric_id = u64::MAX;
    t.start_nonce = 10;
    t.nonces = 4294967295;
    assert_eq!(hasher.file_name(&t), "18446744073709551615_10_4294967295");
    t.numeric_id = 1000;
    t.start_nonce = 909;
    t.nonces = 19;
    assert_eq!(hasher.file_name(&t), "1000_909_19");
}

#[test]
fn memory_without_a_request_is_the_size_of_the_data() {
    assert_eq!(mem_to_use(0, 8 * NONCE, 4 * 1024 * 1024, 1, false, 0), Ok(8 * NONCE));
    assert_eq!(mem_to_use(0, 9 * NONCE, 4 * 1024 * 1024, 1, false, 0), Ok(8 * NONCE));
    assert_eq!(mem_to_use(0, 64 * NONCE, 4 * 1024 * 1024, 64, false, 0), Ok(128 * NONCE));
    assert_eq!(mem_to_use(0, 256 * NONCE, 4 * 1024 * 1024, 64, false, 0), Ok(256 * NONCE));
}

#[test]
fn memory_is_capped_by_the_data_and_by_the_host() {
    assert_eq!(mem_to_use(GIB, 8 * NONCE, 4 * 1024 * 1024, 1, false, 0), Ok(8 * NONCE));
    assert_eq!(mem_to_use(GIB, 16 * GIB, 4 * 1024 * 1024, 1, false, 0), Ok(GIB));
    assert_eq!(mem_to_use(8 * GIB, 16 * GIB, 4 * 1024 * 1024, 1, false, 0), Ok(3 * GIB));
    assert_eq!(mem_to_use(GIB, 16 * GIB, 1024, 1, false, 0), Ok(2 * NONCE));
    assert_eq!(mem_to_use(GIB, 16 * GIB, 1025, 1, false, 0), Ok(2 * NONCE));
    assert_eq!(mem_to_use(GIB, 16 * GIB, 0, 1, false, 0), Ok(2 * NONCE));
    assert_eq!(mem_to_use(GIB + 5, 16 * GIB, 4 * 1024 * 1024, 1, false, 0), Ok(GIB));
    assert_eq!(mem_to_use(1, 16 * GIB, 4 * 1024 * 1024, 1, false, 0), Ok(2 * NONCE));
}

#[test]
fn memory_beside_an_accelerator() {
    assert_eq!(
        mem_to_use(64 * MIB, GIB, 4 * 1024 * 1024, 1, true, 16 * MIB),
        Ok(48 * MIB)
    );
    assert_eq!(
        mem_to_use(60 * MIB, GIB, 4 * 1024 * 1024, 1, true, 16 * MIB),
        Ok(40 * MIB)
    );
    assert_eq!(mem_to_use(0, GIB, 4 * 1024 * 1024, 1, true, 16 * MIB), Ok(GIB));
    assert_eq!(mem_to_use(0, MIB, 4 * 1024 * 1024, 1, true, 16 * MIB), Ok(8 * MIB));
    assert_eq!(
        mem_to_use(8 * GIB, 16 * GIB, 4 * 1024 * 1024, 1, true, GIB),
        Ok(2 * GIB)
    );
    assert_eq!(
        mem_to_use(8 * GIB, 16 * GIB, 1024 * 1024, 1, true, GIB),
        Ok(768 * MIB)
    );
    assert_eq!(
        mem_to_use(64 * MIB, GIB, 4 * 1024 * 1024, 64, true, 16 * MIB),
        Ok(32 * MIB)
    );
}

#[test]
fn memory_that_starves_the_host_is_refused() {
    assert_eq!(
        mem_to_use(16 * MIB, GIB, 4 * 1024 * 1024, 1, true, 16 * MIB),
        Err(RunError::InsufficientHostMemory)
    );
    assert_eq!(
        mem_to_use(16 * MIB + NONCE - 1, GIB, 4 * 1024 * 1024, 1, true, 16 * MIB),
        Err(RunError::InsufficientHostMemory)
    );
    assert_eq!(
        mem_to_use(16 * MIB + NONCE, GIB, 4 * 1024 * 1024, 1, true, 16 * MIB),
        Ok(8 * MIB)
    );
    assert_eq!(
        mem_to_use(1, GIB, 4 * 1024 * 1024, 1, true, 16 * MIB),
        Err(RunError::InsufficientHostMemory)
    );
    assert_eq!(mem_to_use(1, GIB, 4 * 1024 * 1024, 1, false, 16 * MIB), Ok(2 * NONCE));
}

#[test]
fn memory_request_is_read_with_its_unit() {
    let avail = 64 * 1024 * 1024;
    assert_eq!(calculate_mem_to_use(&task(65536, "1GiB"), avail, 1, false, 0), Ok(GIB));
    assert_eq!(calculate_mem_to_use(&task(65536, "1 GiB"), avail, 1, false, 0), Ok(GIB));
    assert_eq!(calculate_mem_to_use(&task(65536, "512MiB"), avail, 1, false, 0), Ok(512 * MIB));
    assert_eq!(
        calculate_mem_to_use(&task(65536, "1GB"), avail, 1, false, 0),
        Ok(1_000_000_000 / (2 * NONCE) * (2 * NONCE))
    );
    assert_eq!(calculate_mem_to_use(&task(65536, "1048576"), avail, 1, false, 0), Ok(MIB));
    assert_eq!(calculate_mem_to_use(&task(65536, "0B"), avail, 1, false, 0), Ok(16 * GIB));
    assert_eq!(calculate_mem_to_use(&task(8, "0B"), avail, 1, false, 0), Ok(8 * NONCE));
}

#[test]
fn memory_request_that_cannot_be_read_is_refused() {
    for text in [
        "", "abc", "1XB", "GiB", "-1", "1.5GiB", "1G\u{e9}", "\u{661}GiB", "\u{ff11}\u{ff12}GB",
        "1\u{20ac}GiB", "\u{20ac}", "  ", "\u{a0}", "1 \u{20ac}",
    ] {
        assert_eq!(
            calculate_mem_to_use(&task(8, text), 4 * 1024 * 1024, 1, false, 0),
            Err(RunError::InvalidMemory),
            "{:?}",
            text
        );
    }
}

#[test]
fn plan_of_a_new_file() {
    let plan = Hasher::new().plan(&task(8, "0B"), &plain(8), &host(), None);
    assert_eq!(
        plan,
        Ok(RunPlan {
            layout: plain(8),
            mem: 8 * NONCE,
            buffer_size: 4 * NONCE,
            progress: 0,
            create: true,
        })
    );
}

#[test]
fn plan_of_a_benchmark_creates_no_file() {
    let mut t = task(8, "0B");
    t.benchmark = true;
    let mut h = host();
    h.free_disk_space = 0;
    let plan = Hasher::new().plan(&t, &plain(8), &h, None).unwrap();
    assert!(!plan.create);
    assert_eq!(plan.progress, 0);
}

#[test]
fn plan_takes_up_a_file_where_it_stopped() {
    let mut found = vec![0u8; 100];
    found.extend_from_slice(&trailer(3));
    let mut h = host();
    h.free_disk_space = 0;
    let plan = Hasher::new().plan(&task(8, "0B"), &plain(8), &h, Some(&found));
    assert_eq!(
        plan,
        Ok(RunPlan {
            layout: plain(8),
            mem: 8 * NONCE,
            buffer_size: 4 * NONCE,
            progress: 3,
            create: false,
        })
    );
    let done = Hasher::new().plan(&task(8, "0B"), &plain(8), &h, Some(&trailer(8))).unwrap();
    assert_eq!(done.progress, 8);
}

#[test]
fn plan_for_direct_io_has_buffers_of_whole_sectors() {
    let mut t = task(64, "0B");
    t.direct_io = true;
    let layout = Hasher::new().layout(&mut t, 1 << 40, 4096).unwrap();
    let plan = Hasher::new().plan(&t, &layout, &host(), None).unwrap();
    assert_eq!(plan.mem, 128 * NONCE);
    assert_eq!(plan.buffer_size, 64 * NONCE);
    assert_eq!(plan.buffer_size % (64 * NONCE), 0);
    assert_eq!((layout.nonces * 64) % 4096, 0);
}

#[test]
fn plan_without_the_directory() {
    let mut h = host();
    h.path_exists = false;
    h.free_disk_space = 0;
    assert_eq!(
        Hasher::new().plan(&task(8, "nonsense"), &plain(8), &h, None),
        Err(RunError::PathNotFound)
    );
}

#[test]
fn plan_without_disk_space() {
    let mut h = host();
    h.free_disk_space = 8 * NONCE - 1;
    assert_eq!(
        Hasher::new().plan(&task(8, "nonsense"), &plain(8), &h, None),
        Err(RunError::InsufficientDiskSpace)
    );
    h.free_disk_space = 8 * NONCE;
    assert_eq!(
        Hasher::new().plan(&task(8, "nonsense"), &plain(8), &h, None),
        Err(RunError::InvalidMemory)
    );
}

#[test]
fn plan_with_an_accelerator_that_starves_the_host() {
    let mut t = task(8, "1MiB");
    t.gpus = Some(vec![String::from("0:0:0")]);
    let mut h = host();
    h.gpu_mem_needed = MIB;
    assert_eq!(
        Hasher::new().plan(&t, &plain(8), &h, None),
        Err(RunError::InsufficientHostMemory)
    );
}

#[test]
fn plan_for_a_file_without_resume_information() {
    let hasher = Hasher::new();
    let t = task(8, "0B");
    assert_eq!(
        hasher.plan(&t, &plain(8), &host(), Some(&[0u8; 16])),
        Err(RunError::ResumeInfoMissing)
    );
    assert_eq!(
        hasher.plan(&t, &plain(8), &host(), Some(&[0xAF, 0xFE, 0xAF, 0xFE])),
        Err(RunError::ResumeInfoMissing)
    );
    assert_eq!(
        hasher.plan(&t, &plain(8), &host(), Some(&trailer(9))),
        Err(RunError::ResumeInfoMissing)
    );
}

#[test]
fn memory_request_with_white_space_beyond_ascii_is_read() {
    let avail = 64 * 1024 * 1024;
    for text in ["1\u{a0}GiB", "\u{a0}1GiB", "1GiB\u{3000}", "\u{2003}1\u{2009}GiB\u{a0}", " 1 GiB "] {
        assert_eq!(
            calculate_mem_to_use(&task(65536, text), avail, 1, false, 0),
            Ok(GIB),
            "{:?}",
            text
        );
    }
}
