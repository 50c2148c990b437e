//! The task descriptor and the decisions taken before a run starts: how many
//! nonces the file holds, how it is named, how much memory the buffers get,
//! and where a run that was interrupted takes up again.
use crate::buffer::PageAlignedByteBuffer;
use crate::poc_hashing::{cache_with, capacity, scoop_of};
use crate::scheduler::{min_int, Handoff, Scheduler};
use crate::writer::{
    has_marker,
    lemma_written_nonces,
    read_resume_info,
    recorded,
    with_trailer,
    write_resume_info,
    written,
    Writer,
    TRAILER_SIZE,
};
use vstd::prelude::*;

verus! {

/// Bytes in one scoop.
pub const SCOOP_SIZE: u64 = 64;

/// Scoops in one nonce.
pub const NUM_SCOOPS: u64 = 4096;

/// Bytes in one nonce.
pub const NONCE_SIZE: u64 = 262144;

/// Buffers that travel between scheduler and writer.
pub const NUM_BUFFERS: u64 = 2;

/// Least number of nonces per buffer unit when an accelerator is active.
pub const ACCELERATOR_UNIT: u64 = 16;

/// Most nonces in one file: what the resume trailer can record.
pub const MAX_NONCES: u64 = 0xffff_ffff;

/// Largest sector size, in bytes, that a run is planned for.
pub const MAX_SECTOR_SIZE: u64 = 0x4_0000_0000_0000;

/// What is to be plotted, and how.
pub struct HasherTask {
    /// The account.
    pub numeric_id: u64,
    /// Index of the first nonce.
    pub start_nonce: u64,
    /// Nonces to plot; 0 asks for as many as the free disk space holds.
    pub nonces: u64,
    /// Directory of the plot file.
    pub output_path: String,
    /// Memory for the buffers, as a number with an optional unit; "0B" asks
    /// for as much as the file needs.
    pub mem: String,
    /// CPU worker threads.
    pub cpu_threads: u8,
    /// Accelerators, each as `platform_id:device_id:cores`.
    pub gpus: Option<Vec<String>>,
    /// Whether the file is written with direct I/O.
    pub direct_io: bool,
    /// Whether the run only measures, and writes no file.
    pub benchmark: bool,
}

/// Why a run does not start.
#[derive(Clone, Copy, Debug, PartialEq, Eq, Structural)]
pub enum RunError {
    /// The nonces do not fit: their count is more than a resume trailer
    /// records, or their indices pass the largest 64-bit number.
    TooManyNonces,
    /// The output directory does not exist.
    PathNotFound,
    /// The disk has less free space than the file needs.
    InsufficientDiskSpace,
    /// The memory budget cannot be read as a number of bytes.
    InvalidMemory,
    /// The memory budget is less than the accelerators need.
    InsufficientHostMemory,
    /// The file exists and does not say how far it was written.
    ResumeInfoMissing,
    /// The file or a buffer is larger than the address space.  Only a run
    /// in memory reports this.
    TooLargeForMemory,
}

/// What the machine says before a run.
pub struct HostInfo {
    /// Free bytes on the disk of the output directory.
    pub free_disk_space: u64,
    /// Bytes in one sector of that disk.
    pub sector_size: u64,
    /// Available physical memory in KiB.
    pub avail_mem: u64,
    /// Host memory in bytes that the accelerators need.
    pub gpu_mem_needed: u64,
    /// Whether the output directory exists.
    pub path_exists: bool,
}

/// The file that a run writes.
#[derive(Clone, Copy, Debug, PartialEq, Eq, Structural)]
pub struct Layout {
    /// Nonces in the file.
    pub nonces: u64,
    /// Whether the number of nonces was rounded down to whole sectors.
    pub rounded: bool,
    /// Nonces whose scoops fill one sector; 1 without direct I/O.
    pub nonces_per_sector: u64,
    /// Bytes of nonce data in the file.
    pub segment_size: u64,
}

/// What a run does.
#[derive(Clone, Copy, Debug, PartialEq, Eq, Structural)]
pub struct RunPlan {
    /// The file.
    pub layout: Layout,
    /// Bytes of memory for all buffers together.
    pub mem: u64,
    /// Bytes in one buffer.
    pub buffer_size: u64,
    /// Nonces that the file holds already.
    pub progress: u64,
    /// Whether the file is to be created, with a trailer that records no
    /// progress.
    pub create: bool,
}

/// The decimal digits of `n`.
pub open spec fn decimal(n: nat) -> Seq<char>
    decreases n,
{
    if n < 10 {
        seq![digit(n)]
    } else {
        decimal(n / 10).push(digit(n % 10))
    }
}

/// The character of the digit `d`.
pub open spec fn digit(d: nat) -> char {
    (0x30 + d) as char
}

/// The name of the plot file: account, first nonce and number of nonces in
/// decimal, joined by underscores.
pub open spec fn plot_name(numeric_id: u64, start_nonce: u64, nonces: u64) -> Seq<char> {
    decimal(numeric_id as nat) + seq!['_'] + decimal(start_nonce as nat) + seq!['_'] + decimal(
        nonces as nat,
    )
}

/// Calls `String::push`, which appends one character to the string.
#[verifier::external_body]
fn push_char(text: &mut String, c: char)
    ensures
        final(text)@ == old(text)@.push(c),
{
    text.push(c);
}

fn push_decimal(text: &mut String, n: u64)
    ensures
        final(text)@ == old(text)@ + decimal(n as nat),
{
    let mut digits: [u8; 20] = [0u8; 20];
    let mut count: usize = 0;
    let mut rest: u64 = n;
    proof {
        assert(pow10(0) == 1);
        assert(rest as nat * pow10(0) == n as nat) by (nonlinear_arith)
            requires
                rest == n,
                pow10(0) == 1,
        ;
        assert(decimal(rest as nat) + tail_digits(digits@, 0) =~= decimal(n as nat));
    }
    loop
        invariant_except_break
            count < 20,
            rest as nat * pow10(count as nat) <= n,
            decimal(n as nat) == decimal(rest as nat) + tail_digits(digits@, count as int),
            forall|i: int| 0 <= i < count ==> digits@[i] < 10,
        ensures
            0 < count <= 20,
            decimal(n as nat) == tail_digits(digits@, count as int),
            forall|i: int| 0 <= i < count ==> digits@[i] < 10,
        decreases rest,
    {
        let ghost before = digits@;
        if rest < 10 {
            digits[count] = rest as u8;
            count += 1;
            proof {
                lemma_tail_digits_push(before, digits@, count as int);
                assert(decimal(rest as nat) =~= seq![digit(rest as nat)]);
            }
            break ;
        }
        digits[count] = (rest % 10) as u8;
        proof {
            lemma_tail_digits_push(before, digits@, count + 1);
            lemma_pow10_step(count as nat);
            assert((rest / 10) as nat * pow10((count + 1) as nat) <= n) by (nonlinear_arith)
                requires
                    rest as nat * pow10(count as nat) <= n,
                    pow10((count + 1) as nat) == 10 * pow10(count as nat),
                    pow10(count as nat) >= 1,
                    rest >= 0,
            ;
            if count + 1 >= 20 {
                lemma_pow10_20();
                assert(false) by (nonlinear_arith)
                    requires
                        (rest / 10) as nat * pow10(20) <= n,
                        pow10(20) == 100000000000000000000,
                        rest >= 10,
                        n <= u64::MAX,
                ;
            }
            assert(decimal(rest as nat) =~= decimal((rest / 10) as nat).push(
                digit((rest % 10) as nat),
            ));
        }
        count += 1;
        rest = rest / 10;
    }
    let ghost start = text@;
    let mut i: usize = count;
    while i > 0
        invariant
            i <= count <= 20,
            forall|k: int| 0 <= k < count ==> digits@[k] < 10,
            text@ + tail_digits(digits@, i as int) == start + tail_digits(digits@, count as int),
        decreases i,
    {
        i -= 1;
        let ghost before = text@;
        push_char(text, (0x30u8 + digits[i]) as char);
        assert(text@ + tail_digits(digits@, i as int) =~= before + tail_digits(
            digits@,
            i + 1,
        ));
    }
    assert(text@ + tail_digits(digits@, 0) =~= text@);
}

/// `10` to the power `k`.
pub open spec fn pow10(k: nat) -> nat
    decreases k,
{
    if k == 0 {
        1
    } else {
        10 * pow10((k - 1) as nat)
    }
}

proof fn lemma_pow10_step(k: nat)
    ensures
        pow10(k + 1) == 10 * pow10(k),
        pow10(k) >= 1,
    decreases k,
{
    if k > 0 {
        lemma_pow10_step((k - 1) as nat);
    }
}

proof fn lemma_pow10_20()
    ensures
        pow10(20) == 100000000000000000000,
{
    reveal_with_fuel(pow10, 21);
}

/// The characters of the digits `digits[count - 1], .., digits[0]`: the
/// digits are kept least significant first.
spec fn tail_digits(digits: Seq<u8>, count: int) -> Seq<char>
    decreases count,
{
    if count <= 0 {
        Seq::empty()
    } else {
        seq![digit(digits[count - 1] as nat)] + tail_digits(digits, count - 1)
    }
}

proof fn lemma_tail_digits_frame(a: Seq<u8>, b: Seq<u8>, count: int)
    requires
        forall|i: int| 0 <= i < count ==> a[i] == b[i],
    ensures
        tail_digits(a, count) == tail_digits(b, count),
    decreases count,
{
    if count > 0 {
        lemma_tail_digits_frame(a, b, count - 1);
    }
}

proof fn lemma_tail_digits_push(a: Seq<u8>, b: Seq<u8>, count: int)
    requires
        count > 0,
        forall|i: int| 0 <= i < count - 1 ==> a[i] == b[i],
    ensures
        tail_digits(b, count) == seq![digit(b[count - 1] as nat)] + tail_digits(a, count - 1),
{
    lemma_tail_digits_frame(a, b, count - 1);
}

/// Nonces whose scoops fill one sector.
pub open spec fn sector_nonces(direct_io: bool, sector_size: int) -> int {
    if direct_io {
        sector_size / (SCOOP_SIZE as int)
    } else {
        1
    }
}

/// The number of nonces of a run: the requested number, or what the free
/// disk space holds where none was requested, rounded down to whole sectors.
pub open spec fn run_nonces(requested: int, free_disk_space: int, nps: int) -> int {
    let wanted = if requested == 0 {
        free_disk_space / (NONCE_SIZE as int)
    } else {
        requested
    };
    wanted / nps * nps
}

/// The memory for all buffers, in bytes.
///
/// The budget starts from the request less what the accelerators need, or
/// from the size of the nonce data where nothing was requested.  It is
/// capped by the nonce data plus the accelerators' need, and by three
/// quarters of the available memory, less the accelerators' need where that
/// leaves anything.  It is rounded down to whole units of one sector's
/// nonces (at least 16 with an accelerator) in each buffer, and is never
/// less than one unit.
pub open spec fn mem_budget(
    request: int,
    segment_size: int,
    avail_mem: int,
    nps: int,
    gpu: bool,
    gpu_mem_needed: int,
) -> int {
    let asked = if request == 0 {
        segment_size
    } else if gpu {
        request - gpu_mem_needed
    } else {
        request
    };
    let capped = min_int(asked, segment_size + gpu_mem_needed);
    let free = avail_mem * 1024 * 3 / 4;
    let free_host = if gpu && free > gpu_mem_needed {
        free - gpu_mem_needed
    } else {
        free
    };
    let unit = mem_unit(nps, gpu);
    let whole = min_int(capped, free_host) / unit * unit;
    if whole < unit {
        unit
    } else {
        whole
    }
}

/// Bytes that all buffers together grow by: one sector's nonces (at least
/// 16 with an accelerator) in each buffer.
pub open spec fn mem_unit(nps: int, gpu: bool) -> int {
    NUM_BUFFERS * NONCE_SIZE * if gpu && nps < ACCELERATOR_UNIT {
        ACCELERATOR_UNIT as int
    } else {
        nps
    }
}

/// Whether a request leaves the host too little beside the accelerators'
/// need.
pub open spec fn starves_host(request: int, nps: int, gpu: bool, gpu_mem_needed: int) -> bool {
    gpu && request > 0 && request < gpu_mem_needed + nps * NONCE_SIZE
}

/// What `humanize_rs` reads `text` as: a number of bytes, or nothing where
/// it rejects the text.
pub uninterp spec fn parsed_bytes(text: Seq<char>) -> Option<u64>;

/// Whether `c` is a letter, as `char::is_alphabetic` tells.
pub uninterp spec fn alphabetic(c: char) -> bool;

/// Whether `c` is white space, as `char::is_whitespace` tells.
pub uninterp spec fn white_space(c: char) -> bool;

/// Calls `char::is_alphabetic`, which tells whether the character has the
/// Unicode property `Alphabetic`.
#[verifier::external_body]
fn is_alphabetic(c: char) -> (yes: bool)
    ensures
        yes == alphabetic(c),
{
    c.is_alphabetic()
}

/// Calls `char::is_whitespace`, which tells whether the character has the
/// Unicode property `White_Space`.
#[verifier::external_body]
pub(crate) fn is_whitespace(c: char) -> (yes: bool)
    ensures
        yes == white_space(c),
{
    c.is_whitespace()
}

/// Index of the first character of `text` at or behind `from` that is no
/// white space, or the length of `text` where there is none: where the
/// number of a memory request starts.
pub open spec fn number_start(text: Seq<char>, from: int) -> int
    decreases text.len() - from,
{
    if from >= text.len() {
        text.len() as int
    } else if !white_space(text[from]) {
        from
    } else {
        number_start(text, from + 1)
    }
}

/// Index of the first character of `text` at or behind `from` that is a
/// letter or white space, or the length of `text` where there is none: where
/// the number of a memory request ends and its unit starts.
pub open spec fn number_end(text: Seq<char>, from: int) -> int
    decreases text.len() - from,
{
    if from >= text.len() {
        text.len() as int
    } else if alphabetic(text[from]) || white_space(text[from]) {
        from
    } else {
        number_end(text, from + 1)
    }
}

/// Whether the number of the memory request `text` is written in ASCII:
/// every character behind the leading white space and before the first
/// letter or white space is one byte long.
pub open spec fn splits_cleanly(text: Seq<char>) -> bool {
    forall|i: int|
        number_start(text, 0) <= i < number_end(text, number_start(text, 0)) ==> (
        #[trigger] text[i]) as u32 <= 0x7f
}

/// A number ends at or behind its start, and within the text.
pub proof fn lemma_number_end_bounds(text: Seq<char>, from: int)
    requires
        0 <= from <= text.len(),
    ensures
        from <= number_end(text, from) <= text.len(),
    decreases text.len() - from,
{
    if from < text.len() && !(alphabetic(text[from]) || white_space(text[from])) {
        lemma_number_end_bounds(text, from + 1);
    }
}

/// Tests whether the number of the memory request `text` is written in ASCII.
fn number_is_ascii(text: &str) -> (yes: bool)
    ensures
        yes == splits_cleanly(text@),
{
    let len: usize = text.unicode_len();
    let mut i: usize = 0;
    while i < len && is_whitespace(text.get_char(i))
        invariant
            i <= len,
            len == text@.len(),
            number_start(text@, 0) == number_start(text@, i as int),
        decreases len - i,
    {
        i += 1;
    }
    let start: usize = i;
    while i < len
        invariant
            start <= i <= len,
            len == text@.len(),
            start == number_start(text@, 0),
            number_end(text@, start as int) == number_end(text@, i as int),
            forall|t: int| start <= t < i ==> (#[trigger] text@[t]) as u32 <= 0x7f,
        decreases len - i,
    {
        let c: char = text.get_char(i);
        if is_alphabetic(c) || is_whitespace(c) {
            return true;
        }
        if c as u32 > 0x7f {
            proof {
                lemma_number_end_bounds(text@, i + 1);
            }
            return false;
        }
        i += 1;
    }
    true
}

/// Calls `humanize_rs::bytes::Bytes::<u64>::from_str` through `str::parse`
/// and gives the size in bytes, or `None` where the crate returns an error.
/// The crate trims the text, counts the characters before the first letter
/// or white space, and splits the text at that count taken for a byte
/// offset.  The two are the same where those characters are one byte long,
/// which the caller has to know; on other texts the split can fall inside a
/// character.
#[verifier::external_body]
fn parse_bytes(text: &str) -> (bytes: Option<u64>)
    requires
        splits_cleanly(text@),
    ensures
        bytes == parsed_bytes(text@),
{
    match text.parse::<humanize_rs::bytes::Bytes<u64>>() {
        Ok(b) => Some(b.size()),
        Err(_) => None,
    }
}

/// The memory budget that the text `mem` asks for: what it parses to, and
/// nothing where its number is not written in ASCII or it does not parse.
pub open spec fn requested_mem(mem: Seq<char>) -> Option<u64> {
    if splits_cleanly(mem) {
        parsed_bytes(mem)
    } else {
        None
    }
}

/// The memory for all buffers, given the request in bytes.
pub fn mem_to_use(
    request: u64,
    segment_size: u64,
    avail_mem: u64,
    nonces_per_sector: u64,
    gpu: bool,
    gpu_mem_needed: u64,
) -> (mem: Result<u64, RunError>)
    requires
        0 < nonces_per_sector,
        mem_unit(nonces_per_sector as int, gpu) <= u64::MAX,
    ensures
        starves_host(request as int, nonces_per_sector as int, gpu, gpu_mem_needed as int) ==> mem
            == Err::<u64, RunError>(RunError::InsufficientHostMemory),
        !starves_host(request as int, nonces_per_sector as int, gpu, gpu_mem_needed as int) ==> mem
            == Ok::<u64, RunError>(
            mem_budget(
                request as int,
                segment_size as int,
                avail_mem as int,
                nonces_per_sector as int,
                gpu,
                gpu_mem_needed as int,
            ) as u64,
        ),
        mem is Ok ==> mem->Ok_0 == mem_budget(
            request as int,
            segment_size as int,
            avail_mem as int,
            nonces_per_sector as int,
            gpu,
            gpu_mem_needed as int,
        ),
        mem is Ok ==> mem->Ok_0 >= mem_unit(nonces_per_sector as int, gpu),
        mem is Ok ==> mem->Ok_0 % (mem_unit(nonces_per_sector as int, gpu) as u64) == 0,
{
    let nps: u128 = nonces_per_sector as u128;
    let need: u128 = gpu_mem_needed as u128;
    assert(nps * 262144 <= 0xffff_ffff_ffff_ffff * 262144) by (nonlinear_arith)
        requires
            nps <= 0xffff_ffff_ffff_ffff,
    ;
    if gpu && request > 0 && (request as u128) < need + nps * 262144 {
        return Err(RunError::InsufficientHostMemory);
    }
    let asked: u128 = if request == 0 {
        segment_size as u128
    } else if gpu {
        request as u128 - need
    } else {
        request as u128
    };
    let cap: u128 = segment_size as u128 + need;
    let capped: u128 = if asked <= cap {
        asked
    } else {
        cap
    };
    let free: u128 = avail_mem as u128 * 1024 * 3 / 4;
    let free_host: u128 = if gpu && free > need {
        free - need
    } else {
        free
    };
    let unit_nonces: u128 = if gpu && nps < 16 {
        16
    } else {
        nps
    };
    let unit: u128 = 2 * 262144 * unit_nonces;
    assert(unit == mem_unit(nonces_per_sector as int, gpu));
    let least: u128 = if capped <= free_host {
        capped
    } else {
        free_host
    };
    proof {
        vstd::arithmetic::div_mod::lemma_fundamental_div_mod(least as int, unit as int);
        vstd::arithmetic::div_mod::lemma_mod_multiples_basic((least / unit) as int, unit as int);
        vstd::arithmetic::div_mod::lemma_mod_self_0(unit as int);
        assert(unit * (least / unit) == (least / unit) * unit) by (nonlinear_arith);
        assert(0 <= (least / unit) * unit <= least) by (nonlinear_arith)
            requires
                least == unit * (least / unit) + least % unit,
                0 <= least % unit,
                0 <= least,
                0 <= least / unit,
                unit * (least / unit) == (least / unit) * unit,
        ;
    }
    let whole: u128 = least / unit * unit;
    if whole < unit {
        Ok(unit as u64)
    } else {
        Ok(whole as u64)
    }
}

/// The memory for all buffers of `task`: reads the memory request of the
/// task and derives the budget from it.
pub fn calculate_mem_to_use(
    task: &HasherTask,
    avail_mem: u64,
    nonces_per_sector: u64,
    gpu: bool,
    gpu_mem_needed: u64,
) -> (mem: Result<u64, RunError>)
    requires
        0 < nonces_per_sector,
        mem_unit(nonces_per_sector as int, gpu) <= u64::MAX,
        task.nonces * NONCE_SIZE <= u64::MAX,
    ensures
        mem == mem_for(
            requested_mem(task.mem@),
            task.nonces * NONCE_SIZE,
            avail_mem as int,
            nonces_per_sector as int,
            gpu,
            gpu_mem_needed as int,
        ),
        mem is Ok ==> mem->Ok_0 >= mem_unit(nonces_per_sector as int, gpu),
        mem is Ok ==> mem->Ok_0 % (mem_unit(nonces_per_sector as int, gpu) as u64) == 0,
{
    let segment_size: u64 = task.nonces * NONCE_SIZE;
    if !number_is_ascii(task.mem.as_str()) {
        return Err(RunError::InvalidMemory);
    }
    match parse_bytes(task.mem.as_str()) {
        None => Err(RunError::InvalidMemory),
        Some(request) => mem_to_use(
            request,
            segment_size,
            avail_mem,
            nonces_per_sector,
            gpu,
            gpu_mem_needed,
        ),
    }
}

/// The memory for all buffers, or why there is none: a request that cannot
/// be read is invalid, one that starves the host is refused, and any other
/// gives the budget.
pub open spec fn mem_for(
    request: Option<u64>,
    segment_size: int,
    avail_mem: int,
    nps: int,
    gpu: bool,
    gpu_mem_needed: int,
) -> Result<u64, RunError> {
    match request {
        None => Err(RunError::InvalidMemory),
        Some(r) => if starves_host(r as int, nps, gpu, gpu_mem_needed) {
            Err(RunError::InsufficientHostMemory)
        } else {
            Ok(mem_budget(r as int, segment_size, avail_mem, nps, gpu, gpu_mem_needed) as u64)
        },
    }
}

/// The file of a run: how many nonces it holds, or that they do not fit.
pub open spec fn layout_of(
    requested: u64,
    start_nonce: u64,
    direct_io: bool,
    free_disk_space: u64,
    sector_size: u64,
) -> Result<Layout, RunError> {
    let nps = sector_nonces(direct_io, sector_size as int);
    let wanted = if requested == 0 {
        free_disk_space as int / (NONCE_SIZE as int)
    } else {
        requested as int
    };
    let nonces = run_nonces(requested as int, free_disk_space as int, nps);
    if nonces > MAX_NONCES || start_nonce + nonces > u64::MAX + 1 {
        Err(RunError::TooManyNonces)
    } else {
        Ok(
            Layout {
                nonces: nonces as u64,
                rounded: wanted % nps > 0,
                nonces_per_sector: nps as u64,
                segment_size: (nonces * NONCE_SIZE) as u64,
            },
        )
    }
}

impl Layout {
    /// What holds of every layout that `layout_of` gives.
    pub open spec fn wf(self) -> bool {
        &&& 0 < self.nonces_per_sector <= MAX_SECTOR_SIZE / SCOOP_SIZE
        &&& self.nonces <= MAX_NONCES
        &&& self.nonces % self.nonces_per_sector == 0
        &&& self.segment_size == self.nonces * NONCE_SIZE
    }
}

/// What a run does, or why it does not start.  `existing` is the plot file
/// as it is found, or any tail of it that holds its last eight bytes.
pub open spec fn plan_of(
    layout: Layout,
    mem: Seq<char>,
    gpu: bool,
    benchmark: bool,
    host: HostInfo,
    existing: Option<Seq<u8>>,
) -> Result<RunPlan, RunError> {
    if !host.path_exists {
        Err(RunError::PathNotFound)
    } else if host.free_disk_space < layout.segment_size && existing is None && !benchmark {
        Err(RunError::InsufficientDiskSpace)
    } else {
        match mem_for(
            requested_mem(mem),
            layout.segment_size as int,
            host.avail_mem as int,
            layout.nonces_per_sector as int,
            gpu,
            host.gpu_mem_needed as int,
        ) {
            Err(e) => Err(e),
            Ok(budget) => match existing {
                Some(file) => if has_marker(file) && recorded(file) <= layout.nonces {
                    Ok(
                        RunPlan {
                            layout,
                            mem: budget,
                            buffer_size: budget / NUM_BUFFERS,
                            progress: recorded(file) as u64,
                            create: false,
                        },
                    )
                } else {
                    Err(RunError::ResumeInfoMissing)
                },
                None => Ok(
                    RunPlan {
                        layout,
                        mem: budget,
                        buffer_size: budget / NUM_BUFFERS,
                        progress: 0,
                        create: !benchmark,
                    },
                ),
            },
        }
    }
}

/// A new plot file for `nonces` nonces: zeros, and a trailer that records no
/// progress.
pub open spec fn blank_file(nonces: int) -> Seq<u8> {
    with_trailer(Seq::new((nonces * NONCE_SIZE + TRAILER_SIZE) as nat, |q: int| 0u8), 0)
}

/// The plot file after a run that found it as `initial` with `progress`
/// nonces written: the nonces from `progress` on are laid into their slots,
/// and the trailer records all `nonces`.  A file that was complete stays as
/// it is.
pub open spec fn plotted(
    initial: Seq<u8>,
    numeric_id: u64,
    start_nonce: u64,
    nonces: int,
    progress: int,
) -> Seq<u8> {
    if progress >= nonces {
        initial
    } else {
        cache_with(
            with_trailer(initial, nonces as u32),
            nonces,
            progress,
            numeric_id,
            (start_nonce + progress) as u64,
            nonces - progress,
        )
    }
}

/// The trailer lies behind the last scoop, so nonces can be laid into the
/// file before or after the trailer is written.
pub proof fn lemma_trailer_commutes(
    file: Seq<u8>,
    nonces: int,
    first: int,
    id: u64,
    start: u64,
    count: int,
    progress: u32,
)
    requires
        0 < nonces,
        file.len() == nonces * NONCE_SIZE + TRAILER_SIZE,
    ensures
        with_trailer(cache_with(file, nonces, first, id, start, count), progress) == cache_with(
            with_trailer(file, progress),
            nonces,
            first,
            id,
            start,
            count,
        ),
{
    let left = with_trailer(cache_with(file, nonces, first, id, start, count), progress);
    let right = cache_with(with_trailer(file, progress), nonces, first, id, start, count);
    assert(left.len() == right.len());
    assert forall|q: int| 0 <= q < left.len() implies left[q] == right[q] by {
        if q >= nonces * NONCE_SIZE {
            lemma_behind_last_scoop(nonces, q);
        }
    }
    assert(left =~= right);
}

/// Positions from `nonces * NONCE_SIZE` on belong to no scoop.
pub proof fn lemma_behind_last_scoop(nonces: int, q: int)
    requires
        0 < nonces,
        q >= nonces * NONCE_SIZE,
    ensures
        scoop_of(q, nonces) >= 4096,
{
    let d = 64 * nonces;
    assert(d * 4096 == nonces * 262144) by (nonlinear_arith)
        requires
            d == 64 * nonces,
    ;
    vstd::arithmetic::div_mod::lemma_div_is_ordered(d * 4096, q, d);
    vstd::arithmetic::div_mod::lemma_div_multiples_vanish(4096, d);
}

/// The plot generator.
pub struct Hasher {}

impl Hasher {
    pub fn new() -> (hasher: Hasher) {
        Hasher {  }
    }

    /// Settles how many nonces the file of `task` holds, and writes that
    /// number into the task: a request of 0 becomes what the free disk space
    /// holds, and with direct I/O the number is rounded down to whole
    /// sectors.
    pub fn layout(&self, task: &mut HasherTask, free_disk_space: u64, sector_size: u64) -> (layout:
        Result<Layout, RunError>)
        requires
            old(task).direct_io ==> SCOOP_SIZE <= sector_size <= MAX_SECTOR_SIZE,
        ensures
            layout == layout_of(
                old(task).nonces,
                old(task).start_nonce,
                old(task).direct_io,
                free_disk_space,
                sector_size,
            ),
            layout is Ok ==> layout->Ok_0.wf() && final(task).start_nonce + layout->Ok_0.nonces
                <= u64::MAX + 1,
            *final(task) == (HasherTask {
                nonces: if layout is Ok {
                    layout->Ok_0.nonces
                } else {
                    old(task).nonces
                },
                ..*old(task)
            }),
    {
        let nps: u64 = if task.direct_io {
            sector_size / SCOOP_SIZE
        } else {
            1
        };
        let wanted: u64 = if task.nonces == 0 {
            free_disk_space / NONCE_SIZE
        } else {
            task.nonces
        };
        let rounded: bool = wanted % nps > 0;
        proof {
            vstd::arithmetic::div_mod::lemma_fundamental_div_mod(wanted as int, nps as int);
            vstd::arithmetic::div_mod::lemma_mod_multiples_basic((wanted / nps) as int, nps as int);
            assert(nps * (wanted / nps) == (wanted / nps) * nps) by (nonlinear_arith);
            assert(0 <= (wanted / nps) * nps <= wanted) by (nonlinear_arith)
                requires
                    wanted == nps * (wanted / nps) + wanted % nps,
                    0 <= wanted % nps,
                    0 <= wanted / nps,
                    nps * (wanted / nps) == (wanted / nps) * nps,
            ;
        }
        let nonces: u64 = wanted / nps * nps;
        if nonces > MAX_NONCES || nonces > 0 && task.start_nonce > u64::MAX - (nonces - 1) {
            return Err(RunError::TooManyNonces);
        }
        task.nonces = nonces;
        Ok(Layout { nonces, rounded, nonces_per_sector: nps, segment_size: nonces * NONCE_SIZE })
    }

    /// The name of the plot file of `task`.
    pub fn file_name(&self, task: &HasherTask) -> (name: String)
        ensures
            name@ == plot_name(task.numeric_id, task.start_nonce, task.nonces),
    {
        let mut name = String::new();
        push_decimal(&mut name, task.numeric_id);
        push_char(&mut name, '_');
        push_decimal(&mut name, task.start_nonce);
        push_char(&mut name, '_');
        push_decimal(&mut name, task.nonces);
        assert(name@ =~= plot_name(task.numeric_id, task.start_nonce, task.nonces));
        name
    }

    /// Decides what the run of `task` does.  `existing` is the plot file as
    /// it was found, or its last eight bytes, or nothing where there is no
    /// file.  The first of these that holds stops the run: the output
    /// directory is missing; the disk is too small for a new file; the memory
    /// request cannot be read, or starves the host; the file found does not
    /// end with a trailer, or records more than the run's nonces.
    pub fn plan(
        &self,
        task: &HasherTask,
        layout: &Layout,
        host: &HostInfo,
        existing: Option<&[u8]>,
    ) -> (plan: Result<RunPlan, RunError>)
        requires
            layout.wf(),
            task.nonces == layout.nonces,
        ensures
            plan == plan_of(
                *layout,
                task.mem@,
                task.gpus is Some,
                task.benchmark,
                *host,
                match existing {
                    Some(file) => Some(file@),
                    None => None,
                },
            ),
            plan is Ok ==> plan->Ok_0.progress <= layout.nonces && plan->Ok_0.layout == *layout
                && plan->Ok_0.buffer_size >= NONCE_SIZE * layout.nonces_per_sector,
    {
        if !host.path_exists {
            return Err(RunError::PathNotFound);
        }
        if host.free_disk_space < layout.segment_size && existing.is_none() && !task.benchmark {
            return Err(RunError::InsufficientDiskSpace);
        }
        let gpu: bool = task.gpus.is_some();
        let budget: u64 = match calculate_mem_to_use(
            task,
            host.avail_mem,
            layout.nonces_per_sector,
            gpu,
            host.gpu_mem_needed,
        ) {
            Err(e) => {
                return Err(e);
            },
            Ok(budget) => budget,
        };
        let progress: u64 = match existing {
            Some(file) => match read_resume_info(file) {
                Ok(progress) => progress,
                Err(_) => {
                    return Err(RunError::ResumeInfoMissing);
                },
            },
            None => 0,
        };
        if progress > layout.nonces {
            return Err(RunError::ResumeInfoMissing);
        }
        Ok(
            RunPlan {
                layout: *layout,
                mem: budget,
                buffer_size: budget / NUM_BUFFERS,
                progress,
                create: existing.is_none() && !task.benchmark,
            },
        )
    }
}

/// What a run in memory gives: the plot file afterwards, or why the run did
/// not start.  `existing` is the plot file as found, if there is one.  A
/// benchmark run hashes and leaves the file, or its absence, as it is.
pub open spec fn run_of(
    task: HasherTask,
    host: HostInfo,
    existing: Option<Seq<u8>>,
) -> Result<Option<Seq<u8>>, RunError> {
    match layout_of(
        task.nonces,
        task.start_nonce,
        task.direct_io,
        host.free_disk_space,
        host.sector_size,
    ) {
        Err(e) => Err(e),
        Ok(layout) => match plan_of(
            layout,
            task.mem@,
            task.gpus is Some,
            task.benchmark,
            host,
            existing,
        ) {
            Err(e) => Err(e),
            Ok(plan) => if existing is Some && existing->Some_0.len() != layout.segment_size
                + TRAILER_SIZE {
                Err(RunError::ResumeInfoMissing)
            } else if layout.segment_size + TRAILER_SIZE > usize::MAX || plan.buffer_size
                > usize::MAX {
                Err(RunError::TooLargeForMemory)
            } else if task.benchmark {
                Ok(existing)
            } else {
                Ok(
                    Some(
                        plotted(
                            match existing {
                                Some(file) => file,
                                None => blank_file(layout.nonces as int),
                            },
                            task.numeric_id,
                            task.start_nonce,
                            layout.nonces as int,
                            plan.progress as int,
                        ),
                    ),
                )
            },
        },
    }
}

/// Writing a trailer over a trailer leaves the later one.
pub proof fn lemma_trailer_twice(file: Seq<u8>, a: u32, b: u32)
    requires
        file.len() >= 8,
    ensures
        with_trailer(with_trailer(file, a), b) == with_trailer(file, b),
{
    assert(with_trailer(with_trailer(file, a), b) =~= with_trailer(file, b));
}

/// Hashes the nonces from `progress` on, buffer by buffer, and writes
/// nothing.
fn measure(
    numeric_id: u64,
    start_nonce: u64,
    nonces: u64,
    progress: u64,
    cpu_threads: u8,
    buffer_size: usize,
)
    requires
        progress <= nonces <= MAX_NONCES,
        start_nonce + nonces <= u64::MAX + 1,
        buffer_size >= NONCE_SIZE,
{
    let mut scheduler = Scheduler::new(
        numeric_id,
        start_nonce,
        nonces,
        cpu_threads,
        Vec::new(),
        progress,
    );
    let mut buffer = PageAlignedByteBuffer::new(buffer_size);
    while scheduler.wants_buffer(false)
        invariant
            scheduler@.wf(),
            !scheduler@.filling,
            scheduler@.nonces == nonces,
            buffer.wf(),
            buffer@.len() == buffer_size,
            buffer_size >= NONCE_SIZE,
        decreases nonces - scheduler@.nonces_hashed,
    {
        let cache = buffer.get_buffer();
        scheduler.fill(cache);
        let _ = scheduler.finish_fill(false);
    }
}

/// Hashes the nonces from `progress` on, buffer by buffer, and writes each
/// full buffer into the in-memory plot file `file`.
fn plot(
    numeric_id: u64,
    start_nonce: u64,
    nonces: u64,
    progress: u64,
    cpu_threads: u8,
    buffer_size: usize,
    file: &mut Vec<u8>,
)
    requires
        progress <= nonces <= MAX_NONCES,
        start_nonce + nonces <= u64::MAX + 1,
        buffer_size >= NONCE_SIZE,
        old(file)@.len() == nonces * NONCE_SIZE + TRAILER_SIZE,
    ensures
        final(file)@ == plotted(
            old(file)@,
            numeric_id,
            start_nonce,
            nonces as int,
            progress as int,
        ),
{
    if progress >= nonces {
        return ;
    }
    let mut scheduler = Scheduler::new(
        numeric_id,
        start_nonce,
        nonces,
        cpu_threads,
        Vec::new(),
        progress,
    );
    let mut writer = Writer::new(nonces, progress, false);
    let mut front = PageAlignedByteBuffer::new(buffer_size);
    let mut back = PageAlignedByteBuffer::new(buffer_size);
    let ghost initial = file@;
    let ghost mut mark: Option<u32> = None;
    let ghost first = (start_nonce + progress) as u64;
    assert(file@ =~= cache_with(initial, nonces as int, progress as int, numeric_id, first, 0));
    while scheduler.wants_buffer(false)
        invariant
            scheduler@.wf(),
            !scheduler@.filling,
            scheduler@.nonces == nonces,
            scheduler@.numeric_id == numeric_id,
            scheduler@.start_nonce == start_nonce,
            writer@.wf(),
            writer@.nonces == nonces,
            !writer@.benchmark,
            progress <= writer@.nonces_written == scheduler@.nonces_hashed,
            progress < nonces <= MAX_NONCES,
            start_nonce + nonces <= u64::MAX + 1,
            first == start_nonce + progress,
            front.wf(),
            back.wf(),
            front@.len() == buffer_size,
            back@.len() == buffer_size,
            buffer_size >= NONCE_SIZE,
            initial.len() == nonces * NONCE_SIZE + TRAILER_SIZE,
            file@.len() == initial.len(),
            scheduler@.nonces_hashed == nonces && progress < nonces ==> mark == Some(nonces as u32),
            file@ == cache_with(
                match mark {
                    Some(m) => with_trailer(initial, m),
                    None => initial,
                },
                nonces as int,
                progress as int,
                numeric_id,
                first,
                scheduler@.nonces_hashed - progress,
            ),
        decreases nonces - scheduler@.nonces_hashed,
    {
        let ghost base = match mark {
            Some(m) => with_trailer(initial, m),
            None => initial,
        };
        let ghost done = scheduler@.nonces_hashed;
        let ghost before = file@;
        let cache = front.get_buffer();
        let ghost blank = cache@;
        scheduler.fill(cache);
        let ghost count = scheduler@.nonces_to_hash;
        let ghost cap = capacity(blank.len());
        proof {
            vstd::arithmetic::div_mod::lemma_fundamental_div_mod(blank.len() as int, 262144);
            lemma_written_nonces(
                base,
                nonces as int,
                progress as int,
                done,
                count,
                cache@,
                blank,
                cap,
                numeric_id,
                start_nonce,
            );
        }
        writer.write_buffer(file.as_mut_slice(), cache);
        let handoff = scheduler.finish_fill(false);
        let written: u64 = match handoff {
            Handoff::Forward { nonces: n, last: _ } => n,
            Handoff::Abandon => 0,
        };
        let finished = writer.finish_buffer(written, false);
        match finished.marker {
            Some(m) => {
                proof {
                    lemma_trailer_commutes(
                        base,
                        nonces as int,
                        progress as int,
                        numeric_id,
                        first,
                        done + count - progress,
                        m as u32,
                    );
                    if mark is Some {
                        lemma_trailer_twice(initial, mark->Some_0, m as u32);
                    }
                    mark = Some(m as u32);
                }
                let _ = write_resume_info(file.as_mut_slice(), m);
            },
            None => {},
        }
        std::mem::swap(&mut front, &mut back);
    }
}

impl Hasher {
    /// Runs `task` in memory and on the calling thread: settles the layout,
    /// plans the run, then hashes buffer by buffer and writes each full
    /// buffer into the plot file, which is the one given or a new one.  The
    /// task's number of nonces becomes that of the file.
    pub fn run(&self, task: &mut HasherTask, host: &HostInfo, existing: Option<Vec<u8>>) -> (result:
        Result<Option<Vec<u8>>, RunError>)
        requires
            old(task).direct_io ==> SCOOP_SIZE <= host.sector_size <= MAX_SECTOR_SIZE,
        ensures
            *final(task) == (HasherTask {
                nonces: match layout_of(
                    old(task).nonces,
                    old(task).start_nonce,
                    old(task).direct_io,
                    host.free_disk_space,
                    host.sector_size,
                ) {
                    Ok(layout) => layout.nonces,
                    Err(_) => old(task).nonces,
                },
                ..*old(task)
            }),
            match result {
                Ok(Some(file)) => run_of(
                    *old(task),
                    *host,
                    match existing {
                        Some(found) => Some(found@),
                        None => None,
                    },
                ) == Ok::<Option<Seq<u8>>, RunError>(Some(file@)),
                Ok(None) => run_of(
                    *old(task),
                    *host,
                    match existing {
                        Some(found) => Some(found@),
                        None => None,
                    },
                ) == Ok::<Option<Seq<u8>>, RunError>(None),
                Err(e) => run_of(
                    *old(task),
                    *host,
                    match existing {
                        Some(found) => Some(found@),
                        None => None,
                    },
                ) == Err::<Option<Seq<u8>>, RunError>(e),
            },
    {
        let layout = match self.layout(task, host.free_disk_space, host.sector_size) {
            Err(e) => {
                return Err(e);
            },
            Ok(layout) => layout,
        };
        let planned = match &existing {
            Some(found) => self.plan(task, &layout, host, Some(found.as_slice())),
            None => self.plan(task, &layout, host, None),
        };
        let plan = match planned {
            Err(e) => {
                return Err(e);
            },
            Ok(plan) => plan,
        };
        match &existing {
            Some(found) => {
                if found.len() as u64 != layout.segment_size + TRAILER_SIZE {
                    return Err(RunError::ResumeInfoMissing);
                }
            },
            None => {},
        }
        if layout.segment_size > usize::MAX as u64 - TRAILER_SIZE || plan.buffer_size
            > usize::MAX as u64 {
            return Err(RunError::TooLargeForMemory);
        }
        if task.benchmark {
            measure(
                task.numeric_id,
                task.start_nonce,
                layout.nonces,
                plan.progress,
                task.cpu_threads,
                plan.buffer_size as usize,
            );
            return Ok(existing);
        }
        let mut file: Vec<u8> = match existing {
            Some(found) => found,
            None => {
                let mut created: Vec<u8> = vec![0u8; (layout.segment_size + TRAILER_SIZE) as usize];
                let _ = write_resume_info(created.as_mut_slice(), 0);
                assert(created@ =~= blank_file(layout.nonces as int));
                created
            },
        };
        plot(
            task.numeric_id,
            task.start_nonce,
            layout.nonces,
            plan.progress,
            task.cpu_threads,
            plan.buffer_size as usize,
            &mut file,
        );
        Ok(Some(file))
    }
}

} // verus!
