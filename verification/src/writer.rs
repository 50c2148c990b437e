//! The writer's side of the plot file: where each part of a full buffer goes,
//! and the resume trailer in the file's last eight bytes.
//!
//! The file is a scoop-major region of all the nonces of the run, followed
//! by the trailer.  A buffer is a scoop-major region of fewer nonces, so one
//! scoop stripe of the buffer is one contiguous piece of the file's stripe.
use crate::hasher::{MAX_NONCES, NONCE_SIZE};
use crate::poc_hashing::{cache_with, lemma_cell, scoop_of, slot_of};
use crate::scheduler::min_int;
use crate::shabal256::{le_word, word_byte};
use vstd::arithmetic::div_mod::{
    lemma_div_denominator,
    lemma_fundamental_div_mod,
    lemma_mod_bound,
    lemma_div_pos_is_pos,
};
use vstd::prelude::*;

verus! {

/// Nonces in one write: a mebibyte of one scoop stripe.
pub const TASK_SIZE: u64 = 16384;

/// Bytes in the resume trailer.
pub const TRAILER_SIZE: u64 = 8;

/// After this many nonces the progress is recorded in the trailer.
pub const RESUME_INTERVAL: u64 = 10000;

/// The number whose little-endian bytes are `array`.
pub fn as_u32_le(array: [u8; 4]) -> (x: u32)
    ensures
        x == le_word(array@[0], array@[1], array@[2], array@[3]),
{
    (array[0] as u32) | ((array[1] as u32) << 8) | ((array[2] as u32) << 16) | ((array[3] as u32)
        << 24)
}

/// The little-endian bytes of `x`.
pub fn as_u8_le(x: u32) -> (bytes: [u8; 4])
    ensures
        forall|k: int| 0 <= k < 4 ==> bytes@[k] == word_byte(x, k),
{
    let b1: u8 = (x & 0xff) as u8;
    let b2: u8 = ((x >> 8) & 0xff) as u8;
    let b3: u8 = ((x >> 16) & 0xff) as u8;
    let b4: u8 = ((x >> 24) & 0xff) as u8;
    [b1, b2, b3, b4]
}

/// Reading the bytes of a number gives the number back.
pub proof fn lemma_le_round_trip(x: u32)
    ensures
        le_word(word_byte(x, 0), word_byte(x, 1), word_byte(x, 2), word_byte(x, 3)) == x,
{
    assert((((x & 0xff) as u8) as u32) | ((((x >> 8) & 0xff) as u8) as u32) << 8 | ((((x >> 16)
        & 0xff) as u8) as u32) << 16 | ((((x >> 24) & 0xff) as u8) as u32) << 24 == x)
        by (bit_vector);
}

/// The bytes of the number read from four bytes are those four bytes.
pub proof fn lemma_le_bytes(b0: u8, b1: u8, b2: u8, b3: u8)
    ensures
        word_byte(le_word(b0, b1, b2, b3), 0) == b0,
        word_byte(le_word(b0, b1, b2, b3), 1) == b1,
        word_byte(le_word(b0, b1, b2, b3), 2) == b2,
        word_byte(le_word(b0, b1, b2, b3), 3) == b3,
{
    let w = (b0 as u32) | ((b1 as u32) << 8) | ((b2 as u32) << 16) | ((b3 as u32) << 24);
    assert((w & 0xff) as u8 == b0 && ((w >> 8) & 0xff) as u8 == b1 && ((w >> 16) & 0xff) as u8 == b2
        && ((w >> 24) & 0xff) as u8 == b3) by (bit_vector)
        requires
            w == (b0 as u32) | ((b1 as u32) << 8) | ((b2 as u32) << 16) | ((b3 as u32) << 24),
    ;
}

/// The eight bytes that record `progress` nonces as written: the number,
/// little-endian, and the end marker `AF FE AF FE`.
pub open spec fn trailer(progress: u32) -> Seq<u8> {
    seq![
        word_byte(progress, 0),
        word_byte(progress, 1),
        word_byte(progress, 2),
        word_byte(progress, 3),
        0xAFu8,
        0xFEu8,
        0xAFu8,
        0xFEu8,
    ]
}

/// The file `file` with its last eight bytes replaced by the trailer for
/// `progress`.
pub open spec fn with_trailer(file: Seq<u8>, progress: u32) -> Seq<u8> {
    file.subrange(0, file.len() - 8) + trailer(progress)
}

/// Whether `file` ends with the end marker.
pub open spec fn has_marker(file: Seq<u8>) -> bool {
    let n = file.len() as int;
    n >= 8 && file[n - 4] == 0xAF && file[n - 3] == 0xFE && file[n - 2] == 0xAF && file[n - 1]
        == 0xFE
}

/// The progress that the trailer of `file` records.
pub open spec fn recorded(file: Seq<u8>) -> u32 {
    let n = file.len() as int;
    le_word(file[n - 8], file[n - 7], file[n - 6], file[n - 5])
}

/// Why the resume information could not be read or written.
#[derive(Clone, Copy, Debug, PartialEq, Eq, Structural)]
pub enum ResumeError {
    /// The file is shorter than a trailer.
    TooShort,
    /// The file does not end with the end marker.
    MarkerNotFound,
    /// The count is more than a trailer records.
    CountTooLarge,
}

/// Reads the number of nonces already written from the last eight bytes of
/// `file`, which may be the whole file or any tail of it.
pub fn read_resume_info(file: &[u8]) -> (progress: Result<u64, ResumeError>)
    ensures
        file@.len() < 8 ==> progress == Err::<u64, ResumeError>(ResumeError::TooShort),
        file@.len() >= 8 && !has_marker(file@) ==> progress == Err::<u64, ResumeError>(
            ResumeError::MarkerNotFound,
        ),
        has_marker(file@) ==> progress == Ok::<u64, ResumeError>(recorded(file@) as u64),
{
    let n: usize = file.len();
    if n < 8 {
        return Err(ResumeError::TooShort);
    }
    let progress: [u8; 4] = [file[n - 8], file[n - 7], file[n - 6], file[n - 5]];
    if file[n - 4] == 0xAF && file[n - 3] == 0xFE && file[n - 2] == 0xAF && file[n - 1] == 0xFE {
        Ok(as_u32_le(progress) as u64)
    } else {
        Err(ResumeError::MarkerNotFound)
    }
}

/// Overwrites the last eight bytes of `file` with the trailer for
/// `nonces_written`.  A count that the four bytes of the trailer cannot hold
/// is refused, and so is a file shorter than a trailer; the file is then left
/// as it was.
pub fn write_resume_info(file: &mut [u8], nonces_written: u64) -> (done: Result<(), ResumeError>)
    ensures
        final(file)@.len() == old(file)@.len(),
        old(file)@.len() < 8 ==> done == Err::<(), ResumeError>(ResumeError::TooShort),
        old(file)@.len() >= 8 && nonces_written > MAX_NONCES ==> done == Err::<(), ResumeError>(
            ResumeError::CountTooLarge,
        ),
        old(file)@.len() >= 8 && nonces_written <= MAX_NONCES ==> done == Ok::<(), ResumeError>(()),
        done is Err ==> final(file)@ == old(file)@,
        done is Ok ==> final(file)@ == with_trailer(old(file)@, nonces_written as u32),
{
    let n: usize = file.len();
    if n < 8 {
        return Err(ResumeError::TooShort);
    }
    if nonces_written > MAX_NONCES {
        return Err(ResumeError::CountTooLarge);
    }
    let progress: [u8; 4] = as_u8_le(nonces_written as u32);
    file[n - 8] = progress[0];
    file[n - 7] = progress[1];
    file[n - 6] = progress[2];
    file[n - 5] = progress[3];
    file[n - 4] = 0xAF;
    file[n - 3] = 0xFE;
    file[n - 2] = 0xAF;
    file[n - 1] = 0xFE;
    assert(file@ =~= with_trailer(old(file)@, nonces_written as u32));
    Ok(())
}

/// What was written is read back: a count that a trailer holds, written into
/// a file that has room for it, is the count that reading the file gives.
pub proof fn lemma_written_is_read(file: Seq<u8>, nonces_written: u64)
    requires
        file.len() >= 8,
        nonces_written <= MAX_NONCES,
    ensures
        has_marker(with_trailer(file, nonces_written as u32)),
        recorded(with_trailer(file, nonces_written as u32)) == nonces_written,
{
    let after = with_trailer(file, nonces_written as u32);
    assert(after.subrange(after.len() - 8, after.len() as int) =~= trailer(nonces_written as u32));
    lemma_resume_round_trip(after, nonces_written as u32);
}

/// A file that ends with the trailer for `progress` reads back `progress`.
pub proof fn lemma_resume_round_trip(file: Seq<u8>, progress: u32)
    requires
        file.len() >= 8,
        file.subrange(file.len() - 8, file.len() as int) == trailer(progress),
    ensures
        has_marker(file),
        recorded(file) == progress,
{
    let n = file.len() as int;
    let t = file.subrange(n - 8, n);
    assert(forall|k: int| 0 <= k < 8 ==> file[n - 8 + k] == t[k]);
    assert(file[n - 8] == t[0] && file[n - 7] == t[1] && file[n - 6] == t[2] && file[n - 5] == t[3]
        && file[n - 4] == t[4] && file[n - 3] == t[5] && file[n - 2] == t[6] && file[n - 1]
        == t[7]);
    lemma_le_round_trip(progress);
}

/// One write: `len` bytes from position `local_addr` of the buffer go to
/// position `seek_addr` of the file.
#[derive(Clone, Copy, Debug, PartialEq, Eq, Structural)]
pub struct WriteOp {
    pub seek_addr: u64,
    pub local_addr: u64,
    pub len: u64,
}

/// What is due after a buffer was written.
#[derive(Clone, Copy, Debug, PartialEq, Eq, Structural)]
pub struct Finished {
    /// The progress to record in the trailer, if it is to be recorded now.
    pub marker: Option<u64>,
    /// Whether the file is to be flushed to the disk.
    pub sync: bool,
    /// Whether the last nonce of the run was written.
    pub done: bool,
}

/// The writer as a mathematical value.
pub struct WriterView {
    /// Nonces in the file.
    pub nonces: int,
    /// Nonces written so far.
    pub nonces_written: int,
    /// Whether the run only measures, and writes no file.
    pub benchmark: bool,
}

impl WriterView {
    /// The invariant of the writer: progress within the run, and a file
    /// whose size is a `u64`.
    pub open spec fn wf(self) -> bool {
        &&& 0 <= self.nonces_written <= self.nonces
        &&& self.nonces * NONCE_SIZE + TRAILER_SIZE <= u64::MAX
    }

    /// Nonces to write from a buffer of `buffer_size` bytes: as many as it
    /// holds, or as are left.
    pub open spec fn nonces_to_write(self, buffer_size: int) -> int {
        min_int(buffer_size / (NONCE_SIZE as int), self.nonces - self.nonces_written)
    }

    /// Writes per scoop for `count` nonces: whole chunks of `TASK_SIZE`
    /// nonces, and one more for a remainder.
    pub open spec fn chunks(count: int) -> int {
        count / (TASK_SIZE as int) + if count % (TASK_SIZE as int) > 0 {
            1int
        } else {
            0int
        }
    }

    /// Write `chunk` of scoop `scoop`, for a buffer of `buffer_nonces` nonces
    /// of which `count` are written.
    pub open spec fn op(self, scoop: int, buffer_nonces: int, count: int, chunk: int) -> WriteOp {
        WriteOp {
            seek_addr: (scoop * self.nonces * 64 + self.nonces_written * 64 + chunk * TASK_SIZE
                * 64) as u64,
            local_addr: (scoop * buffer_nonces * 64 + chunk * TASK_SIZE * 64) as u64,
            len: (if chunk < count / (TASK_SIZE as int) {
                TASK_SIZE * 64
            } else {
                (count % (TASK_SIZE as int)) * 64
            }) as u64,
        }
    }

    /// What is due once `count` more nonces are written: the progress is
    /// recorded at the end of the run and whenever the count of nonces
    /// written has passed a multiple of `RESUME_INTERVAL`, the file is
    /// flushed at the end of the run, and neither happens in benchmark mode
    /// or after a stop request.
    pub open spec fn finish(self, count: int, stop: bool) -> (Finished, WriterView) {
        let written = self.nonces_written + count;
        let done = written == self.nonces;
        let quiet = self.benchmark || stop;
        (
            Finished {
                marker: if !quiet && (done || written / (RESUME_INTERVAL as int)
                    > self.nonces_written / (RESUME_INTERVAL as int)) {
                    Some(written as u64)
                } else {
                    None
                },
                sync: !quiet && done,
                done,
            },
            WriterView { nonces_written: written, ..self },
        )
    }
}

/// The file `old`, a scoop-major region of `total` nonces, after the scoops
/// below `scoops` of the nonces in the first `count` slots of the buffer `bs`
/// (of `cap` nonces), and of scoop `scoops` those in the first `slots` slots,
/// were copied to the slots from `first` on.
pub open spec fn laid(
    old: Seq<u8>,
    total: int,
    first: int,
    count: int,
    bs: Seq<u8>,
    cap: int,
    scoops: int,
    slots: int,
) -> Seq<u8> {
    Seq::new(
        old.len(),
        |q: int|
            {
                let s = scoop_of(q, total);
                let k = slot_of(q, total);
                if first <= k < first + count && s < 4096 && (s < scoops || (s == scoops && k
                    < first + slots)) {
                    bs[s * cap * 64 + (k - first) * 64 + q % 64]
                } else {
                    old[q]
                }
            },
    )
}

/// The file `old` after the first `count` nonces of the buffer `bs` were
/// copied to the slots from `first` on.
pub open spec fn written(
    old: Seq<u8>,
    total: int,
    first: int,
    count: int,
    bs: Seq<u8>,
    cap: int,
) -> Seq<u8> {
    laid(old, total, first, count, bs, cap, 4096, 0)
}

/// In a scoop-major region of `cap` nonces, the positions of scoop `s` in
/// the slots from `lo` up to `hi` are one contiguous range.
pub proof fn lemma_run(cap: int, s: int, lo: int, hi: int, q: int)
    requires
        cap > 0,
        0 <= s,
        0 <= lo <= hi <= cap,
        0 <= q,
    ensures
        (s * cap * 64 + lo * 64 <= q < s * cap * 64 + hi * 64) <==> (scoop_of(q, cap) == s && lo
            <= slot_of(q, cap) < hi),
        (s * cap * 64 + lo * 64 <= q < s * cap * 64 + hi * 64) ==> q - (s * cap * 64 + lo * 64)
            == (slot_of(q, cap) - lo) * 64 + q % 64,
{
    let s1 = scoop_of(q, cap);
    let k1 = slot_of(q, cap);
    lemma_div_denominator(q, 64, cap);
    lemma_fundamental_div_mod(q, 64);
    lemma_mod_bound(q / 64, cap);
    assert(0 <= q / 64);
    assert(0 <= s1) by {
        lemma_div_pos_is_pos(q / 64, cap);
    }
    lemma_cell(cap, s1, k1, q);
    assert(s1 * cap * 64 + k1 * 64 <= q < s1 * cap * 64 + k1 * 64 + 64);
    if s * cap * 64 + lo * 64 <= q < s * cap * 64 + hi * 64 {
        if s1 < s {
            assert(s1 * cap * 64 + cap * 64 <= s * cap * 64) by (nonlinear_arith)
                requires
                    s1 + 1 <= s,
                    cap > 0,
            ;
        }
        if s1 > s {
            assert(s * cap * 64 + cap * 64 <= s1 * cap * 64) by (nonlinear_arith)
                requires
                    s + 1 <= s1,
                    cap > 0,
            ;
        }
        assert(s1 == s);
    }
}

fn min_u64(a: u64, b: u64) -> (m: u64)
    ensures
        m == min_int(a as int, b as int),
{
    if a <= b {
        a
    } else {
        b
    }
}

/// Copies `len` bytes from `src[from..]` to `dst[at..]`.
fn copy_bytes(dst: &mut [u8], at: usize, src: &[u8], from: usize, len: usize)
    requires
        at + len <= old(dst)@.len(),
        from + len <= src@.len(),
    ensures
        final(dst)@.len() == old(dst)@.len(),
        forall|p: int|
            0 <= p < old(dst)@.len() ==> final(dst)@[p] == if at <= p < at + len {
                src@[from + p - at]
            } else {
                old(dst)@[p]
            },
{
    let dst_len: usize = dst.len();
    let src_len: usize = src.len();
    let mut k: usize = 0;
    while k < len
        invariant
            k <= len,
            at + len <= dst_len,
            from + len <= src_len,
            dst_len == dst@.len(),
            src_len == src@.len(),
            dst@.len() == old(dst)@.len(),
            forall|p: int|
                0 <= p < dst@.len() ==> dst@[p] == if at <= p < at + k {
                    src@[from + p - at]
                } else {
                    old(dst)@[p]
                },
        decreases len - k,
    {
        dst[at + k] = src[from + k];
        k += 1;
    }
}

/// The writer of one run.
pub struct Writer {
    nonces: u64,
    nonces_written: u64,
    benchmark: bool,
}

impl View for Writer {
    type V = WriterView;

    closed spec fn view(&self) -> WriterView {
        WriterView {
            nonces: self.nonces as int,
            nonces_written: self.nonces_written as int,
            benchmark: self.benchmark,
        }
    }
}

impl Writer {
    /// A writer for a file of `nonces` nonces of which `nonces_written` are
    /// written already.
    pub fn new(nonces: u64, nonces_written: u64, benchmark: bool) -> (writer: Writer)
        requires
            nonces_written <= nonces,
            nonces * NONCE_SIZE + TRAILER_SIZE <= u64::MAX,
        ensures
            writer@.wf(),
            writer@ == (WriterView {
                nonces: nonces as int,
                nonces_written: nonces_written as int,
                benchmark,
            }),
    {
        Writer { nonces, nonces_written, benchmark }
    }

    /// Nonces written so far.
    pub fn nonces_written(&self) -> (n: u64)
        ensures
            n == self@.nonces_written,
    {
        self.nonces_written
    }

    /// Nonces to write from a buffer of `buffer_size` bytes.
    pub fn nonces_to_write(&self, buffer_size: u64) -> (count: u64)
        requires
            self@.wf(),
        ensures
            count == self@.nonces_to_write(buffer_size as int),
    {
        min_u64(buffer_size / NONCE_SIZE, self.nonces - self.nonces_written)
    }

    /// Writes per scoop for `count` nonces.
    pub fn chunks(count: u64) -> (n: u64)
        ensures
            n == WriterView::chunks(count as int),
    {
        if count % TASK_SIZE > 0 {
            count / TASK_SIZE + 1
        } else {
            count / TASK_SIZE
        }
    }

    /// Write `chunk` of scoop `scoop`: where in the file it goes, where in
    /// the buffer it comes from, and how long it is.  A writer in benchmark
    /// mode has no writes.
    pub fn op(&self, scoop: u64, buffer_nonces: u64, count: u64, chunk: u64) -> (op: WriteOp)
        requires
            self@.wf(),
            !self@.benchmark,
            scoop < 4096,
            count <= buffer_nonces,
            buffer_nonces * NONCE_SIZE <= u64::MAX,
            count <= self@.nonces - self@.nonces_written,
            chunk < WriterView::chunks(count as int),
        ensures
            op == self@.op(scoop as int, buffer_nonces as int, count as int, chunk as int),
            op.seek_addr == scoop * self@.nonces * 64 + self@.nonces_written * 64 + chunk
                * TASK_SIZE * 64,
            op.local_addr == scoop * buffer_nonces * 64 + chunk * TASK_SIZE * 64,
            chunk * TASK_SIZE < count,
            op.seek_addr + op.len <= (scoop + 1) * self@.nonces * 64,
            op.local_addr + op.len <= scoop * buffer_nonces * 64 + count * 64,
            op.len == 64 * (min_int(count as int, (chunk + 1) * TASK_SIZE) - chunk * TASK_SIZE),
    {
        let ghost total = self.nonces as int;
        let ghost done = self.nonces_written as int;
        let ghost cap = buffer_nonces as int;
        let ghost s = scoop as int;
        let ghost c = chunk as int;
        let ghost n = count as int;
        proof {
            lemma_fundamental_div_mod(n, 16384);
            assert(c * 16384 + (if c < n / 16384 {
                16384
            } else {
                n % 16384
            }) <= n) by (nonlinear_arith)
                requires
                    0 <= c,
                    n == 16384 * (n / 16384) + n % 16384,
                    0 <= n % 16384 < 16384,
                    c < n / 16384 + if n % 16384 > 0 {
                        1int
                    } else {
                        0int
                    },
            ;
            assert(s * total * 64 + total * 64 == (s + 1) * total * 64) by (nonlinear_arith);
            assert(0 <= s * total * 64 && (s + 1) * total * 64 <= 4096 * total * 64)
                by (nonlinear_arith)
                requires
                    0 <= s < 4096,
                    0 <= total,
            ;
            assert(0 <= s * cap * 64 && s * cap * 64 + cap * 64 <= 4096 * cap * 64)
                by (nonlinear_arith)
                requires
                    0 <= s < 4096,
                    0 <= cap,
            ;
            assert(0 <= c * 16384 * 64 == 64 * (c * 16384)) by (nonlinear_arith)
                requires
                    0 <= c,
            ;
        }
        let len: u64 = if chunk < count / TASK_SIZE {
            TASK_SIZE * 64
        } else {
            (count % TASK_SIZE) * 64
        };
        WriteOp {
            seek_addr: scoop * self.nonces * 64 + self.nonces_written * 64 + chunk * TASK_SIZE * 64,
            local_addr: scoop * buffer_nonces * 64 + chunk * TASK_SIZE * 64,
            len,
        }
    }

    /// Copies the nonces of the full buffer `bs` into their place in the
    /// in-memory file `file`: for each scoop, the buffer's stripe goes behind
    /// what was written of the file's stripe.  The trailer is not touched.
    /// A writer in benchmark mode writes nothing, and is not to be asked.
    pub fn write_buffer(&self, file: &mut [u8], bs: &[u8])
        requires
            self@.wf(),
            !self@.benchmark,
            old(file)@.len() >= self@.nonces * NONCE_SIZE,
        ensures
            final(file)@ == written(
                old(file)@,
                self@.nonces,
                self@.nonces_written,
                self@.nonces_to_write(bs@.len() as int),
                bs@,
                bs@.len() as int / (NONCE_SIZE as int),
            ),
    {
        let ghost before = file@;
        let ghost total = self.nonces as int;
        let ghost first = self.nonces_written as int;
        let file_len: usize = file.len();
        let buffer_nonces: u64 = (bs.len() / 262144) as u64;
        let ghost cap = buffer_nonces as int;
        let count: u64 = min_u64(buffer_nonces, self.nonces - self.nonces_written);
        let ghost n = count as int;
        let chunks: u64 = Writer::chunks(count);
        proof {
            lemma_fundamental_div_mod(bs@.len() as int, 262144);
        }
        assert(file@ =~= laid(before, total, first, n, bs@, cap, 0, 0));
        let mut scoop: u64 = 0;
        while scoop < 4096
            invariant
                scoop <= 4096,
                self@.wf(),
                !self@.benchmark,
                total == self@.nonces,
                first == self@.nonces_written,
                cap == buffer_nonces,
                n == count,
                n <= cap,
                n <= total - first,
                cap * 262144 <= bs@.len() <= usize::MAX,
                chunks == WriterView::chunks(n),
                file_len == file@.len(),
                file@.len() == before.len(),
                before.len() >= total * 262144,
                file@ == laid(before, total, first, n, bs@, cap, scoop as int, 0),
            decreases 4096 - scoop,
        {
            let mut chunk: u64 = 0;
            while chunk < chunks
                invariant
                    scoop < 4096,
                    chunk <= chunks,
                    self@.wf(),
                !self@.benchmark,
                    total == self@.nonces,
                    first == self@.nonces_written,
                    cap == buffer_nonces,
                    n == count,
                    n <= cap,
                    n <= total - first,
                    cap * 262144 <= bs@.len() <= usize::MAX,
                    chunks == WriterView::chunks(n),
                    file_len == file@.len(),
                    file@.len() == before.len(),
                    before.len() >= total * 262144,
                    file@ == laid(
                        before,
                        total,
                        first,
                        n,
                        bs@,
                        cap,
                        scoop as int,
                        min_int(n, chunk * TASK_SIZE),
                    ),
                decreases chunks - chunk,
            {
                let op = self.op(scoop, buffer_nonces, count, chunk);
                let ghost lo = chunk * TASK_SIZE;
                let ghost hi = min_int(n, (chunk + 1) * TASK_SIZE);
                let ghost mid = file@;
                proof {
                    assert((scoop + 1) * total * 64 <= 4096 * total * 64) by (nonlinear_arith)
                        requires
                            scoop < 4096,
                            0 <= total,
                    ;
                    assert(scoop * cap * 64 + cap * 64 <= 4096 * cap * 64) by (nonlinear_arith)
                        requires
                            scoop < 4096,
                            0 <= cap,
                    ;
                }
                copy_bytes(
                    file,
                    op.seek_addr as usize,
                    bs,
                    op.local_addr as usize,
                    op.len as usize,
                );
                proof {
                    let after = laid(before, total, first, n, bs@, cap, scoop as int, hi);
                    assert forall|q: int| 0 <= q < file@.len() implies file@[q] == after[q] by {
                        if total > 0 {
                            lemma_run(total, scoop as int, first + lo, first + hi, q);
                        }
                    }
                    assert(file@ =~= after);
                    assert(hi == min_int(n, (chunk + 1) * TASK_SIZE));
                }
                chunk += 1;
            }
            proof {
                lemma_fundamental_div_mod(n, 16384);
                assert(min_int(n, chunks * TASK_SIZE) == n);
                assert(file@ =~= laid(before, total, first, n, bs@, cap, scoop + 1, 0));
            }
            scoop += 1;
        }
    }

    /// Counts `count` nonces as written and says what is due.  `stop` is
    /// the stop signal as read after the buffer was written.
    pub fn finish_buffer(&mut self, count: u64, stop: bool) -> (finished: Finished)
        requires
            old(self)@.wf(),
            count <= old(self)@.nonces - old(self)@.nonces_written,
        ensures
            (finished, final(self)@) == old(self)@.finish(count as int, stop),
            final(self)@.wf(),
    {
        let before: u64 = self.nonces_written;
        self.nonces_written = self.nonces_written + count;
        let done: bool = self.nonces_written == self.nonces;
        let quiet: bool = self.benchmark || stop;
        let due: bool = !quiet && (done || self.nonces_written / RESUME_INTERVAL > before
            / RESUME_INTERVAL);
        Finished {
            marker: if due {
                Some(self.nonces_written)
            } else {
                None
            },
            sync: !quiet && done,
            done,
        }
    }
}

/// After a stop request, and in benchmark mode, nothing more is due for the
/// file: no progress is recorded and nothing is flushed.
pub proof fn lemma_stop_is_quiet(w: WriterView, count: int, stop: bool)
    requires
        stop || w.benchmark,
    ensures
        w.finish(count, stop).0.marker is None,
        !w.finish(count, stop).0.sync,
{
}

/// The trailer keeps up with the file: where the progress recorded lies in
/// the same interval as what is written, it does so again after the next
/// buffer, so what is written and not recorded is always less than
/// `RESUME_INTERVAL` nonces, and what is recorded is never more than what is
/// written.
pub proof fn lemma_record_keeps_up(w: WriterView, last: int, count: int)
    requires
        w.wf(),
        !w.benchmark,
        0 <= count <= w.nonces - w.nonces_written,
        0 <= last <= w.nonces_written,
        last / (RESUME_INTERVAL as int) == w.nonces_written / (RESUME_INTERVAL as int),
    ensures
        ({
            let (due, after) = w.finish(count, false);
            let now = match due.marker {
                Some(progress) => progress as int,
                None => last,
            };
            &&& now <= after.nonces_written
            &&& now / (RESUME_INTERVAL as int) == after.nonces_written / (RESUME_INTERVAL as int)
            &&& after.nonces_written - now < RESUME_INTERVAL
        }),
{
    let (due, after) = w.finish(count, false);
    let now = match due.marker {
        Some(progress) => progress as int,
        None => last,
    };
    lemma_fundamental_div_mod(now, 10000);
    lemma_fundamental_div_mod(after.nonces_written, 10000);
    lemma_fundamental_div_mod(w.nonces_written, 10000);
    if due.marker is None {
        vstd::arithmetic::div_mod::lemma_div_is_ordered(
            w.nonces_written,
            after.nonces_written,
            10000,
        );
    }
}

/// With direct I/O every write is whole sectors at a sector boundary, and so
/// is every scoop stripe of the file.  `sector` is the sector size, a
/// multiple of the scoop size that divides the bytes of a full write; the
/// nonces of the file, those written so far and those of this buffer are all
/// whole sectors' worth.
pub proof fn lemma_sector_aligned(
    w: WriterView,
    sector: int,
    scoop: int,
    buffer_nonces: int,
    count: int,
    chunk: int,
)
    requires
        w.wf(),
        sector > 0,
        sector % 64 == 0,
        w.nonces % (sector / 64) == 0,
        w.nonces_written % (sector / 64) == 0,
        count % (sector / 64) == 0,
        (TASK_SIZE as int) % (sector / 64) == 0,
        0 <= scoop < 4096,
        0 <= count <= w.nonces - w.nonces_written,
        0 <= chunk < WriterView::chunks(count),
    ensures
        (w.nonces * 64) % sector == 0,
        w.op(scoop, buffer_nonces, count, chunk).seek_addr as int % sector == 0,
        w.op(scoop, buffer_nonces, count, chunk).len as int % sector == 0,
{
    let nps = sector / 64;
    let total = w.nonces;
    let done = w.nonces_written;
    lemma_fundamental_div_mod(sector, 64);
    lemma_fundamental_div_mod(total, nps);
    lemma_fundamental_div_mod(done, nps);
    lemma_fundamental_div_mod(count, nps);
    lemma_fundamental_div_mod(16384int, nps);
    lemma_fundamental_div_mod(count, 16384int);
    let a = total / nps;
    let b = done / nps;
    let c = count / nps;
    let t = 16384int / nps;
    let full = count / 16384int;
    let rest = count % 16384int;
    assert(total * 64 == a * sector) by (nonlinear_arith)
        requires
            total == nps * a,
            sector == 64 * nps,
    ;
    assert(done * 64 == b * sector) by (nonlinear_arith)
        requires
            done == nps * b,
            sector == 64 * nps,
    ;
    assert(16384 * 64 == t * sector) by (nonlinear_arith)
        requires
            16384 == nps * t,
            sector == 64 * nps,
    ;
    assert(rest * 64 == (c - t * full) * sector) by (nonlinear_arith)
        requires
            count == nps * c,
            16384 == nps * t,
            count == 16384 * full + rest,
            sector == 64 * nps,
    ;
    let seek = scoop * total * 64 + done * 64 + chunk * 16384 * 64;
    assert(seek == (scoop * a + b + chunk * t) * sector) by (nonlinear_arith)
        requires
            seek == scoop * total * 64 + done * 64 + chunk * 16384 * 64,
            total * 64 == a * sector,
            done * 64 == b * sector,
            16384 * 64 == t * sector,
    ;
    vstd::arithmetic::div_mod::lemma_mod_multiples_basic(a, sector);
    vstd::arithmetic::div_mod::lemma_mod_multiples_basic(scoop * a + b + chunk * t, sector);
    vstd::arithmetic::div_mod::lemma_mod_multiples_basic(t, sector);
    vstd::arithmetic::div_mod::lemma_mod_multiples_basic(c - t * full, sector);
    assert(0 <= chunk * 16384 < count) by (nonlinear_arith)
        requires
            0 <= chunk,
            count == 16384 * full + rest,
            0 <= rest < 16384,
            chunk < full + if rest > 0 {
                1int
            } else {
                0int
            },
    ;
    assert(0 <= seek <= 4096 * total * 64) by (nonlinear_arith)
        requires
            seek == scoop * total * 64 + done * 64 + chunk * 16384 * 64,
            0 <= scoop < 4096,
            0 <= done,
            0 <= chunk * 16384 < count,
            count <= total - done,
    ;
}

/// Where the file, what is written of it and a buffer each hold whole
/// sectors' worth of nonces, so does what is written from the buffer, and the
/// progress after it.
pub proof fn lemma_whole_sectors(w: WriterView, nps: int, buffer_size: int)
    requires
        w.wf(),
        nps > 0,
        0 <= buffer_size,
        w.nonces % nps == 0,
        w.nonces_written % nps == 0,
        (buffer_size / (NONCE_SIZE as int)) % nps == 0,
    ensures
        w.nonces_to_write(buffer_size) % nps == 0,
        (w.nonces_written + w.nonces_to_write(buffer_size)) % nps == 0,
{
    let left = w.nonces - w.nonces_written;
    lemma_fundamental_div_mod(w.nonces, nps);
    lemma_fundamental_div_mod(w.nonces_written, nps);
    let a = w.nonces / nps;
    let b = w.nonces_written / nps;
    assert(left == (a - b) * nps) by (nonlinear_arith)
        requires
            left == nps * a - nps * b,
    ;
    vstd::arithmetic::div_mod::lemma_mod_multiples_basic(a - b, nps);
    let count = w.nonces_to_write(buffer_size);
    lemma_fundamental_div_mod(count, nps);
    let c = count / nps;
    assert(w.nonces_written + count == (b + c) * nps) by (nonlinear_arith)
        requires
            w.nonces_written == nps * b,
            count == nps * c,
    ;
    vstd::arithmetic::div_mod::lemma_mod_multiples_basic(b + c, nps);
}

/// A buffer that holds the nonces `start + first, ..` of account `id` in its
/// first slots puts the same nonces into the slots from `first` on of the
/// file: slot `k` of the file holds nonce `start + k`.  The file held the
/// nonces of the slots from `lo` up to `first` before, and holds those up to
/// `first + count` afterwards.
pub proof fn lemma_written_nonces(
    old: Seq<u8>,
    total: int,
    lo: int,
    first: int,
    count: int,
    bs: Seq<u8>,
    blank: Seq<u8>,
    cap: int,
    id: u64,
    start: u64,
)
    requires
        0 <= lo <= first,
        0 <= count <= cap,
        first + count <= total,
        start + total <= u64::MAX + 1,
        bs.len() >= cap * NONCE_SIZE,
        bs == cache_with(blank, cap, 0, id, (start + first) as u64, count),
    ensures
        written(
            cache_with(old, total, lo, id, (start + lo) as u64, first - lo),
            total,
            first,
            count,
            bs,
            cap,
        ) == cache_with(old, total, lo, id, (start + lo) as u64, first + count - lo),
{
    let base = cache_with(old, total, lo, id, (start + lo) as u64, first - lo);
    let left = written(base, total, first, count, bs, cap);
    let right = cache_with(old, total, lo, id, (start + lo) as u64, first + count - lo);
    assert forall|q: int| 0 <= q < old.len() implies left[q] == right[q] by {
        let s = scoop_of(q, total);
        let k = slot_of(q, total);
        if first <= k < first + count && s < 4096 {
            lemma_div_denominator(q, 64, total);
            lemma_fundamental_div_mod(q, 64);
            assert(0 <= s) by {
                lemma_div_pos_is_pos(q, 64 * total);
            }
            let p = s * cap * 64 + (k - first) * 64 + q % 64;
            assert(s * cap * 64 >= 0 && s * cap * 64 + cap * 64 <= 4096 * cap * 64)
                by (nonlinear_arith)
                requires
                    0 <= s < 4096,
                    0 <= cap,
            ;
            lemma_cell(cap, s, k - first, p);
            assert(start + first + (k - first) == start + lo + (k - lo));
        }
    }
    assert(left =~= right);
}

} // verus!
