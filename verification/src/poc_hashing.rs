//! The nonce kernel: 256 KiB of scoop data per `(account id, nonce index)`,
//! written into a scoop-major cache.
use crate::shabal256::{le_word, shabal256, shabal256_fast};
use vstd::arithmetic::div_mod::{
    lemma_div_denominator,
    lemma_fundamental_div_mod,
    lemma_fundamental_div_mod_converse,
};
use vstd::prelude::*;
use vstd::slice::slice_subrange;

verus! {

/// Bytes of one hash value.
pub const HASH_SIZE: usize = 32;

/// Longest message, in bytes, that the second pass hashes.
pub const HASH_CAP: usize = 4096;

/// Scoops in one nonce.
pub const NUM_SCOOPS: usize = 4096;

/// Bytes in one scoop.
pub const SCOOP_SIZE: usize = 64;

/// Bytes in one nonce.
pub const NONCE_SIZE: usize = 262144;

/// Words in one message block.
pub const MESSAGE_SIZE: usize = 16;

/// The word read little-endian from the first four bytes of the big-endian
/// form of `x`.
pub open spec fn be_word_hi(x: u64) -> u32 {
    le_word(
        ((x >> 56) & 0xff) as u8,
        ((x >> 48) & 0xff) as u8,
        ((x >> 40) & 0xff) as u8,
        ((x >> 32) & 0xff) as u8,
    )
}

/// The word read little-endian from the last four bytes of the big-endian
/// form of `x`.
pub open spec fn be_word_lo(x: u64) -> u32 {
    le_word(
        ((x >> 24) & 0xff) as u8,
        ((x >> 16) & 0xff) as u8,
        ((x >> 8) & 0xff) as u8,
        (x & 0xff) as u8,
    )
}

/// Final block of a message that ends, on a block boundary, with the account
/// id and the nonce index.
pub open spec fn seed_template(id: u64, nonce: u64) -> Seq<u32> {
    Seq::new(
        16,
        |i: int|
            if i == 0 {
                be_word_hi(id)
            } else if i == 1 {
                be_word_lo(id)
            } else if i == 2 {
                be_word_hi(nonce)
            } else if i == 3 {
                be_word_lo(nonce)
            } else if i == 4 {
                0x80u32
            } else {
                0u32
            },
    )
}

/// Final block of a message that ends, half a block past a boundary, with
/// the 32 bytes `last`, the account id and the nonce index.
pub open spec fn half_template(id: u64, nonce: u64, last: Seq<u8>) -> Seq<u32> {
    Seq::new(
        16,
        |i: int|
            if i < 8 {
                le_word(last[4 * i], last[4 * i + 1], last[4 * i + 2], last[4 * i + 3])
            } else if i == 8 {
                be_word_hi(id)
            } else if i == 9 {
                be_word_lo(id)
            } else if i == 10 {
                be_word_hi(nonce)
            } else if i == 11 {
                be_word_lo(nonce)
            } else if i == 12 {
                0x80u32
            } else {
                0u32
            },
    )
}

/// Final block of a message that ends on a block boundary with nothing
/// appended.
pub open spec fn plain_template() -> Seq<u32> {
    Seq::new(
        16,
        |i: int|
            if i == 0 {
                0x80u32
            } else {
                0u32
            },
    )
}

/// The hash that precedes `rest` in the working buffer, `rest` being the
/// bytes from some position to the buffer's end.  Shorter than `HASH_CAP`,
/// `rest` is hashed whole with the account id and nonce index appended; from
/// `HASH_CAP` on, only its first `HASH_CAP` bytes are hashed, alone.
pub open spec fn next_hash(id: u64, nonce: u64, rest: Seq<u8>) -> Seq<u8> {
    if rest.len() < HASH_CAP {
        if rest.len() % 64 == 0 {
            shabal256(rest, seed_template(id, nonce))
        } else {
            shabal256(
                rest,
                half_template(id, nonce, rest.subrange(rest.len() - 32, rest.len() as int)),
            )
        }
    } else {
        shabal256(rest.subrange(0, HASH_CAP as int), plain_template())
    }
}

/// The last `len` bytes of the working buffer, `len` a multiple of 32: the
/// buffer grows from its end, each hash placed before what it was computed
/// from.
pub open spec fn tail(id: u64, nonce: u64, len: nat) -> Seq<u8>
    decreases len,
{
    if len < 32 {
        Seq::empty()
    } else {
        let rest = tail(id, nonce, (len - 32) as nat);
        next_hash(id, nonce, rest) + rest
    }
}

/// The working buffer before the closing XOR.
pub open spec fn raw_nonce(id: u64, nonce: u64) -> Seq<u8> {
    tail(id, nonce, NONCE_SIZE as nat)
}

/// The digest of the whole working buffer with the account id and nonce
/// index appended.
pub open spec fn final_hash(id: u64, nonce: u64) -> Seq<u8> {
    shabal256(raw_nonce(id, nonce), seed_template(id, nonce))
}

/// The nonce of `(id, nonce)`: 262144 bytes, every 32-byte hash of the
/// working buffer XORed with the final digest.
#[verifier::opaque]
pub open spec fn nonce_bytes(id: u64, nonce: u64) -> Seq<u8> {
    Seq::new(
        NONCE_SIZE as nat,
        |j: int| raw_nonce(id, nonce)[j] ^ final_hash(id, nonce)[j % 32],
    )
}

/// Byte `j` of scoop `s` as it is stored: the low half comes from scoop `s`
/// of the nonce `nb`, the high half from scoop `4095 - s`.
pub open spec fn stored_byte(nb: Seq<u8>, s: int, j: int) -> u8 {
    if j < 32 {
        nb[s * 64 + j]
    } else {
        nb[(4095 - s) * 64 + j]
    }
}

/// The 64 bytes of scoop `s` of the nonce `(id, nonce)` as stored.
pub open spec fn scoop(id: u64, nonce: u64, s: int) -> Seq<u8> {
    Seq::new(64, |j: int| stored_byte(nonce_bytes(id, nonce), s, j))
}

/// Whole nonces that a region of `len` bytes holds.
pub open spec fn capacity(len: nat) -> int {
    len as int / (NONCE_SIZE as int)
}

/// The nonce slot that position `p` of a scoop-major region of `cap` nonces
/// belongs to.
pub open spec fn slot_of(p: int, cap: int) -> int {
    (p / 64) % cap
}

/// The scoop that position `p` of a scoop-major region of `cap` nonces
/// belongs to.
pub open spec fn scoop_of(p: int, cap: int) -> int {
    p / (64 * cap)
}

/// The scoop-major region `old` of `cap` nonces with the nonce `nb` laid into
/// slot `slot`.
pub open spec fn scatter(old: Seq<u8>, cap: int, slot: int, nb: Seq<u8>) -> Seq<u8> {
    Seq::new(
        old.len(),
        |p: int|
            if slot_of(p, cap) == slot && scoop_of(p, cap) < 4096 {
                stored_byte(nb, scoop_of(p, cap), p % 64)
            } else {
                old[p]
            },
    )
}

/// The scoop-major region `old` of `cap` nonces with the nonces
/// `start, .., start + count - 1` of account `id` laid into the slots
/// `first, .., first + count - 1`; every other byte is that of `old`.
pub open spec fn cache_with(
    old: Seq<u8>,
    cap: int,
    first: int,
    id: u64,
    start: u64,
    count: int,
) -> Seq<u8> {
    Seq::new(
        old.len(),
        |p: int|
            if first <= slot_of(p, cap) < first + count && scoop_of(p, cap) < 4096 {
                stored_byte(
                    nonce_bytes(id, (start + (slot_of(p, cap) - first)) as u64),
                    scoop_of(p, cap),
                    p % 64,
                )
            } else {
                old[p]
            },
    )
}

/// In a scoop-major region of `cap` nonces, the 64 positions that start at
/// `s * cap * 64 + slot * 64` are exactly those of scoop `s` and slot `slot`.
pub proof fn lemma_cell(cap: int, s: int, slot: int, p: int)
    requires
        cap > 0,
        0 <= s,
        0 <= slot < cap,
        0 <= p,
    ensures
        (s * cap * 64 + slot * 64 <= p < s * cap * 64 + slot * 64 + 64) <==> (scoop_of(p, cap) == s
            && slot_of(p, cap) == slot),
        (s * cap * 64 + slot * 64 <= p < s * cap * 64 + slot * 64 + 64) ==> p % 64 == p - (s * cap
            * 64 + slot * 64),
{
    let q = p / 64;
    let base = s * cap * 64 + slot * 64;
    lemma_fundamental_div_mod(p, 64);
    lemma_div_denominator(p, 64, cap);
    assert(s * cap * 64 == 64 * (s * cap)) by (nonlinear_arith);
    assert(base == 64 * (s * cap + slot));
    lemma_fundamental_div_mod(q, cap);
    assert(s * cap == cap * s) by (nonlinear_arith);
    if base <= p < base + 64 {
        lemma_fundamental_div_mod_converse(p, 64, s * cap + slot, p - base);
        lemma_fundamental_div_mod_converse(q, cap, s, slot);
    }
    if scoop_of(p, cap) == s && slot_of(p, cap) == slot {
        assert(q == cap * s + slot);
    }
}

/// The working buffer grows by the hash of what it holds.
pub proof fn lemma_tail_step(id: u64, nonce: u64, len: nat)
    ensures
        tail(id, nonce, len + 32) == next_hash(id, nonce, tail(id, nonce, len)) + tail(
            id,
            nonce,
            len,
        ),
{
    assert((len + 32 - 32) as nat == len);
}

/// Laying one more nonce into the slot after the last extends the run of
/// nonces that the region holds.
pub proof fn lemma_cache_step(
    before: Seq<u8>,
    cap: int,
    first: int,
    id: u64,
    start: u64,
    n: int,
)
    requires
        0 <= n,
        start + n <= u64::MAX,
    ensures
        scatter(
            cache_with(before, cap, first, id, start, n),
            cap,
            first + n,
            nonce_bytes(id, (start + n) as u64),
        ) == cache_with(before, cap, first, id, start, n + 1),
{
    let left = scatter(
        cache_with(before, cap, first, id, start, n),
        cap,
        first + n,
        nonce_bytes(id, (start + n) as u64),
    );
    let right = cache_with(before, cap, first, id, start, n + 1);
    assert forall|p: int| 0 <= p < before.len() implies left[p] == right[p] by {
        if slot_of(p, cap) == first + n {
            assert(start + (slot_of(p, cap) - first) == start + n);
        }
    }
    assert(left =~= right);
}

/// A batch of nonces laid down at once is the same as its first `a` nonces
/// followed by the `b` after them; with `b == 1`, as the nonces laid down one
/// by one.
pub proof fn lemma_batch_in_parts(
    before: Seq<u8>,
    cap: int,
    first: int,
    id: u64,
    start: u64,
    a: int,
    b: int,
)
    requires
        0 <= a,
        0 <= b,
        b > 0 ==> start + a + b - 1 <= u64::MAX,
    ensures
        cache_with(
            cache_with(before, cap, first, id, start, a),
            cap,
            first + a,
            id,
            (start + a) as u64,
            b,
        ) == cache_with(before, cap, first, id, start, a + b),
{
    let inner = cache_with(before, cap, first, id, start, a);
    let left = cache_with(inner, cap, first + a, id, (start + a) as u64, b);
    let right = cache_with(before, cap, first, id, start, a + b);
    assert forall|p: int| 0 <= p < before.len() implies left[p] == right[p] by {
        let k = slot_of(p, cap);
        if first + a <= k < first + a + b {
            assert(((start + a) as u64) + (k - (first + a)) == start + (k - first));
        }
    }
    assert(left =~= right);
}

/// The kernel is a function of the account and the nonce indices alone: what
/// it leaves in the slots it fills does not depend on what the cache held
/// before, so two runs leave the same bytes there.
pub proof fn lemma_kernel_deterministic(
    one: Seq<u8>,
    other: Seq<u8>,
    cap: int,
    first: int,
    id: u64,
    start: u64,
    count: int,
    p: int,
)
    requires
        one.len() == other.len(),
        0 <= p < one.len(),
        first <= slot_of(p, cap) < first + count,
        scoop_of(p, cap) < 4096,
    ensures
        cache_with(one, cap, first, id, start, count)[p] == cache_with(
            other,
            cap,
            first,
            id,
            start,
            count,
        )[p],
{
}

/// Every nonce has `NONCE_SIZE` bytes.
pub proof fn lemma_nonce_len(id: u64, nonce: u64)
    ensures
        nonce_bytes(id, nonce).len() == NONCE_SIZE,
{
    reveal(nonce_bytes);
}

fn word_hi(x: u64) -> (w: u32)
    ensures
        w == be_word_hi(x),
{
    let b0: u8 = ((x >> 56) & 0xff) as u8;
    let b1: u8 = ((x >> 48) & 0xff) as u8;
    let b2: u8 = ((x >> 40) & 0xff) as u8;
    let b3: u8 = ((x >> 32) & 0xff) as u8;
    (b0 as u32) | ((b1 as u32) << 8) | ((b2 as u32) << 16) | ((b3 as u32) << 24)
}

fn word_lo(x: u64) -> (w: u32)
    ensures
        w == be_word_lo(x),
{
    let b0: u8 = ((x >> 24) & 0xff) as u8;
    let b1: u8 = ((x >> 16) & 0xff) as u8;
    let b2: u8 = ((x >> 8) & 0xff) as u8;
    let b3: u8 = (x & 0xff) as u8;
    (b0 as u32) | ((b1 as u32) << 8) | ((b2 as u32) << 16) | ((b3 as u32) << 24)
}

/// Copies the 32 bytes `src[from..from + 32]` to `dst[at..at + 32]`.
fn copy_hash(dst: &mut [u8], at: usize, src: &[u8], from: usize)
    requires
        at + 32 <= old(dst)@.len(),
        from + 32 <= src@.len(),
    ensures
        final(dst)@.len() == old(dst)@.len(),
        forall|p: int|
            0 <= p < old(dst)@.len() ==> final(dst)@[p] == if at <= p < at + 32 {
                src@[from + p - at]
            } else {
                old(dst)@[p]
            },
{
    let dst_len: usize = dst.len();
    let src_len: usize = src.len();
    let mut k: usize = 0;
    while k < 32
        invariant
            k <= 32,
            at + 32 <= dst_len,
            from + 32 <= src_len,
            dst_len == dst@.len(),
            src_len == src@.len(),
            dst@.len() == old(dst)@.len(),
            forall|p: int|
                0 <= p < dst@.len() ==> dst@[p] == if at <= p < at + k {
                    src@[from + p - at]
                } else {
                    old(dst)@[p]
                },
        decreases 32 - k,
    {
        dst[at + k] = src[from + k];
        k += 1;
    }
}

/// Fills `buffer` with the nonce of `(id, nonce)`.
fn generate_nonce(buffer: &mut Vec<u8>, id: u64, nonce: u64)
    requires
        old(buffer)@.len() == NONCE_SIZE,
    ensures
        final(buffer)@ == nonce_bytes(id, nonce),
        final(buffer)@.len() == NONCE_SIZE,
{
    let mut t1: [u32; 16] = [0u32; 16];
    t1[0] = word_hi(id);
    t1[1] = word_lo(id);
    t1[2] = word_hi(nonce);
    t1[3] = word_lo(nonce);
    t1[4] = 0x80;
    assert(t1@ =~= seed_template(id, nonce));

    let mut t3: [u32; 16] = [0u32; 16];
    t3[0] = 0x80;
    assert(t3@ =~= plain_template());

    let seed = shabal256_fast(slice_subrange(buffer.as_slice(), NONCE_SIZE, NONCE_SIZE), &t1);
    assert(buffer@.subrange(NONCE_SIZE as int, NONCE_SIZE as int) =~= Seq::<u8>::empty());
    assert(tail(id, nonce, 0) =~= Seq::<u8>::empty());

    let mut t2: [u32; 16] = [0u32; 16];
    let mut k: usize = 0;
    while k < 8
        invariant
            k <= 8,
            forall|t: int| 0 <= t < k ==> t2@[t] == half_template(id, nonce, seed@)[t],
            forall|t: int| k <= t < 16 ==> t2@[t] == 0,
        decreases 8 - k,
    {
        t2[k] = (seed[4 * k] as u32) | ((seed[4 * k + 1] as u32) << 8) | ((seed[4 * k + 2] as u32)
            << 16) | ((seed[4 * k + 3] as u32) << 24);
        k += 1;
    }
    t2[8] = t1[0];
    t2[9] = t1[1];
    t2[10] = t1[2];
    t2[11] = t1[3];
    t2[12] = 0x80;
    assert(t2@ =~= half_template(id, nonce, seed@));

    copy_hash(buffer.as_mut_slice(), NONCE_SIZE - HASH_SIZE, seed.as_slice(), 0);
    assert(buffer@.subrange(NONCE_SIZE - 32, NONCE_SIZE as int) =~= seed@);
    assert(tail(id, nonce, 32) =~= seed@) by {
        lemma_tail_step(id, nonce, 0);
    }

    let mut len: usize = HASH_SIZE;
    while len < NONCE_SIZE
        invariant
            32 <= len <= NONCE_SIZE,
            len % 32 == 0,
            buffer@.len() == NONCE_SIZE,
            t1@ == seed_template(id, nonce),
            t2@ == half_template(id, nonce, seed@),
            t3@ == plain_template(),
            buffer@.subrange(NONCE_SIZE - 32, NONCE_SIZE as int) == seed@,
            buffer@.subrange(NONCE_SIZE - len, NONCE_SIZE as int) == tail(id, nonce, len as nat),
        decreases NONCE_SIZE - len,
    {
        let i: usize = NONCE_SIZE - len;
        let ghost rest = buffer@.subrange(i as int, NONCE_SIZE as int);
        proof {
            lemma_tail_step(id, nonce, len as nat);
        }
        let hash = if len < HASH_CAP {
            if len % 64 == 0 {
                shabal256_fast(slice_subrange(buffer.as_slice(), i, NONCE_SIZE), &t1)
            } else {
                assert(rest.subrange(rest.len() - 32, rest.len() as int) =~= seed@);
                shabal256_fast(slice_subrange(buffer.as_slice(), i, NONCE_SIZE), &t2)
            }
        } else {
            assert(rest.subrange(0, HASH_CAP as int) =~= buffer@.subrange(
                i as int,
                i + HASH_CAP,
            ));
            shabal256_fast(slice_subrange(buffer.as_slice(), i, i + HASH_CAP), &t3)
        };
        assert(hash@ == next_hash(id, nonce, rest));
        copy_hash(buffer.as_mut_slice(), i - HASH_SIZE, hash.as_slice(), 0);
        assert(buffer@.subrange(i - 32, NONCE_SIZE as int) =~= hash@ + rest);
        assert(buffer@.subrange(NONCE_SIZE - 32, NONCE_SIZE as int) =~= seed@);
        len += HASH_SIZE;
    }
    assert(buffer@ =~= raw_nonce(id, nonce));

    let last = shabal256_fast(buffer.as_slice(), &t1);
    let mut j: usize = 0;
    while j < NONCE_SIZE
        invariant
            j <= NONCE_SIZE,
            buffer@.len() == NONCE_SIZE,
            last@ == final_hash(id, nonce),
            forall|p: int| 0 <= p < j ==> buffer@[p] == nonce_bytes(id, nonce)[p],
            forall|p: int| j <= p < NONCE_SIZE ==> buffer@[p] == raw_nonce(id, nonce)[p],
        decreases NONCE_SIZE - j,
    {
        proof {
            reveal(nonce_bytes);
        }
        buffer[j] = buffer[j] ^ last[j % HASH_SIZE];
        j += 1;
    }
    assert(buffer@ =~= nonce_bytes(id, nonce)) by {
        reveal(nonce_bytes);
    }
}

/// The region `old` after the low halves of the scoops below `done` of the
/// nonce `nb`, and the high halves that mirror them, were laid into `slot`.
spec fn partly_scattered(old: Seq<u8>, cap: int, slot: int, nb: Seq<u8>, done: int) -> Seq<u8> {
    Seq::new(
        old.len(),
        |p: int|
            if slot_of(p, cap) == slot && scoop_of(p, cap) < 4096 && (if p % 64 < 32 {
                scoop_of(p, cap) < done
            } else {
                4095 - scoop_of(p, cap) < done
            }) {
                stored_byte(nb, scoop_of(p, cap), p % 64)
            } else {
                old[p]
            },
    )
}

/// Lays the nonce held in `buffer` into slot `slot` of the scoop-major
/// `cache`.
fn store_nonce(cache: &mut [u8], cap: usize, slot: usize, buffer: &[u8])
    requires
        cap == capacity(old(cache)@.len()),
        slot < cap,
        buffer@.len() == NONCE_SIZE,
    ensures
        final(cache)@ == scatter(old(cache)@, cap as int, slot as int, buffer@),
{
    let ghost before = cache@;
    let ghost c = cap as int;
    let ghost sl = slot as int;
    assert(cap * 262144 <= cache@.len()) by {
        lemma_fundamental_div_mod(cache@.len() as int, 262144);
    }
    let len: usize = cache.len();
    assert(cache@ =~= partly_scattered(before, c, sl, buffer@, 0));
    let mut i: usize = 0;
    while i < NUM_SCOOPS
        invariant
            i <= NUM_SCOOPS,
            0 <= slot < cap,
            c == cap,
            sl == slot,
            len == cache@.len(),
            cap * 262144 <= len,
            buffer@.len() == NONCE_SIZE,
            cache@ == partly_scattered(before, c, sl, buffer@, i as int),
        decreases NUM_SCOOPS - i,
    {
        let ghost s = i as int;
        let ghost m = 4095 - i as int;
        assert(s * c * 64 + sl * 64 + 64 <= c * 262144 && m * c * 64 + sl * 64 + 64 <= c * 262144
            && s * c * 64 >= 0 && m * c * 64 >= 0) by (nonlinear_arith)
            requires
                0 <= s < 4096,
                m == 4095 - s,
                0 <= sl < c,
        ;
        let offset: usize = i * cap * SCOOP_SIZE + slot * SCOOP_SIZE;
        let mirror_offset: usize = (4095 - i) * cap * SCOOP_SIZE + slot * SCOOP_SIZE + HASH_SIZE;
        let ghost mid = cache@;
        copy_hash(cache, offset, buffer, i * SCOOP_SIZE);
        let ghost low = cache@;
        copy_hash(cache, mirror_offset, buffer, i * SCOOP_SIZE + HASH_SIZE);
        assert(cache@ =~= partly_scattered(before, c, sl, buffer@, i + 1)) by {
            assert forall|p: int| 0 <= p < cache@.len() implies cache@[p] == partly_scattered(
                before,
                c,
                sl,
                buffer@,
                i + 1,
            )[p] by {
                lemma_cell(c, s, sl, p);
                lemma_cell(c, m, sl, p);
            }
        }
        i += 1;
    }
    assert(cache@ =~= scatter(before, c, sl, buffer@));
}

/// Computes the nonces `local_startnonce, .., local_startnonce + local_nonces - 1`
/// of account `numeric_id` and lays them into the scoop-major `cache`, the
/// first into slot `cache_offset`.  The cache holds `cache.len() / NONCE_SIZE`
/// nonces; bytes outside the written slots keep their values.
pub fn noncegen_rust(
    cache: &mut [u8],
    cache_offset: usize,
    numeric_id: u64,
    local_startnonce: u64,
    local_nonces: u64,
)
    requires
        cache_offset + local_nonces <= capacity(old(cache)@.len()),
        local_nonces > 0 ==> local_startnonce + local_nonces - 1 <= u64::MAX,
    ensures
        final(cache)@ == cache_with(
            old(cache)@,
            capacity(old(cache)@.len()),
            cache_offset as int,
            numeric_id,
            local_startnonce,
            local_nonces as int,
        ),
{
    let cap: usize = cache.len() / NONCE_SIZE;
    let ghost before = cache@;
    let mut buffer: Vec<u8> = vec![0u8; NONCE_SIZE];
    assert(cache@ =~= cache_with(
        before,
        cap as int,
        cache_offset as int,
        numeric_id,
        local_startnonce,
        0,
    ));
    let mut n: u64 = 0;
    while n < local_nonces
        invariant
            n <= local_nonces,
            cap == capacity(before.len()),
            cache_offset + local_nonces <= cap,
            local_nonces > 0 ==> local_startnonce + local_nonces - 1 <= u64::MAX,
            buffer@.len() == NONCE_SIZE,
            cache@ == cache_with(
                before,
                cap as int,
                cache_offset as int,
                numeric_id,
                local_startnonce,
                n as int,
            ),
        decreases local_nonces - n,
    {
        generate_nonce(&mut buffer, numeric_id, local_startnonce + n);
        store_nonce(cache, cap, n as usize + cache_offset, buffer.as_slice());
        proof {
            lemma_cache_step(
                before,
                cap as int,
                cache_offset as int,
                numeric_id,
                local_startnonce,
                n as int,
            );
        }
        n += 1;
    }
}

} // verus!
