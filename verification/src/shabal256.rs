//! Shabal-256 over whole 64-byte blocks with a caller-supplied final block.
//!
//! The message is given in two parts: `data`, of which every complete
//! 64-byte block is absorbed, and `term`, the sixteen little-endian words of
//! the already padded last block.  Bytes of `data` beyond the last complete
//! block are not read; a caller whose message does not end on a block
//! boundary places them at the front of `term`.
use vstd::prelude::*;

verus! {

/// Initial value of the A register for a 256-bit digest.
pub const A_INIT: [u32; 12] = [
    0x52F8_4552, 0xE54B_7999, 0x2D8E_E3EC, 0xB964_5191,
    0xE007_8B86, 0xBB7C_44C9, 0xD2B5_C1CA, 0xB0D2_EB8C,
    0x14CE_5A45, 0x22AF_50DC, 0xEFFD_BC6B, 0xEB21_B74A,
];

/// Initial value of the B register for a 256-bit digest.
pub const B_INIT: [u32; 16] = [
    0xB555_C6EE, 0x3E71_0596, 0xA72A_652F, 0x9301_515F,
    0xDA28_C1FA, 0x696F_D868, 0x9CB6_BF72, 0x0AFE_4002,
    0xA6E0_3615, 0x5138_C1D4, 0xBE21_6306, 0xB38B_8890,
    0x3EA8_B96B, 0x3299_ACE4, 0x3092_4DD4, 0x55CB_34A5,
];

/// Initial value of the C register for a 256-bit digest.
pub const C_INIT: [u32; 16] = [
    0xB405_F031, 0xC423_3EBA, 0xB373_3979, 0xC0DD_9D55,
    0xC51C_28AE, 0xA327_B8E1, 0x56C5_6167, 0xED61_4433,
    0x88B5_9D60, 0x60E2_CEBA, 0x758B_4B8B, 0x83E8_2A7F,
    0xBC96_8828, 0xE6E0_0BF7, 0xBA83_9E55, 0x9B49_1C60,
];

/// The three registers of the hash state, as sequences of 12, 16 and 16 words.
pub struct Registers {
    pub a: Seq<u32>,
    pub b: Seq<u32>,
    pub c: Seq<u32>,
}

/// Rotation of a word to the left by `n` bits, `0 < n < 32`.
pub open spec fn rotl(x: u32, n: u32) -> u32 {
    (x << n) | (x >> ((32 - n) as u32))
}

/// The word whose little-endian bytes are `b0, b1, b2, b3`.
pub open spec fn le_word(b0: u8, b1: u8, b2: u8, b3: u8) -> u32 {
    (b0 as u32) | ((b1 as u32) << 8) | ((b2 as u32) << 16) | ((b3 as u32) << 24)
}

/// Byte `k` (0 is the least significant) of a word.
pub open spec fn word_byte(w: u32, k: int) -> u8 {
    if k == 0 {
        (w & 0xff) as u8
    } else if k == 1 {
        ((w >> 8) & 0xff) as u8
    } else if k == 2 {
        ((w >> 16) & 0xff) as u8
    } else {
        ((w >> 24) & 0xff) as u8
    }
}

/// The sixteen message words of block `k` of `data`.
pub open spec fn block_words(data: Seq<u8>, k: int) -> Seq<u32> {
    Seq::new(
        16,
        |i: int|
            le_word(
                data[64 * k + 4 * i],
                data[64 * k + 4 * i + 1],
                data[64 * k + 4 * i + 2],
                data[64 * k + 4 * i + 3],
            ),
    )
}

/// The registers before any block has been absorbed.
pub open spec fn initial() -> Registers {
    Registers { a: A_INIT@, b: B_INIT@, c: C_INIT@ }
}

/// Adds the message block to B, word by word.
pub open spec fn add_m(r: Registers, m: Seq<u32>) -> Registers {
    Registers { a: r.a, b: Seq::new(16, |i: int| r.b[i].wrapping_add(m[i])), c: r.c }
}

/// Subtracts the message block from C, word by word.
pub open spec fn sub_m(r: Registers, m: Seq<u32>) -> Registers {
    Registers { a: r.a, b: r.b, c: Seq::new(16, |i: int| r.c[i].wrapping_sub(m[i])) }
}

/// Mixes the 64-bit block counter into the first two words of A.
pub open spec fn xor_w(r: Registers, w: u64) -> Registers {
    Registers {
        a: r.a.update(0, r.a[0] ^ ((w & 0xffff_ffff) as u32)).update(
            1,
            r.a[1] ^ ((w >> 32) as u32),
        ),
        b: r.b,
        c: r.c,
    }
}

/// Exchanges B and C.
pub open spec fn swap_bc(r: Registers) -> Registers {
    Registers { a: r.a, b: r.c, c: r.b }
}

/// Rotates every word of B by 17 bits.
pub open spec fn rotate_b(r: Registers) -> Registers {
    Registers { a: r.a, b: Seq::new(16, |i: int| rotl(r.b[i], 17)), c: r.c }
}

/// Step `j` (of 48) of the permutation: one word of A and one of B change.
pub open spec fn perm_elt(r: Registers, m: Seq<u32>, j: int) -> Registers {
    let i = j % 16;
    let x0 = j % 12;
    let x1 = (j + 11) % 12;
    let t = (r.a[x0] ^ rotl(r.a[x1], 15).wrapping_mul(5) ^ r.c[(24 - i) % 16]).wrapping_mul(3);
    let na = t ^ r.b[(i + 13) % 16] ^ (r.b[(i + 9) % 16] & !r.b[(i + 6) % 16]) ^ m[i];
    let nb = !(rotl(r.b[i], 1) ^ na);
    Registers { a: r.a.update(x0, na), b: r.b.update(i, nb), c: r.c }
}

/// The first `n` steps of the permutation.
pub open spec fn perm_elts(r: Registers, m: Seq<u32>, n: nat) -> Registers
    decreases n,
{
    if n == 0 {
        r
    } else {
        perm_elt(perm_elts(r, m, (n - 1) as nat), m, n - 1)
    }
}

/// Step `j` (of 36) of the closing additions of C into A.
pub open spec fn add_c(r: Registers, j: int) -> Registers {
    Registers {
        a: r.a.update(j % 12, r.a[j % 12].wrapping_add(r.c[(j + 3) % 16])),
        b: r.b,
        c: r.c,
    }
}

/// The first `n` closing additions.
pub open spec fn add_cs(r: Registers, n: nat) -> Registers
    decreases n,
{
    if n == 0 {
        r
    } else {
        add_c(add_cs(r, (n - 1) as nat), n - 1)
    }
}

/// The keyed permutation: rotate B, 48 steps, 36 additions.
pub open spec fn permute(r: Registers, m: Seq<u32>) -> Registers {
    add_cs(perm_elts(rotate_b(r), m, 48), 36)
}

/// Absorbs one message block under block counter `w`.
pub open spec fn absorb(r: Registers, w: u64, m: Seq<u32>) -> Registers {
    swap_bc(sub_m(permute(xor_w(add_m(r, m), w), m), m))
}

/// The registers after the first `n` blocks of `data`; block `k` is absorbed
/// under counter `k + 1`.
pub open spec fn absorbed(data: Seq<u8>, n: nat) -> Registers
    decreases n,
{
    if n == 0 {
        initial()
    } else {
        absorb(absorbed(data, (n - 1) as nat), n as u64, block_words(data, n - 1))
    }
}

/// One of the three extra rounds that close the hash.
pub open spec fn close_round(r: Registers, w: u64, m: Seq<u32>) -> Registers {
    permute(xor_w(swap_bc(r), w), m)
}

/// Absorbs the last block and runs the three closing rounds.
pub open spec fn finish(r: Registers, w: u64, m: Seq<u32>) -> Registers {
    close_round(close_round(close_round(permute(xor_w(add_m(r, m), w), m), w, m), w, m), w, m)
}

/// The digest held in the upper half of B, as 32 little-endian bytes.
pub open spec fn digest_bytes(b: Seq<u32>) -> Seq<u8> {
    Seq::new(32, |i: int| word_byte(b[8 + i / 4], i % 4))
}

/// Number of complete 64-byte blocks in a message of `len` bytes.
pub open spec fn full_blocks(len: nat) -> nat {
    len / 64
}

/// The 32-byte Shabal-256 value of the complete blocks of `data` followed by
/// the final block `term`.
#[verifier::opaque]
pub open spec fn shabal256(data: Seq<u8>, term: Seq<u32>) -> Seq<u8> {
    let n = full_blocks(data.len());
    digest_bytes(finish(absorbed(data, n), (n + 1) as u64, term).b)
}

struct Shabal {
    a: [u32; 12],
    b: [u32; 16],
    c: [u32; 16],
}

impl View for Shabal {
    type V = Registers;

    closed spec fn view(&self) -> Registers {
        Registers { a: self.a@, b: self.b@, c: self.c@ }
    }
}

fn rotate_left(x: u32, n: u32) -> (r: u32)
    requires
        0 < n < 32,
    ensures
        r == rotl(x, n),
{
    (x << n) | (x >> (32 - n))
}

fn read_word(data: &[u8], at: usize) -> (w: u32)
    requires
        at + 4 <= data@.len(),
    ensures
        w == le_word(data@[at as int], data@[at + 1], data@[at + 2], data@[at + 3]),
{
    (data[at] as u32) | ((data[at + 1] as u32) << 8) | ((data[at + 2] as u32) << 16) | ((data[at
        + 3] as u32) << 24)
}

fn read_block(data: &[u8], k: usize) -> (m: [u32; 16])
    requires
        64 * (k + 1) <= data@.len(),
    ensures
        m@ == block_words(data@, k as int),
{
    let len: usize = data.len();
    let mut m: [u32; 16] = [0u32; 16];
    let mut i: usize = 0;
    while i < 16
        invariant
            i <= 16,
            len == data@.len(),
            64 * (k + 1) <= len,
            forall|t: int| 0 <= t < i ==> m@[t] == block_words(data@, k as int)[t],
        decreases 16 - i,
    {
        m[i] = read_word(data, 64 * k + 4 * i);
        i += 1;
    }
    assert(m@ =~= block_words(data@, k as int));
    m
}

impl Shabal {
    fn new() -> (s: Shabal)
        ensures
            s@ == initial(),
    {
        Shabal { a: A_INIT, b: B_INIT, c: C_INIT }
    }

    fn add_m(&mut self, m: &[u32; 16])
        ensures
            final(self)@ == add_m(old(self)@, m@),
    {
        let mut i: usize = 0;
        while i < 16
            invariant
                i <= 16,
                self.a == old(self).a,
                self.c == old(self).c,
                forall|t: int| 0 <= t < i ==> self.b@[t] == old(self).b@[t].wrapping_add(m@[t]),
                forall|t: int| i <= t < 16 ==> self.b@[t] == old(self).b@[t],
            decreases 16 - i,
        {
            self.b[i] = self.b[i].wrapping_add(m[i]);
            i += 1;
        }
        assert(self.b@ =~= add_m(old(self)@, m@).b);
    }

    fn sub_m(&mut self, m: &[u32; 16])
        ensures
            final(self)@ == sub_m(old(self)@, m@),
    {
        let mut i: usize = 0;
        while i < 16
            invariant
                i <= 16,
                self.a == old(self).a,
                self.b == old(self).b,
                forall|t: int| 0 <= t < i ==> self.c@[t] == old(self).c@[t].wrapping_sub(m@[t]),
                forall|t: int| i <= t < 16 ==> self.c@[t] == old(self).c@[t],
            decreases 16 - i,
        {
            self.c[i] = self.c[i].wrapping_sub(m[i]);
            i += 1;
        }
        assert(self.c@ =~= sub_m(old(self)@, m@).c);
    }

    fn xor_w(&mut self, w: u64)
        ensures
            final(self)@ == xor_w(old(self)@, w),
    {
        self.a[0] = self.a[0] ^ ((w & 0xffff_ffff) as u32);
        self.a[1] = self.a[1] ^ ((w >> 32) as u32);
    }

    fn swap_bc(&mut self)
        ensures
            final(self)@ == swap_bc(old(self)@),
    {
        std::mem::swap(&mut self.b, &mut self.c);
    }

    fn rotate_b(&mut self)
        ensures
            final(self)@ == rotate_b(old(self)@),
    {
        let mut i: usize = 0;
        while i < 16
            invariant
                i <= 16,
                self.a == old(self).a,
                self.c == old(self).c,
                forall|t: int| 0 <= t < i ==> self.b@[t] == rotl(old(self).b@[t], 17),
                forall|t: int| i <= t < 16 ==> self.b@[t] == old(self).b@[t],
            decreases 16 - i,
        {
            self.b[i] = rotate_left(self.b[i], 17);
            i += 1;
        }
        assert(self.b@ =~= rotate_b(old(self)@).b);
    }

    fn perm_elt(&mut self, m: &[u32; 16], j: usize)
        requires
            j < 48,
        ensures
            final(self)@ == perm_elt(old(self)@, m@, j as int),
    {
        let i: usize = j % 16;
        let x0: usize = j % 12;
        let x1: usize = (j + 11) % 12;
        let t: u32 = (self.a[x0] ^ rotate_left(self.a[x1], 15).wrapping_mul(5) ^ self.c[(24 - i)
            % 16]).wrapping_mul(3);
        let na: u32 = t ^ self.b[(i + 13) % 16] ^ (self.b[(i + 9) % 16] & !self.b[(i + 6) % 16])
            ^ m[i];
        let nb: u32 = !(rotate_left(self.b[i], 1) ^ na);
        self.a[x0] = na;
        self.b[i] = nb;
    }

    fn add_c(&mut self, j: usize)
        requires
            j < 36,
        ensures
            final(self)@ == add_c(old(self)@, j as int),
    {
        self.a[j % 12] = self.a[j % 12].wrapping_add(self.c[(j + 3) % 16]);
    }

    fn permute(&mut self, m: &[u32; 16])
        ensures
            final(self)@ == permute(old(self)@, m@),
    {
        self.rotate_b();
        let ghost rotated = self@;
        let mut j: usize = 0;
        while j < 48
            invariant
                j <= 48,
                self@ == perm_elts(rotated, m@, j as nat),
            decreases 48 - j,
        {
            self.perm_elt(m, j);
            j += 1;
        }
        let ghost mixed = self@;
        let mut k: usize = 0;
        while k < 36
            invariant
                k <= 36,
                self@ == add_cs(mixed, k as nat),
            decreases 36 - k,
        {
            self.add_c(k);
            k += 1;
        }
    }

    fn absorb(&mut self, w: u64, m: &[u32; 16])
        ensures
            final(self)@ == absorb(old(self)@, w, m@),
    {
        self.add_m(m);
        self.xor_w(w);
        self.permute(m);
        self.sub_m(m);
        self.swap_bc();
    }

    fn close_round(&mut self, w: u64, m: &[u32; 16])
        ensures
            final(self)@ == close_round(old(self)@, w, m@),
    {
        self.swap_bc();
        self.xor_w(w);
        self.permute(m);
    }

    fn finish(&mut self, w: u64, m: &[u32; 16])
        ensures
            final(self)@ == finish(old(self)@, w, m@),
    {
        self.add_m(m);
        self.xor_w(w);
        self.permute(m);
        self.close_round(w, m);
        self.close_round(w, m);
        self.close_round(w, m);
    }

    fn digest(&self) -> (out: [u8; 32])
        ensures
            out@ == digest_bytes(self@.b),
    {
        let mut out: [u8; 32] = [0u8; 32];
        let mut i: usize = 0;
        while i < 8
            invariant
                i <= 8,
                forall|t: int| 0 <= t < 4 * i ==> out@[t] == digest_bytes(self@.b)[t],
            decreases 8 - i,
        {
            let w: u32 = self.b[8 + i];
            out[4 * i] = (w & 0xff) as u8;
            out[4 * i + 1] = ((w >> 8) & 0xff) as u8;
            out[4 * i + 2] = ((w >> 16) & 0xff) as u8;
            out[4 * i + 3] = ((w >> 24) & 0xff) as u8;
            i += 1;
        }
        assert(out@ =~= digest_bytes(self@.b));
        out
    }
}

/// Hashes the complete 64-byte blocks of `data` followed by the final block
/// `term`, and returns the 32-byte digest.
pub fn shabal256_fast(data: &[u8], term: &[u32; 16]) -> (hash: [u8; 32])
    ensures
        hash@ == shabal256(data@, term@),
{
    reveal(shabal256);
    let blocks: usize = data.len() / 64;
    let mut state = Shabal::new();
    let mut k: usize = 0;
    while k < blocks
        invariant
            k <= blocks,
            blocks == full_blocks(data@.len()),
            state@ == absorbed(data@, k as nat),
        decreases blocks - k,
    {
        let m = read_block(data, k);
        state.absorb((k + 1) as u64, &m);
        k += 1;
    }
    state.finish((blocks + 1) as u64, term);
    state.digest()
}

} // verus!
