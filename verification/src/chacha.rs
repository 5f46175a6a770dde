//! The kernel's random numbers: the ChaCha20 block function as a stream
//! generator, rekeyed after every request.

use vstd::prelude::*;
use vstd::array::ArrayAdditionalExecFns;
use vstd::slice::SliceAdditionalExecFns;

verus! {

/// `x` rotated left by `n` bits.
pub open spec fn rotl(x: u32, n: u32) -> u32 {
    ((x << n) | (x >> (32u32 - n))) as u32
}

fn rotate_left(x: u32, n: u32) -> (r: u32)
    requires
        0 < n < 32,
    ensures
        r == rotl(x, n),
{
    (x << n) | (x >> (32u32 - n))
}

/// The ChaCha quarter round.
pub open spec fn qr(a: u32, b: u32, c: u32, d: u32) -> (u32, u32, u32, u32) {
    let a1 = a.wrapping_add(b);
    let d1 = rotl(d ^ a1, 16);
    let c1 = c.wrapping_add(d1);
    let b1 = rotl(b ^ c1, 12);
    let a2 = a1.wrapping_add(b1);
    let d2 = rotl(d1 ^ a2, 8);
    let c2 = c1.wrapping_add(d2);
    let b2 = rotl(b1 ^ c2, 7);
    (a2, b2, c2, d2)
}

pub fn quarter_round(a: u32, b: u32, c: u32, d: u32) -> (r: (u32, u32, u32, u32))
    ensures
        r == qr(a, b, c, d),
{
    let mut a = a;
    let mut b = b;
    let mut c = c;
    let mut d = d;
    a = a.wrapping_add(b);
    d = d ^ a;
    d = rotate_left(d, 16);
    c = c.wrapping_add(d);
    b = b ^ c;
    b = rotate_left(b, 12);
    a = a.wrapping_add(b);
    d = d ^ a;
    d = rotate_left(d, 8);
    c = c.wrapping_add(d);
    b = b ^ c;
    b = rotate_left(b, 7);
    (a, b, c, d)
}

/// The state with the quarter round applied to the words at `a`, `b`, `c`, `d`.
pub open spec fn qr_state(s: Seq<u32>, a: int, b: int, c: int, d: int) -> Seq<u32> {
    let r = qr(s[a], s[b], s[c], s[d]);
    s.update(a, r.0).update(b, r.1).update(c, r.2).update(d, r.3)
}

pub fn quarter_round_state(state: &mut [u32; 16], a: usize, b: usize, c: usize, d: usize)
    requires
        a < 16 && b < 16 && c < 16 && d < 16,
    ensures
        final(state)@ == qr_state(old(state)@, a as int, b as int, c as int, d as int),
{
    let (new_a, new_b, new_c, new_d) = quarter_round(state[a], state[b], state[c], state[d]);
    state[a] = new_a;
    state[b] = new_b;
    state[c] = new_c;
    state[d] = new_d;
}

/// Four column rounds, then four diagonal rounds.
pub open spec fn double_round_spec(s: Seq<u32>) -> Seq<u32> {
    let s = qr_state(s, 0, 4, 8, 12);
    let s = qr_state(s, 1, 5, 9, 13);
    let s = qr_state(s, 2, 6, 10, 14);
    let s = qr_state(s, 3, 7, 11, 15);
    let s = qr_state(s, 0, 5, 10, 15);
    let s = qr_state(s, 1, 6, 11, 12);
    let s = qr_state(s, 2, 7, 8, 13);
    qr_state(s, 3, 4, 9, 14)
}

pub fn double_round(state: &mut [u32; 16])
    ensures
        final(state)@ == double_round_spec(old(state)@),
{
    quarter_round_state(state, 0, 4, 8, 12);
    quarter_round_state(state, 1, 5, 9, 13);
    quarter_round_state(state, 2, 6, 10, 14);
    quarter_round_state(state, 3, 7, 11, 15);
    quarter_round_state(state, 0, 5, 10, 15);
    quarter_round_state(state, 1, 6, 11, 12);
    quarter_round_state(state, 2, 7, 8, 13);
    quarter_round_state(state, 3, 4, 9, 14);
}

/// The little-endian word of four bytes.
pub open spec fn le32(b0: u8, b1: u8, b2: u8, b3: u8) -> u32 {
    (b0 as u32) | ((b1 as u32) << 8u32) | ((b2 as u32) << 16u32) | ((b3 as u32) << 24u32)
}

/// The ChaCha20 input block: the constants, the key, the 64-bit counter and
/// a zero nonce.
pub open spec fn state_spec(key: Seq<u8>, counter: u64) -> Seq<u32> {
    Seq::new(
        16,
        |i: int|
            if i == 0 {
                0x6170_7865u32
            } else if i == 1 {
                0x3320_646eu32
            } else if i == 2 {
                0x7962_2d32u32
            } else if i == 3 {
                0x6b20_6574u32
            } else if i < 12 {
                le32(key[4 * (i - 4)], key[4 * (i - 4) + 1], key[4 * (i - 4) + 2], key[4 * (i - 4) + 3])
            } else if i == 12 {
                counter as u32
            } else if i == 13 {
                (counter >> 32u64) as u32
            } else {
                0u32
            },
    )
}

pub fn make_state(key: &[u8; 32], counter: u64) -> (r: [u32; 16])
    ensures
        r@ == state_spec(key@, counter),
{
    let mut state = [0u32; 16];
    state[0] = 0x6170_7865u32;
    state[1] = 0x3320_646eu32;
    state[2] = 0x7962_2d32u32;
    state[3] = 0x6b20_6574u32;
    let mut i: usize = 0;
    while i < 8
        invariant
            i <= 8,
            state@.len() == 16,
            state@[0] == 0x6170_7865u32,
            state@[1] == 0x3320_646eu32,
            state@[2] == 0x7962_2d32u32,
            state@[3] == 0x6b20_6574u32,
            forall|j: int| 0 <= j < i ==> #[trigger] state@[4 + j] == le32(key@[4 * j], key@[4 * j + 1], key@[4 * j + 2], key@[4 * j + 3]),
            forall|j: int| 12 <= j < 16 ==> state@[j] == 0u32,
        decreases 8 - i,
    {
        let w = (key[i * 4] as u32) | ((key[i * 4 + 1] as u32) << 8u32) | ((key[i * 4 + 2] as u32) << 16u32) | ((key[i
            * 4 + 3] as u32) << 24u32);
        state[4 + i] = w;
        i = i + 1;
    }
    state[12] = counter as u32;
    state[13] = (counter >> 32u64) as u32;
    state[14] = 0;
    state[15] = 0;
    proof {
        assert forall|i: int| 4 <= i < 12 implies state@[i] == le32(key@[4 * (i - 4)], key@[4 * (i - 4) + 1], key@[4 * (i - 4) + 2], key@[4 * (i - 4) + 3]) by {
            let j = i - 4;
            assert(state@[4 + j] == le32(key@[4 * j], key@[4 * j + 1], key@[4 * j + 2], key@[4 * j + 3]));
        }
        assert(state@ =~= state_spec(key@, counter));
    }
    state
}

/// `n` double rounds.
pub open spec fn rounds(s: Seq<u32>, n: nat) -> Seq<u32>
    decreases n,
{
    if n == 0 {
        s
    } else {
        double_round_spec(rounds(s, (n - 1) as nat))
    }
}

/// The 64 output bytes of one block.
pub open spec fn block_spec(key: Seq<u8>, counter: u64) -> Seq<u8> {
    let init = state_spec(key, counter);
    let fin = rounds(init, 10);
    Seq::new(64, |k: int| ((fin[k / 4].wrapping_add(init[k / 4]) >> (8 * (k % 4)) as u32) & 0xffu32) as u8)
}

pub fn chacha20_block(key: &[u8; 32], counter: u64) -> (r: [u8; 64])
    ensures
        r@ == block_spec(key@, counter),
{
    let initial = make_state(key, counter);
    let mut working = initial;
    let mut n: usize = 0;
    while n < 10
        invariant
            n <= 10,
            working@ == rounds(initial@, n as nat),
            working@.len() == 16,
        decreases 10 - n,
    {
        double_round(&mut working);
        n = n + 1;
    }
    let ghost fin = working@;
    let mut i: usize = 0;
    while i < 16
        invariant
            i <= 16,
            fin.len() == 16,
            initial@.len() == 16,
            working@.len() == 16,
            forall|j: int| 0 <= j < i ==> #[trigger] working@[j] == fin[j].wrapping_add(initial@[j]),
            forall|j: int| i <= j < 16 ==> #[trigger] working@[j] == fin[j],
        decreases 16 - i,
    {
        let v = working[i].wrapping_add(initial[i]);
        working[i] = v;
        i = i + 1;
    }
    let mut output = [0u8; 64];
    let mut k: usize = 0;
    while k < 64
        invariant
            k <= 64,
            working@.len() == 16,
            output@.len() == 64,
            forall|j: int| 0 <= j < 16 ==> #[trigger] working@[j] == fin[j].wrapping_add(initial@[j]),
            forall|j: int| 0 <= j < k ==> #[trigger] output@[j] == ((working@[j / 4] >> (8 * (j % 4)) as u32) & 0xffu32) as u8,
        decreases 64 - k,
    {
        let w = working[k / 4];
        let shift = (8 * (k % 4)) as u32;
        output[k] = ((w >> shift) & 0xffu32) as u8;
        k = k + 1;
    }
    proof {
        assert(fin == rounds(state_spec(key@, counter), 10));
        assert(output@ =~= block_spec(key@, counter));
    }
    output
}

/// A ChaCha20 key and the counter of the next block.
pub struct KernelRng {
    key: [u8; 32],
    counter: u64,
}

/// The bytes of blocks `counter`, `counter + 1`, ... of `key`, `n` of them.
pub open spec fn stream(key: Seq<u8>, counter: u64, n: nat) -> Seq<u8>
    decreases n,
{
    if n == 0 {
        Seq::empty()
    } else if n <= 64 {
        block_spec(key, counter).subrange(0, n as int)
    } else {
        block_spec(key, counter) + stream(key, (counter + 1) as u64, (n - 64) as nat)
    }
}

/// The number of blocks a request of `n` bytes uses.
pub open spec fn blocks_for(n: nat) -> nat {
    ((n + 63) / 64) as nat
}

impl KernelRng {
    pub closed spec fn key_bytes(&self) -> Seq<u8> {
        self.key@
    }

    pub closed spec fn counter(&self) -> u64 {
        self.counter
    }

    /// A generator keyed with `seed`, at block 0.
    pub fn new(seed: [u8; 32]) -> (r: KernelRng)
        ensures
            r.key_bytes() == seed@,
            r.counter() == 0,
    {
        KernelRng { key: seed, counter: 0 }
    }

    /// Fills `output` with the next bytes of the stream, a block per 64
    /// bytes, then rekeys.
    pub fn fill(&mut self, output: &mut [u8])
        requires
            old(self).counter() + blocks_for(old(output)@.len()) < u64::MAX,
        ensures
            final(output)@ == stream(old(self).key_bytes(), old(self).counter(), old(output)@.len()),
            final(self).key_bytes() == block_spec(
                old(self).key_bytes(),
                (old(self).counter() + blocks_for(old(output)@.len())) as u64,
            ).subrange(0, 32),
            final(self).counter() == 0,
    {
        let len = output.len();
        let mut start: usize = 0;
        let ghost k0 = self.key@;
        let ghost c0 = self.counter;
        while start < len
            invariant
                len == output@.len(),
                len == old(output)@.len(),
                self.key@ == k0,
                k0 == old(self).key_bytes(),
                c0 == old(self).counter(),
                start <= len,
                start % 64 == 0 || start == len,
                self.counter == c0 + blocks_for(start as nat),
                c0 + blocks_for(len as nat) < u64::MAX,
                output@.subrange(0, start as int) == stream(k0, c0, start as nat),
            decreases len - start,
        {
            let block = chacha20_block(&self.key, self.counter);
            let ghost out0 = output@;
            let n = if len - start < 64 {
                len - start
            } else {
                64
            };
            let mut j: usize = 0;
            while j < n
                invariant
                    n <= 64,
                    start + n <= len,
                    len == output@.len(),
                    j <= n,
                    block@ == block_spec(k0, self.counter),
                    out0.len() == len,
                    forall|t: int| 0 <= t < start ==> #[trigger] output@[t] == out0[t],
                    forall|t: int| start <= t < start + j ==> #[trigger] output@[t] == block@[t - start],
                decreases n - j,
            {
                output[start + j] = block[j];
                j = j + 1;
            }
            proof {
                assert(start % 64 == 0);
                assert(blocks_for(start as nat) == start / 64) by (nonlinear_arith)
                    requires
                        start % 64 == 0,
                ;
                assert(start / 64 < blocks_for(len as nat)) by (nonlinear_arith)
                    requires
                        start < len,
                        start % 64 == 0,
                ;
                assert(blocks_for((start + n) as nat) == start / 64 + 1) by (nonlinear_arith)
                    requires
                        start % 64 == 0,
                        0 < n <= 64,
                ;
                lemma_stream_step(k0, c0, start as nat, n as nat, len as nat);
                assert(output@.subrange(0, (start + n) as int) =~= out0.subrange(0, start as int) + block@.subrange(
                    0,
                    n as int,
                ));
            }
            self.counter = self.counter + 1;
            let ghost s0 = start;
            start = start + n;
            proof {
                if n < 64 {
                    assert(start == len);
                } else {
                    assert((s0 + 64) % 64 == 0) by (nonlinear_arith)
                        requires
                            s0 % 64 == 0,
                    ;
                }
            }
        }
        proof {
            assert(output@.subrange(0, len as int) =~= output@);
        }
        self.rekey();
    }

    /// Replaces the key with the first half of the next block and restarts
    /// the counter, so that earlier output cannot be recomputed.
    pub fn rekey(&mut self)
        ensures
            final(self).key_bytes() == block_spec(old(self).key_bytes(), old(self).counter()).subrange(0, 32),
            final(self).counter() == 0,
    {
        let block = chacha20_block(&self.key, self.counter);
        let mut i: usize = 0;
        while i < 32
            invariant
                i <= 32,
                block@.len() == 64,
                forall|j: int| 0 <= j < i ==> #[trigger] self.key@[j] == block@[j],
            decreases 32 - i,
        {
            self.key[i] = block[i];
            i = i + 1;
        }
        self.counter = 0;
        proof {
            assert(self.key@ =~= block@.subrange(0, 32));
        }
    }
}

proof fn lemma_stream_step(key: Seq<u8>, c0: u64, start: nat, n: nat, len: nat)
    requires
        start % 64 == 0,
        start < len,
        n == if len - start < 64 { (len - start) as nat } else { 64nat },
        c0 + start / 64 < u64::MAX,
    ensures
        stream(key, c0, start + n) == stream(key, c0, start) + block_spec(key, (c0 + start / 64) as u64).subrange(
            0,
            n as int,
        ),
    decreases start,
{
    if start == 0 {
        if n == 64 {
            assert(block_spec(key, c0).subrange(0, 64) =~= block_spec(key, c0));
        }
        assert(stream(key, c0, 0) + block_spec(key, c0).subrange(0, n as int) =~= block_spec(key, c0).subrange(
            0,
            n as int,
        ));
    } else {
        assert(start >= 64);
        let c1 = (c0 + 1) as u64;
        assert((start - 64) / 64 == start / 64 - 1) by (nonlinear_arith)
            requires
                start % 64 == 0,
                start >= 64,
        ;
        assert(((start - 64) as nat) % 64 == 0) by (nonlinear_arith)
            requires
                start % 64 == 0,
                start >= 64,
        ;
        lemma_stream_step(key, c1, (start - 64) as nat, n, (len - 64) as nat);
        assert(stream(key, c0, start + n) == block_spec(key, c0) + stream(key, c1, (start + n - 64) as nat));
        assert(stream(key, c0, start) == block_spec(key, c0) + stream(key, c1, (start - 64) as nat));
        assert((c0 + start / 64) as u64 == (c1 + (start - 64) / 64) as u64);
    }
}

/// Fills `out` with random bytes from `rng`.
pub fn random_bytes(rng: &mut KernelRng, out: &mut [u8])
    requires
        old(rng).counter() + blocks_for(old(out)@.len()) < u64::MAX,
    ensures
        final(out)@ == stream(old(rng).key_bytes(), old(rng).counter(), old(out)@.len()),
        final(rng).key_bytes() == block_spec(
            old(rng).key_bytes(),
            (old(rng).counter() + blocks_for(old(out)@.len())) as u64,
        ).subrange(0, 32),
        final(rng).counter() == 0,
{
    rng.fill(out);
}

/// The little-endian number of eight bytes.
pub open spec fn le64(b: Seq<u8>) -> u64 {
    (b[0] as u64) | ((b[1] as u64) << 8u64) | ((b[2] as u64) << 16u64) | ((b[3] as u64) << 24u64) | ((b[4] as u64)
        << 32u64) | ((b[5] as u64) << 40u64) | ((b[6] as u64) << 48u64) | ((b[7] as u64) << 56u64)
}

/// The number in the first eight bytes of `b`, least significant first.
pub fn u64_from_le(b: &[u8]) -> (r: u64)
    requires
        b@.len() >= 8,
    ensures
        r == le64(b@),
{
    (b[0] as u64) | ((b[1] as u64) << 8u64) | ((b[2] as u64) << 16u64) | ((b[3] as u64) << 24u64) | ((b[4] as u64)
        << 32u64) | ((b[5] as u64) << 40u64) | ((b[6] as u64) << 48u64) | ((b[7] as u64) << 56u64)
}

/// A random number from `rng`: eight bytes of the stream.
pub fn random_u64(rng: &mut KernelRng) -> (r: u64)
    requires
        old(rng).counter() + 1 < u64::MAX,
    ensures
        r == le64(stream(old(rng).key_bytes(), old(rng).counter(), 8)),
        final(rng).key_bytes() == block_spec(old(rng).key_bytes(), (old(rng).counter() + 1) as u64).subrange(0, 32),
        final(rng).counter() == 0,
{
    let mut buf: Vec<u8> = vec![0u8; 8];
    proof {
        assert(blocks_for(8) == 1);
    }
    rng.fill(buf.as_mut_slice());
    u64_from_le(buf.as_slice())
}

} // verus!
