//! MD4 message digest (RFC 1320), streaming form.
use vstd::arithmetic::div_mod::{lemma_mod_mod, lemma_mul_mod_noop_left};
use vstd::prelude::*;

verus! {

/// Initial chaining values.
pub const I0: u32 = 0x67452301;

pub const I1: u32 = 0xefcdab89;

pub const I2: u32 = 0x98badcfe;

pub const I3: u32 = 0x10325476;

/// The four 32-bit chaining words (A, B, C, D).
pub type Words = (u32, u32, u32, u32);

pub open spec fn initial_words() -> Words {
    (I0, I1, I2, I3)
}

/// Left rotation of a 32-bit word by `s` bits, `0 < s < 32`.
pub open spec fn rotl(x: u32, s: u32) -> u32 {
    (x << s) | (x >> ((32 - s) as u32))
}

pub open spec fn fun_f(x: u32, y: u32, z: u32) -> u32 {
    (x & y) | (!x & z)
}

pub open spec fn fun_g(x: u32, y: u32, z: u32) -> u32 {
    (x & y) | (x & z) | (y & z)
}

pub open spec fn fun_h(x: u32, y: u32, z: u32) -> u32 {
    x ^ y ^ z
}

/// Which message word step `n` (0..48) reads.
pub open spec fn msg_index(n: int) -> int {
    if n < 16 {
        n
    } else if n < 32 {
        (n - 16) / 4 + 4 * ((n - 16) % 4)
    } else {
        let q = (n - 32) / 4;
        let p = (n - 32) % 4;
        let base: int = if q == 0 {
            0
        } else if q == 1 {
            2
        } else if q == 2 {
            1
        } else {
            3
        };
        let off: int = if p == 0 {
            0
        } else if p == 1 {
            8
        } else if p == 2 {
            4
        } else {
            12
        };
        base + off
    }
}

/// The rotation amount of step `n`.
pub open spec fn shift(n: int) -> u32 {
    let p = n % 4;
    if n < 16 {
        if p == 0 {
            3
        } else if p == 1 {
            7
        } else if p == 2 {
            11
        } else {
            19
        }
    } else if n < 32 {
        if p == 0 {
            3
        } else if p == 1 {
            5
        } else if p == 2 {
            9
        } else {
            13
        }
    } else {
        if p == 0 {
            3
        } else if p == 1 {
            9
        } else if p == 2 {
            11
        } else {
            15
        }
    }
}

/// The additive constant of step `n`.
pub open spec fn round_const(n: int) -> u32 {
    if n < 16 {
        0
    } else if n < 32 {
        0x5a827999
    } else {
        0x6ED9EBA1
    }
}

/// The boolean function of step `n`.
pub open spec fn mix(n: int, x: u32, y: u32, z: u32) -> u32 {
    if n < 16 {
        fun_f(x, y, z)
    } else if n < 32 {
        fun_g(x, y, z)
    } else {
        fun_h(x, y, z)
    }
}

/// One step: the register in the A position is replaced, and the registers
/// rotate so that the next step's target is in the A position again.
pub open spec fn step(n: int, st: Words, x: Seq<u32>) -> Words {
    let t = st.0.wrapping_add(mix(n, st.1, st.2, st.3)).wrapping_add(x[msg_index(n)]).wrapping_add(
        round_const(n),
    );
    (st.3, rotl(t, shift(n)), st.1, st.2)
}

pub open spec fn rounds(n: nat, st: Words, x: Seq<u32>) -> Words
    decreases n,
{
    if n == 0 {
        st
    } else {
        step(n - 1, rounds((n - 1) as nat, st, x), x)
    }
}

/// Little-endian word `i` of a 64-byte block.
pub open spec fn word_at(blk: Seq<u8>, i: int) -> u32 {
    (blk[4 * i] as u32) | ((blk[4 * i + 1] as u32) << 8u32) | ((blk[4 * i + 2] as u32) << 16u32) | ((
    blk[4 * i + 3] as u32) << 24u32)
}

pub open spec fn block_words(blk: Seq<u8>) -> Seq<u32> {
    Seq::new(16, |i: int| word_at(blk, i))
}

/// The compression function on one 64-byte block.
pub open spec fn compress(st: Words, blk: Seq<u8>) -> Words {
    let r = rounds(48, st, block_words(blk));
    (
        st.0.wrapping_add(r.0),
        st.1.wrapping_add(r.1),
        st.2.wrapping_add(r.2),
        st.3.wrapping_add(r.3),
    )
}

/// Chaining over every whole 64-byte block of `m`, in order.
pub open spec fn blocks(st: Words, m: Seq<u8>) -> Words
    decreases m.len(),
{
    if m.len() < 64 {
        st
    } else {
        blocks(compress(st, m.take(64)), m.skip(64))
    }
}

/// The message length in bits, modulo 2^64.
pub open spec fn bit_length(len: nat) -> u64 {
    ((len * 8) % 0x1_0000_0000_0000_0000) as u64
}

pub open spec fn le_u64(v: u64) -> Seq<u8> {
    Seq::new(8, |j: int| (v >> ((8 * j) as u64)) as u8)
}

/// How many zero bytes follow the 0x80 marker.
pub open spec fn zero_count(len: nat) -> nat {
    ((119 - (len % 64) as int) % 64) as nat
}

/// The padding appended to a message of `len` bytes.
pub open spec fn pad_tail(len: nat) -> Seq<u8> {
    seq![0x80u8] + Seq::new(zero_count(len), |i: int| 0u8) + le_u64(bit_length(len))
}

pub open spec fn pad(m: Seq<u8>) -> Seq<u8> {
    m + pad_tail(m.len())
}

/// The 16 output bytes: the four words, each little-endian.
pub open spec fn words_bytes(w: Words) -> Seq<u8> {
    Seq::new(
        16,
        |i: int|
            {
                let v = if i < 4 {
                    w.0
                } else if i < 8 {
                    w.1
                } else if i < 12 {
                    w.2
                } else {
                    w.3
                };
                (v >> ((8 * (i % 4)) as u32)) as u8
            },
    )
}

/// The MD4 digest of a message.
pub open spec fn md4(m: Seq<u8>) -> Seq<u8> {
    words_bytes(blocks(initial_words(), pad(m)))
}

/// Chaining over `p + b`, where `p` is whole blocks and `b` is one block,
/// is one more compression after chaining over `p`.
pub proof fn lemma_blocks_extend(st: Words, p: Seq<u8>, b: Seq<u8>)
    requires
        p.len() % 64 == 0,
        b.len() == 64,
    ensures
        blocks(st, p + b) == compress(blocks(st, p), b),
    decreases p.len(),
{
    if p.len() == 0 {
        assert(p + b =~= b);
        assert(b.take(64) =~= b);
        assert(b.skip(64).len() == 0);
        assert(blocks(compress(st, b), b.skip(64)) == compress(st, b));
    } else {
        assert(p.len() >= 64);
        assert(p.skip(64).len() % 64 == 0);
        let pb = p + b;
        assert(pb.take(64) =~= p.take(64));
        assert(pb.skip(64) =~= p.skip(64) + b);
        lemma_blocks_extend(compress(st, p.take(64)), p.skip(64), b);
    }
}

pub proof fn lemma_pad_len(len: nat)
    ensures
        (len + pad_tail(len).len()) % 64 == 0,
        pad_tail(len).len() <= 72,
{
}

/// What the chaining state, the partial block and the bytes seen so far
/// must agree on.
pub open spec fn stream_inv(st: Words, buffer: Seq<u8>, stream: Seq<u8>) -> bool {
    let p = stream.len() - buffer.len();
    &&& buffer.len() < 64
    &&& p >= 0
    &&& p % 64 == 0
    &&& buffer == stream.skip(p)
    &&& st == blocks(initial_words(), stream.take(p))
}

pub struct Md4State {
    s0: u32,
    s1: u32,
    s2: u32,
    s3: u32,
}

impl Md4State {
    pub closed spec fn words(&self) -> Words {
        (self.s0, self.s1, self.s2, self.s3)
    }

    pub fn new() -> (r: Md4State)
        ensures
            r.words() == initial_words(),
    {
        Md4State { s0: I0, s1: I1, s2: I2, s3: I3 }
    }

    pub fn reset(&mut self)
        ensures
            final(self).words() == initial_words(),
    {
        self.s0 = I0;
        self.s1 = I1;
        self.s2 = I2;
        self.s3 = I3;
    }

    /// The four words, each little-endian.
    fn to_bytes(&self) -> (r: [u8; 16])
        ensures
            r@ == words_bytes(self.words()),
    {
        let r = [
            out_byte(self.s0, 0),
            out_byte(self.s0, 1),
            out_byte(self.s0, 2),
            out_byte(self.s0, 3),
            out_byte(self.s1, 0),
            out_byte(self.s1, 1),
            out_byte(self.s1, 2),
            out_byte(self.s1, 3),
            out_byte(self.s2, 0),
            out_byte(self.s2, 1),
            out_byte(self.s2, 2),
            out_byte(self.s2, 3),
            out_byte(self.s3, 0),
            out_byte(self.s3, 1),
            out_byte(self.s3, 2),
            out_byte(self.s3, 3),
        ];
        assert(r@ =~= words_bytes(self.words()));
        r
    }

    /// Compresses one 64-byte block into the state.
    pub fn process_block(&mut self, input: &[u8])
        requires
            input@.len() == 64,
        ensures
            final(self).words() == compress(old(self).words(), input@),
    {
        let mut x: Vec<u32> = Vec::new();
        let mut i: usize = 0;
        while i < 16
            invariant
                input@.len() == 64,
                i <= 16,
                x@ == Seq::new(i as nat, |k: int| word_at(input@, k)),
            decreases 16 - i,
        {
            let w = (input[4 * i] as u32) | ((input[4 * i + 1] as u32) << 8u32) | ((input[4 * i
                + 2] as u32) << 16u32) | ((input[4 * i + 3] as u32) << 24u32);
            x.push(w);
            i = i + 1;
        }
        assert(x@ =~= block_words(input@));
        let ghost st0 = self.words();
        let mut a = self.s0;
        let mut b = self.s1;
        let mut c = self.s2;
        let mut d = self.s3;
        let mut n: usize = 0;
        while n < 48
            invariant
                n <= 48,
                x@ == block_words(input@),
                (a, b, c, d) == rounds(n as nat, st0, x@),
            decreases 48 - n,
        {
            let r = md4_step(n, a, b, c, d, &x);
            a = r.0;
            b = r.1;
            c = r.2;
            d = r.3;
            n = n + 1;
        }
        self.s0 = self.s0.wrapping_add(a);
        self.s1 = self.s1.wrapping_add(b);
        self.s2 = self.s2.wrapping_add(c);
        self.s3 = self.s3.wrapping_add(d);
    }
}

fn md4_rotl(x: u32, s: u32) -> (r: u32)
    requires
        0 < s < 32,
    ensures
        r == rotl(x, s),
{
    (x << s) | (x >> (32 - s))
}

fn md4_msg_index(n: usize) -> (r: usize)
    requires
        n < 48,
    ensures
        r as int == msg_index(n as int),
        r < 16,
{
    if n < 16 {
        n
    } else if n < 32 {
        (n - 16) / 4 + 4 * ((n - 16) % 4)
    } else {
        let q = (n - 32) / 4;
        let p = (n - 32) % 4;
        let base: usize = if q == 0 {
            0
        } else if q == 1 {
            2
        } else if q == 2 {
            1
        } else {
            3
        };
        let off: usize = if p == 0 {
            0
        } else if p == 1 {
            8
        } else if p == 2 {
            4
        } else {
            12
        };
        base + off
    }
}

fn md4_shift(n: usize) -> (r: u32)
    requires
        n < 48,
    ensures
        r == shift(n as int),
        0 < r < 32,
{
    let p = n % 4;
    if n < 16 {
        if p == 0 {
            3
        } else if p == 1 {
            7
        } else if p == 2 {
            11
        } else {
            19
        }
    } else if n < 32 {
        if p == 0 {
            3
        } else if p == 1 {
            5
        } else if p == 2 {
            9
        } else {
            13
        }
    } else {
        if p == 0 {
            3
        } else if p == 1 {
            9
        } else if p == 2 {
            11
        } else {
            15
        }
    }
}

fn md4_step(n: usize, a: u32, b: u32, c: u32, d: u32, x: &Vec<u32>) -> (r: Words)
    requires
        n < 48,
        x@.len() == 16,
    ensures
        r == step(n as int, (a, b, c, d), x@),
{
    let m = if n < 16 {
        (b & c) | (!b & d)
    } else if n < 32 {
        (b & c) | (b & d) | (c & d)
    } else {
        b ^ c ^ d
    };
    let k: u32 = if n < 16 {
        0
    } else if n < 32 {
        0x5a827999
    } else {
        0x6ED9EBA1
    };
    let t = a.wrapping_add(m).wrapping_add(x[md4_msg_index(n)]).wrapping_add(k);
    (d, md4_rotl(t, md4_shift(n)), b, c)
}

/// Adds one byte to the stream: buffered, and compressed once a block is full.
fn feed_byte(state: &mut Md4State, buffer: &mut Vec<u8>, byte: u8, Ghost(stream): Ghost<Seq<u8>>)
    requires
        stream_inv(old(state).words(), old(buffer)@, stream),
    ensures
        stream_inv(final(state).words(), final(buffer)@, stream.push(byte)),
{
    let ghost p = stream.len() - buffer@.len();
    buffer.push(byte);
    let ghost s2 = stream.push(byte);
    assert(buffer@ =~= s2.skip(p));
    assert(stream.take(p) =~= s2.take(p));
    if buffer.len() == 64 {
        proof {
            lemma_blocks_extend(initial_words(), s2.take(p), buffer@);
            assert(s2.take(p) + buffer@ =~= s2.take(p + 64));
            assert(s2.skip(p + 64).len() == 0);
            assert((p + 64) % 64 == 0);
        }
        state.process_block(buffer.as_slice());
        buffer.clear();
        assert(buffer@ =~= s2.skip(p + 64));
    }
}

/// Adds every byte of `bytes` to the stream.
fn feed_all(state: &mut Md4State, buffer: &mut Vec<u8>, bytes: &Vec<u8>, Ghost(stream): Ghost<Seq<u8>>)
    requires
        stream_inv(old(state).words(), old(buffer)@, stream),
    ensures
        stream_inv(final(state).words(), final(buffer)@, stream + bytes@),
{
    let mut i: usize = 0;
    while i < bytes.len()
        invariant
            i <= bytes@.len(),
            stream_inv(state.words(), buffer@, stream + bytes@.take(i as int)),
        decreases bytes@.len() - i,
    {
        let ghost s = stream + bytes@.take(i as int);
        feed_byte(state, buffer, bytes[i], Ghost(s));
        assert(stream + bytes@.take(i + 1) =~= s.push(bytes[i as int]));
        i = i + 1;
    }
    assert(bytes@.take(bytes@.len() as int) =~= bytes@);
}

/// Streaming MD4 hasher.
pub struct Md4 {
    length_bytes: u64,
    buffer: Vec<u8>,
    state: Md4State,
    finished: bool,
    data: Ghost<Seq<u8>>,
}

impl View for Md4 {
    type V = Seq<u8>;

    /// Every byte handed to `input` since creation or the last reset.
    closed spec fn view(&self) -> Seq<u8> {
        self.data@
    }
}

impl Md4 {
    /// Whether `result` has been called since creation or the last reset.
    pub closed spec fn is_finished(&self) -> bool {
        self.finished
    }

    pub closed spec fn wf(&self) -> bool {
        &&& self.length_bytes as int == self.data@.len() % 0x1_0000_0000_0000_0000
        &&& if self.finished {
            self.state.words() == blocks(initial_words(), pad(self.data@))
        } else {
            stream_inv(self.state.words(), self.buffer@, self.data@)
        }
    }

    pub fn new() -> (r: Md4)
        ensures
            r.wf(),
            r@ == Seq::<u8>::empty(),
            !r.is_finished(),
    {
        let r = Md4 {
            length_bytes: 0,
            buffer: Vec::new(),
            state: Md4State::new(),
            finished: false,
            data: Ghost(Seq::empty()),
        };
        assert(r.data@.take(0) =~= Seq::<u8>::empty());
        assert(r.data@.skip(0) =~= Seq::<u8>::empty());
        r
    }

    /// Appends bytes to the message.
    pub fn input(&mut self, input: &[u8])
        requires
            old(self).wf(),
            !old(self).is_finished(),
        ensures
            final(self).wf(),
            !final(self).is_finished(),
            final(self)@ == old(self)@ + input@,
    {
        let ghost start = self.data@;
        let mut i: usize = 0;
        while i < input.len()
            invariant
                self.wf(),
                !self.finished,
                i <= input@.len(),
                self.data@ == start + input@.take(i as int),
            decreases input@.len() - i,
        {
            let ghost s = self.data@;
            feed_byte(&mut self.state, &mut self.buffer, input[i], Ghost(s));
            self.length_bytes = self.length_bytes.wrapping_add(1);
            self.data = Ghost(s.push(input[i as int]));
            assert(start + input@.take(i + 1) =~= s.push(input[i as int]));
            i = i + 1;
        }
        assert(input@.take(input@.len() as int) =~= input@);
    }

    pub fn reset(&mut self)
        ensures
            final(self).wf(),
            final(self)@ == Seq::<u8>::empty(),
            !final(self).is_finished(),
    {
        self.length_bytes = 0;
        self.buffer.clear();
        self.state.reset();
        self.finished = false;
        self.data = Ghost(Seq::empty());
        assert(self.data@.take(0) =~= Seq::<u8>::empty());
        assert(self.data@.skip(0) =~= Seq::<u8>::empty());
    }

    /// Finishes the message (once) and returns its digest.
    pub fn result(&mut self) -> (r: [u8; 16])
        requires
            old(self).wf(),
        ensures
            final(self).wf(),
            final(self).is_finished(),
            final(self)@ == old(self)@,
            r@ == md4(old(self)@),
    {
        if !self.finished {
            let tail = self.padding();
            let ghost base = self.data@;
            feed_all(&mut self.state, &mut self.buffer, &tail, Ghost(base));
            proof {
                lemma_pad_len(base.len());
                let full = base + tail@;
                assert(full.len() % 64 == 0);
                assert(full.take(full.len() as int) =~= full);
            }
            self.finished = true;
        }
        self.state.to_bytes()
    }

    /// The padding for the message seen so far.
    fn padding(&self) -> (r: Vec<u8>)
        requires
            self.wf(),
        ensures
            r@ == pad_tail(self@.len()),
    {
        let ghost len = self.data@.len();
        let mut r: Vec<u8> = Vec::new();
        r.push(0x80u8);
        let rem = self.length_bytes % 64;
        proof {
            lemma_mod_mod(len as int, 64, 0x400_0000_0000_0000int);
            assert(64 * 0x400_0000_0000_0000int == 0x1_0000_0000_0000_0000int);
        }
        assert(rem as int == len % 64);
        let zeros: u64 = if rem <= 55 {
            55 - rem
        } else {
            119 - rem
        };
        let mut k: u64 = 0;
        while k < zeros
            invariant
                k <= zeros,
                r@ == seq![0x80u8] + Seq::new(k as nat, |i: int| 0u8),
            decreases zeros - k,
        {
            r.push(0u8);
            k = k + 1;
            assert(r@ =~= seq![0x80u8] + Seq::new(k as nat, |i: int| 0u8));
        }
        let bits = self.length_bytes.wrapping_mul(8);
        proof {
            lemma_mul_mod_noop_left(len as int, 8, 0x1_0000_0000_0000_0000);
        }
        assert(bits == bit_length(len));
        let ghost head = r@;
        let mut j: u64 = 0;
        while j < 8
            invariant
                j <= 8,
                r@ == head + le_u64(bits).take(j as int),
            decreases 8 - j,
        {
            r.push((bits >> (8 * j)) as u8);
            j = j + 1;
            assert(r@ =~= head + le_u64(bits).take(j as int));
        }
        assert(le_u64(bits).take(8) =~= le_u64(bits));
        r
    }

    pub fn output_bits(&self) -> (r: usize)
        ensures
            r == 128,
    {
        128
    }

    pub fn block_size(&self) -> (r: usize)
        ensures
            r == 64,
    {
        64
    }
}

fn out_byte(w: u32, j: u32) -> (r: u8)
    requires
        j < 4,
    ensures
        r == (w >> ((8 * j) as u32)) as u8,
{
    (w >> (8 * j)) as u8
}

} // verus!
