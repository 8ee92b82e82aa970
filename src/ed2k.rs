//! ED2K fingerprints: MD4 over blocks of 9500 KiB, with a single-block rule.
use crate::md4::{md4, Md4};
use crate::text::{hex_of, lemma_hex_lowercase, is_lower_hex_char, to_hex};
use vstd::prelude::*;
use vstd::slice::slice_subrange;

verus! {

/// The block size of the ED2K tree: 9500 * 1024 bytes.
pub const BLOCKSIZE: usize = 9728000;

/// The MD4 digests of the consecutive blocks of `data`, concatenated; the
/// last block may be short, and there is no trailing empty block.
pub open spec fn block_digests(data: Seq<u8>) -> Seq<u8>
    decreases data.len(),
{
    if data.len() == 0 {
        Seq::empty()
    } else if data.len() <= BLOCKSIZE {
        md4(data)
    } else {
        md4(data.take(BLOCKSIZE as int)) + block_digests(data.skip(BLOCKSIZE as int))
    }
}

/// The ED2K digest of file contents: the MD4 of the contents when they fit in
/// one block (an empty file included), else the MD4 of the block digests.
pub open spec fn ed2k(data: Seq<u8>) -> Seq<u8> {
    if data.len() <= BLOCKSIZE {
        md4(data)
    } else {
        md4(block_digests(data))
    }
}

/// Digests of whole blocks followed by the digest of one more, possibly short, block.
pub proof fn lemma_block_digests_append(done: Seq<u8>, cur: Seq<u8>)
    requires
        done.len() % (BLOCKSIZE as nat) == 0,
        0 < cur.len() <= BLOCKSIZE,
    ensures
        block_digests(done + cur) == block_digests(done) + md4(cur),
    decreases done.len(),
{
    if done.len() == 0 {
        assert(done + cur =~= cur);
        assert(block_digests(done) + md4(cur) =~= md4(cur));
    } else {
        assert(done.len() >= BLOCKSIZE);
        let dc = done + cur;
        assert(dc.take(BLOCKSIZE as int) =~= done.take(BLOCKSIZE as int));
        assert(dc.skip(BLOCKSIZE as int) =~= done.skip(BLOCKSIZE as int) + cur);
        lemma_block_digests_append(done.skip(BLOCKSIZE as int), cur);
        if done.len() == BLOCKSIZE {
            assert(done.take(BLOCKSIZE as int) =~= done);
            assert(done.skip(BLOCKSIZE as int) =~= Seq::<u8>::empty());
        }
    }
}

/// A fingerprint: the 16-byte ED2K digest, its lowercase hex form, and the size.
#[derive(Debug)]
pub struct Ed2kHash {
    pub bin: [u8; 16],
    pub size: u64,
    pub hex: String,
}

impl Ed2kHash {
    /// The fingerprint of in-memory file contents.
    pub fn from_bytes(data: &[u8]) -> (r: Ed2kHash)
        ensures
            r.bin@ == ed2k(data@),
            r.size == data@.len(),
            r.hex@ == hex_of(r.bin@),
            r.hex@.len() == 32,
            forall|i: int| 0 <= i < 32 ==> is_lower_hex_char(#[trigger] r.hex@[i]),
    {
        // Reading the length brings in that it fits in a machine word.
        let _len = data.len();
        let mut h = Ed2kHasher::new();
        h.update(data);
        h.finish()
    }

    /// Lowercase hex rendering of a digest: 32 characters `[0-9a-f]`.
    pub fn hex(bin: [u8; 16]) -> (r: String)
        ensures
            r@ == hex_of(bin@),
            r@.len() == 32,
            forall|i: int| 0 <= i < 32 ==> is_lower_hex_char(#[trigger] r@[i]),
    {
        proof {
            lemma_hex_lowercase(bin@);
        }
        to_hex(&bin)
    }
}

/// Incremental ED2K hashing over contents handed in pieces of any size.
pub struct Ed2kHasher {
    block: Md4,
    block_len: usize,
    digests: Vec<u8>,
    size: u64,
    data: Ghost<Seq<u8>>,
}

impl View for Ed2kHasher {
    type V = Seq<u8>;

    /// Every byte handed in so far.
    closed spec fn view(&self) -> Seq<u8> {
        self.data@
    }
}

impl Ed2kHasher {
    pub closed spec fn wf(&self) -> bool {
        &&& self.parts_agree()
        &&& self.data@.len() - self.block_len > 0 ==> self.block_len > 0
    }

    /// The digests, the open block and the contents agree.
    closed spec fn parts_agree(&self) -> bool {
        let done = self.data@.take(self.data@.len() - self.block_len);
        &&& self.block.wf()
        &&& !self.block.is_finished()
        &&& self.block_len <= BLOCKSIZE
        &&& self.block@.len() == self.block_len
        &&& self.block_len <= self.data@.len()
        &&& self.data@ == done + self.block@
        &&& done.len() % (BLOCKSIZE as nat) == 0
        &&& self.digests@ == block_digests(done)
        &&& self.size == self.data@.len()
    }

    pub fn new() -> (r: Ed2kHasher)
        ensures
            r.wf(),
            r@ == Seq::<u8>::empty(),
    {
        let r = Ed2kHasher {
            block: Md4::new(),
            block_len: 0,
            digests: Vec::new(),
            size: 0,
            data: Ghost(Seq::empty()),
        };
        assert(r.data@.take(0) =~= Seq::<u8>::empty());
        assert(r.data@ =~= Seq::<u8>::empty() + r.block@);
        r
    }

    /// How many bytes were handed in so far.
    pub fn size(&self) -> (r: u64)
        requires
            self.wf(),
        ensures
            r == self@.len(),
    {
        self.size
    }

    /// Appends bytes to the contents.
    pub fn update(&mut self, input: &[u8])
        requires
            old(self).wf(),
            old(self)@.len() + input@.len() <= u64::MAX,
        ensures
            final(self).wf(),
            final(self)@ == old(self)@ + input@,
    {
        let ghost start = self.data@;
        let mut i: usize = 0;
        while i < input.len()
            invariant
                self.wf(),
                i <= input@.len(),
                self.data@ == start + input@.take(i as int),
                start.len() + input@.len() <= u64::MAX,
            decreases input@.len() - i,
        {
            if self.block_len == BLOCKSIZE {
                self.close_block();
            }
            let room = BLOCKSIZE - self.block_len;
            let end = if input.len() - i < room {
                input.len()
            } else {
                i + room
            };
            let piece = slice_subrange(input, i, end);
            let ghost before = self.data@;
            let ghost done = before.take(before.len() - self.block_len);
            self.block.input(piece);
            self.block_len = self.block_len + (end - i);
            self.size = self.size + (end - i) as u64;
            self.data = Ghost(before + piece@);
            proof {
                let after = self.data@;
                assert(after.take(after.len() - self.block_len) =~= done);
                assert(after =~= done + self.block@);
                assert(start + input@.take(end as int) =~= before + piece@);
            }
            i = end;
        }
        assert(input@.take(input@.len() as int) =~= input@);
    }

    /// Closes a full block: its digest joins the list and a new block starts.
    fn close_block(&mut self)
        requires
            old(self).parts_agree(),
            old(self).block_len == BLOCKSIZE,
        ensures
            final(self).parts_agree(),
            final(self)@ == old(self)@,
            final(self).block_len == 0,
    {
        let ghost done = self.data@.take(self.data@.len() - self.block_len);
        let ghost cur = self.block@;
        let d = self.block.result();
        append_digest(&mut self.digests, d);
        self.block.reset();
        self.block_len = 0;
        proof {
            lemma_block_digests_append(done, cur);
            let all = self.data@;
            assert(all.take(all.len() - 0) =~= all);
            assert(all =~= done + cur);
            assert(all =~= all + self.block@);
            assert(all.len() == done.len() + BLOCKSIZE);
            assert(all.len() % (BLOCKSIZE as nat) == 0) by {
                vstd::arithmetic::div_mod::lemma_mod_adds(done.len() as int, BLOCKSIZE as int, BLOCKSIZE as int);
            }
        }
    }

    /// The fingerprint of everything handed in.
    pub fn finish(self) -> (r: Ed2kHash)
        requires
            self.wf(),
        ensures
            r.bin@ == ed2k(self@),
            r.size == self@.len(),
            r.hex@ == hex_of(r.bin@),
            r.hex@.len() == 32,
            forall|i: int| 0 <= i < 32 ==> is_lower_hex_char(#[trigger] r.hex@[i]),
    {
        let ghost done = self.data@.take(self.data@.len() - self.block_len);
        let ghost cur = self.block@;
        let mut block = self.block;
        let last = block.result();
        let bin = if self.digests.len() == 0 {
            assert(self.data@ =~= cur);
            last
        } else {
            let mut all = self.digests;
            append_digest(&mut all, last);
            proof {
                lemma_block_digests_append(done, cur);
                assert(done.len() >= BLOCKSIZE);
            }
            let mut outer = Md4::new();
            outer.input(all.as_slice());
            proof {
                assert(Seq::<u8>::empty() + all@ =~= all@);
            }
            outer.result()
        };
        Ed2kHash { bin, size: self.size, hex: Ed2kHash::hex(bin) }
    }
}

fn append_digest(v: &mut Vec<u8>, d: [u8; 16])
    ensures
        final(v)@ == old(v)@ + d@,
{
    let mut k: usize = 0;
    while k < 16
        invariant
            k <= 16,
            v@ == old(v)@ + d@.take(k as int),
        decreases 16 - k,
    {
        v.push(d[k]);
        k = k + 1;
        assert(v@ =~= old(v)@ + d@.take(k as int));
    }
    assert(d@.take(16) =~= d@);
}

/// Contents that fit in one block hash to their plain MD4.
pub proof fn lemma_single_block(data: Seq<u8>)
    requires
        data.len() <= BLOCKSIZE,
    ensures
        ed2k(data) == md4(data),
{
}

/// Longer contents hash to the MD4 of the concatenated MD4 digests of their
/// blocks, in order.
pub proof fn lemma_multi_block(data: Seq<u8>)
    requires
        data.len() > BLOCKSIZE,
    ensures
        ed2k(data) == md4(block_digests(data)),
        block_digests(data) == md4(data.take(BLOCKSIZE as int)) + block_digests(
            data.skip(BLOCKSIZE as int),
        ),
{
}

} // verus!
