//! Transfer blocks: which whole blocks cover a byte range of a backing file,
//! and the aligned scratch memory that such blocks are read into.

use crate::host::HostAddr;
use crate::host::HostMemory;
use vstd::prelude::*;

verus! {

/// Granularity of a direct (unbuffered) transfer, in bytes.
pub const BLOCK: usize = 4096;

/// The whole blocks that hold `len` bytes of a file from some byte on.
#[derive(Clone, Copy, Debug, PartialEq, Eq, Structural)]
pub struct Span {
    /// File offset of the first block, a multiple of `BLOCK`.
    pub block_off: u64,
    /// Where the bytes start inside the first block.
    pub within: usize,
    /// How many bytes are wanted.
    pub len: usize,
    /// How many blocks to read.
    pub nblocks: usize,
}

impl Span {
    /// `self` is the shortest run of whole blocks that holds bytes
    /// `byte .. byte + len`, for a `len` of at most one block.
    pub open spec fn covers(self, byte: int, len: int) -> bool {
        &&& self.block_off == byte - byte % BLOCK as int
        &&& self.within == byte % BLOCK as int
        &&& self.len == len
        &&& self.nblocks == if byte % BLOCK as int + len > BLOCK { 2int } else { 1int }
    }

    /// How many bytes a read of the blocks must yield to reach the last
    /// wanted byte.
    pub open spec fn spec_need(self) -> int {
        self.within + self.len
    }

    /// A span that `cover` can give.
    pub open spec fn wf(self) -> bool {
        &&& self.within < BLOCK
        &&& self.len <= BLOCK
        &&& 1 <= self.nblocks <= 2
        &&& self.within + self.len <= self.nblocks * BLOCK
    }

    /// How many bytes a read of the blocks must yield to reach the last
    /// wanted byte.
    pub fn need(&self) -> (n: usize)
        requires
            self.wf(),
        ensures
            n == self.spec_need(),
    {
        self.within + self.len
    }
}

/// The blocks to read for bytes `byte .. byte + len`.
///
/// One block, or two where the bytes cross a block boundary, which happens
/// whenever a table does not start on one.
pub fn cover(byte: u64, len: usize) -> (span: Span)
    requires
        len <= BLOCK,
    ensures
        span.covers(byte as int, len as int),
        span.wf(),
{
    let phase: u64 = byte % BLOCK as u64;
    proof {
        vstd::arithmetic::div_mod::lemma_mod_decreases(byte as nat, BLOCK as nat);
    }
    let block_off: u64 = byte - phase;
    let within: usize = phase as usize;
    let nblocks: usize = if within + len > BLOCK { 2 } else { 1 };
    Span { block_off, within, len, nblocks }
}

/// Two blocks always reach the end of a range no longer than one block,
/// wherever it starts, and one block does where the range stays inside it.
pub proof fn two_blocks_cover_any_row(byte: int, len: int, span: Span)
    requires
        0 <= byte,
        0 <= len <= BLOCK,
        span.covers(byte, len),
    ensures
        span.block_off % BLOCK as u64 == 0,
        span.block_off <= byte,
        byte + len <= span.block_off + span.nblocks * BLOCK,
        span.nblocks <= 2,
        span.nblocks == 1 <==> byte % BLOCK as int + len <= BLOCK,
{
    vstd::arithmetic::div_mod::lemma_fundamental_div_mod(byte, BLOCK as int);
    vstd::arithmetic::div_mod::lemma_mod_multiples_basic(byte / BLOCK as int, BLOCK as int);
}

/// The address of the first byte of `buf`, as a number.
///
/// Calls `Vec::as_ptr`. Nothing is claimed of the number: it is whatever
/// the allocator gave.
#[verifier::external_body]
pub(crate) fn host_addr(buf: &Vec<u8>) -> usize {
    buf.as_ptr() as usize
}

/// How far past `addr` the next block-aligned address lies.
pub fn align_offset(addr: usize) -> (off: usize)
    ensures
        off < BLOCK,
        (addr + off) % BLOCK as int == 0,
{
    let off: usize = (BLOCK - (addr % BLOCK)) % BLOCK;
    off
}

/// Host memory that starts on a block boundary: the scratch that direct
/// reads land in.
///
/// The memory is over-allocated by one block and `off` is where the aligned
/// part of it starts.
pub struct AlignedBlock {
    mem: HostMemory,
    off: usize,
    /// The start was chosen by where the memory lies.
    by_address: bool,
}

impl AlignedBlock {
    /// Two whole blocks fit behind the aligned start.
    pub closed spec fn wf(self) -> bool {
        &&& self.mem@.len() == 3 * BLOCK
        &&& self.off < BLOCK
    }

    /// Scratch that is in order has three blocks of memory, and its aligned part
    /// starts in the first of them.
    pub proof fn wf_is_room_for_two(self)
        requires
            self.wf(),
        ensures
            self.memory().len() == 3 * BLOCK,
            0 <= self.offset() < BLOCK,
    {
    }

    /// Where the aligned part starts in the memory.
    pub closed spec fn offset(self) -> int {
        self.off as int
    }

    /// Where the memory lies, where the start was chosen by that.
    pub closed spec fn host(self) -> Option<HostAddr> {
        if self.by_address {
            Some(self.mem.addr())
        } else {
            None
        }
    }

    /// All of the memory, the unaligned head included.
    pub closed spec fn memory(self) -> Seq<u8> {
        self.mem@
    }

    /// Fresh zeroed scratch.
    ///
    /// Two blocks: bytes that do not start on a block boundary can cross one
    /// boundary, and no more, as long as they are no more than one block.
    /// Where in the memory the aligned part starts follows from the address
    /// that the allocator gave, by [`Self::aligned_at`].
    pub fn new() -> (b: AlignedBlock)
        ensures
            b.wf(),
            0 <= b.offset() < BLOCK,
            b.memory() == Seq::new(3 * BLOCK as nat, |i: int| 0u8),
            b.host() is Some,
            ((b.host()->0).value() + b.offset()) % BLOCK as int == 0,
    {
        let buf = vec![0u8;BLOCK * 3];
        assert(buf@ =~= Seq::new(3 * BLOCK as nat, |i: int| 0u8));
        let mem: HostMemory = HostMemory::of(buf);
        let off: usize = align_offset(mem.number());
        AlignedBlock { mem, off, by_address: true }
    }

    /// Scratch over `buf`, whose first byte is at address `addr`: the aligned
    /// part starts at the first block-aligned address from there on.
    pub fn aligned_at(buf: Vec<u8>, addr: usize) -> (b: AlignedBlock)
        requires
            buf@.len() == 3 * BLOCK,
        ensures
            b.wf(),
            b.memory() == buf@,
            (addr + b.offset()) % BLOCK as int == 0,
            0 <= b.offset() < BLOCK,
    {
        let off: usize = align_offset(addr);
        AlignedBlock { mem: HostMemory::of(buf), off, by_address: false }
    }

    /// The first `n` whole blocks of the aligned part.
    pub fn blocks(&mut self, n: usize) -> (s: &mut [u8])
        requires
            old(self).wf(),
            n <= 2,
        ensures
            s@ == old(self).memory().subrange(
                old(self).offset(),
                old(self).offset() + n * BLOCK,
            ),
            s@.len() == n * BLOCK,
            final(self).offset() == old(self).offset(),
            final(self).host() == old(self).host(),
            final(self).memory() == old(self).memory().subrange(0, old(self).offset())
                + final(s)@ + old(self).memory().subrange(
                old(self).offset() + n * BLOCK,
                old(self).memory().len() as int,
            ),
            final(s)@.len() == n * BLOCK ==> final(self).wf(),
    {
        let off: usize = self.off;
        let all = self.mem.as_mut_slice();
        let (_head, tail) = all.split_at_mut(off);
        let (mid, _rest) = tail.split_at_mut(n * BLOCK);
        mid
    }
}

} // verus!
