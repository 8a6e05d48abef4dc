//! The flat memory that the slots lie in.

use crate::block::BLOCK;
use crate::host::HostAddr;
use crate::host::HostMemory;
use crate::share::ceil_div;
use crate::share::div_ceil;
use vstd::prelude::*;
use vstd::slice::slice_subrange;

verus! {

/// `memory` with `bytes` written over it from `at` on.
pub open spec fn written(memory: Seq<u8>, at: int, bytes: Seq<u8>) -> Seq<u8> {
    Seq::new(
        memory.len(),
        |i: int|
            if at <= i < at + bytes.len() {
                bytes[i - at]
            } else {
                memory[i]
            },
    )
}

/// `len`, rounded up to whole blocks.
pub fn whole_blocks(len: usize) -> (n: usize)
    requires
        ceil_div(len as int, BLOCK as int) * BLOCK <= usize::MAX,
    ensures
        n == ceil_div(len as int, BLOCK as int) * BLOCK,
{
    div_ceil(len, BLOCK) * BLOCK
}

/// A flat region of memory, together with the address at which it is read.
///
/// A caller that has made a region readable for a device hands it over with the
/// address that the device uses ([`Self::at`]). A region that is made here
/// ([`Self::new`]) is ordinary host memory at its host address, which is also
/// the device's only where the two share their addresses. A region never grows,
/// so it never moves.
pub struct RowArena {
    mem: HostMemory,
    /// The address that the region was handed over with. A region that was made
    /// here is at the address where it lies.
    given: Option<u64>,
}

impl RowArena {
    /// The bytes of the region.
    pub closed spec fn view(&self) -> Seq<u8> {
        self.mem@
    }

    /// The address of the first byte.
    pub closed spec fn va(self) -> u64 {
        match self.given {
            Some(va) => va,
            None => self.mem.addr().value() as u64,
        }
    }

    /// Where the memory lies, where it was made here.
    pub closed spec fn host(self) -> Option<HostAddr> {
        match self.given {
            Some(_) => None,
            None => Some(self.mem.addr()),
        }
    }

    /// A zeroed region of whole blocks with room for `len` bytes, at whatever
    /// address it was given.
    pub fn new(len: usize) -> (a: RowArena)
        requires
            ceil_div(len as int, BLOCK as int) * BLOCK <= usize::MAX,
        ensures
            a@ == Seq::new((ceil_div(len as int, BLOCK as int) * BLOCK) as nat, |i: int| 0u8),
            a.host() is Some,
            a.va() == (a.host()->0).value(),
    {
        let all: usize = whole_blocks(len);
        let bytes = vec![0u8;all];
        assert(bytes@ =~= Seq::new(all as nat, |i: int| 0u8));
        RowArena { mem: HostMemory::of(bytes), given: None }
    }

    /// The region over `bytes`, whose first byte is at `dev_va`.
    pub fn at(bytes: Vec<u8>, dev_va: u64) -> (a: RowArena)
        ensures
            a@ == bytes@,
            a.va() == dev_va,
            a.host() is None,
    {
        RowArena { mem: HostMemory::of(bytes), given: Some(dev_va) }
    }

    /// A region is no larger than the machine can address.
    pub proof fn region_is_addressable(&self)
        ensures
            self@.len() <= usize::MAX,
    {
        self.mem.memory_is_addressable();
    }

    /// The address of the first byte.
    pub fn base(&self) -> (va: u64)
        ensures
            va == self.va(),
    {
        match self.given {
            Some(va) => va,
            None => self.mem.number() as u64,
        }
    }

    /// The `len` bytes from `from` on.
    pub fn read(&self, from: usize, len: usize) -> (s: &[u8])
        requires
            from + len <= self@.len(),
        ensures
            s@ == self@.subrange(from as int, from + len),
    {
        proof {
            self.mem.memory_is_addressable();
        }
        slice_subrange(self.mem.as_slice(), from, from + len)
    }

    /// Writes `src` from `from` on.
    pub fn write(&mut self, from: usize, src: &[u8])
        requires
            from + src@.len() <= old(self)@.len(),
        ensures
            final(self)@ == written(old(self)@, from as int, src@),
            final(self).va() == old(self).va(),
            final(self).host() == old(self).host(),
    {
        let ghost before = self.mem@;
        let mut i: usize = 0;
        proof {
            self.mem.memory_is_addressable();
        }
        assert(self.mem@ =~= written(before, from as int, src@.take(0)));
        while i < src.len()
            invariant
                i <= src@.len(),
                from + src@.len() <= before.len(),
                before.len() == self.mem@.len(),
                before.len() <= usize::MAX,
                self.given == old(self).given,
                self.mem.addr() == old(self).mem.addr(),
                self.mem@ == written(before, from as int, src@.take(i as int)),
            decreases src@.len() - i,
        {
            self.mem.set(from + i, src[i]);
            i = i + 1;
            assert(self.mem@ =~= written(before, from as int, src@.take(i as int)));
        }
        assert(src@.take(src@.len() as int) =~= src@);
    }
}

} // verus!
