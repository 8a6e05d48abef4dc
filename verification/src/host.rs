//! Memory of this process, and where it lies.

use crate::block::host_addr;
use vstd::prelude::*;

verus! {

/// The address of the first byte of some memory of this process.
///
/// Only memory has one ([`HostMemory::addr`]); no number can be made into one.
#[derive(Clone, Copy)]
pub struct HostAddr {
    at: usize,
}

impl HostAddr {
    /// The address, as a number.
    pub closed spec fn value(self) -> usize {
        self.at
    }

    /// The address, as a number.
    pub fn number(&self) -> (n: usize)
        ensures
            n == self.value(),
    {
        self.at
    }
}

/// Memory together with its address. It never grows, so it never moves, and the
/// two belong together for as long as it lives.
pub struct HostMemory {
    bytes: Vec<u8>,
    at: HostAddr,
}

impl HostMemory {
    /// The bytes.
    pub closed spec fn view(&self) -> Seq<u8> {
        self.bytes@
    }

    /// Where the first byte is.
    pub closed spec fn addr(self) -> HostAddr {
        self.at
    }

    /// The memory of `bytes`, wherever that is.
    pub fn of(bytes: Vec<u8>) -> (m: HostMemory)
        ensures
            m@ == bytes@,
    {
        let at: HostAddr = HostAddr { at: host_addr(&bytes) };
        HostMemory { bytes, at }
    }

    /// Where the first byte is, as a number.
    pub fn number(&self) -> (n: usize)
        ensures
            n == self.addr().value(),
    {
        self.at.number()
    }

    /// Memory is no larger than the machine can address.
    pub proof fn memory_is_addressable(&self)
        ensures
            self@.len() <= usize::MAX,
    {
        assert(self.bytes@.len() == self.bytes.len());
    }

    /// All of the bytes.
    pub fn as_slice(&self) -> (s: &[u8])
        ensures
            s@ == self@,
    {
        self.bytes.as_slice()
    }

    /// All of the bytes, to be written to.
    pub fn as_mut_slice(&mut self) -> (s: &mut [u8])
        ensures
            s@ == old(self)@,
            final(self)@ == final(s)@,
            final(self).addr() == old(self).addr(),
    {
        self.bytes.as_mut_slice()
    }

    /// Writes one byte.
    pub fn set(&mut self, i: usize, b: u8)
        requires
            i < old(self)@.len(),
        ensures
            final(self)@ == old(self)@.update(i as int, b),
            final(self).addr() == old(self).addr(),
    {
        self.bytes.set(i, b);
    }
}

} // verus!
