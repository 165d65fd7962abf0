//! Descriptors exchanged through shared-memory ring buffers.
use core::ops::Range;
use vstd::prelude::*;

verus! {

/// Marker for values that can travel through a shared ring buffer.
pub trait Descriptor {}

/// A buffer descriptor: an encoded start address and a length in bytes.
#[derive(Copy, Clone, Debug, PartialEq, Eq, Structural, PartialOrd, Ord)]
pub struct NetworkDescriptor {
    encoded_addr: usize,
    len: u16,
}

impl Descriptor for NetworkDescriptor {}

impl NetworkDescriptor {
    pub closed spec fn spec_encoded_addr(&self) -> usize {
        self.encoded_addr
    }

    pub closed spec fn spec_len(&self) -> u16 {
        self.len
    }

    pub fn new(encoded_addr: usize, len: u16) -> (r: Self)
        ensures
            r.spec_encoded_addr() == encoded_addr,
            r.spec_len() == len,
    {
        Self { encoded_addr, len }
    }

    /// Builds a descriptor covering `encoded_addr_range`. A range whose end lies
    /// before its start is empty.
    pub fn from_encoded_addr_range(encoded_addr_range: Range<usize>) -> (r: Self)
        requires
            encoded_addr_range.start <= encoded_addr_range.end ==> encoded_addr_range.end
                - encoded_addr_range.start <= u16::MAX,
        ensures
            r.spec_encoded_addr() == encoded_addr_range.start,
            r.spec_len() == (if encoded_addr_range.start <= encoded_addr_range.end {
                encoded_addr_range.end - encoded_addr_range.start
            } else {
                0
            }),
    {
        let encoded_addr = encoded_addr_range.start;
        let len: u16 = if encoded_addr_range.start <= encoded_addr_range.end {
            (encoded_addr_range.end - encoded_addr_range.start) as u16
        } else {
            0
        };
        Self::new(encoded_addr, len)
    }

    pub fn encoded_addr(&self) -> (r: usize)
        ensures
            r == self.spec_encoded_addr(),
    {
        self.encoded_addr
    }

    pub fn set_encoded_addr(&mut self, encoded_addr: usize)
        ensures
            final(self).spec_encoded_addr() == encoded_addr,
            final(self).spec_len() == old(self).spec_len(),
    {
        self.encoded_addr = encoded_addr;
    }

    pub fn len(&self) -> (r: u16)
        ensures
            r == self.spec_len(),
    {
        self.len
    }

    pub fn set_len(&mut self, len: u16)
        ensures
            final(self).spec_len() == len,
            final(self).spec_encoded_addr() == old(self).spec_encoded_addr(),
    {
        self.len = len;
    }

    /// The address range `[encoded_addr, encoded_addr + len)`.
    pub fn encoded_addr_range(&self) -> (r: Range<usize>)
        requires
            self.spec_encoded_addr() + self.spec_len() <= usize::MAX,
        ensures
            r.start == self.spec_encoded_addr(),
            r.end == self.spec_encoded_addr() + self.spec_len(),
    {
        let start = self.encoded_addr();
        let len = self.len() as usize;
        start..start + len
    }
}

} // verus!
