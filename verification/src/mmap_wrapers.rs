//! What the library keeps of a memory mapping: where it lies and how long
//! it is. The mapping itself is made and released by the caller.

use vstd::prelude::*;

verus! {

/// A mapped range of addresses.
pub trait Mmap: Sized {
    /// The first address of the mapping.
    spec fn spec_base(&self) -> usize;

    /// The number of bytes of the mapping.
    spec fn spec_length(&self) -> usize;

    fn as_ptr(&self) -> (r: usize)
        ensures
            r == self.spec_base(),
    ;

    fn length(&self) -> (r: usize)
        ensures
            r == self.spec_length(),
    ;

    /// The same mapping after the caller has remapped it to `new_size` bytes
    /// at `new_base`.
    fn resize(self, new_base: usize, new_size: usize) -> (r: Self)
        ensures
            r.spec_base() == new_base,
            r.spec_length() == new_size,
    ;
}

/// The address of the window of `length` bytes that starts `offset` bytes
/// into the mapping, if the window lies inside the mapping.
pub open spec fn spec_window<M: Mmap>(m: &M, offset: usize, length: usize) -> Option<int> {
    if offset + length > m.spec_length() {
        None
    } else {
        Some(m.spec_base() + offset)
    }
}

/// The address of the window of `length` bytes that starts `offset` bytes
/// into the mapping; `None` if the window reaches beyond the mapping.
pub fn with_slice<M: Mmap>(m: &M, offset: usize, length: usize) -> (r: Option<usize>)
    requires
        m.spec_base() + m.spec_length() <= usize::MAX,
    ensures
        r is Some <==> spec_window(m, offset, length) is Some,
        r is Some ==> r->0 == spec_window(m, offset, length)->0,
{
    let len = m.length();
    if offset > len || length > len - offset {
        None
    } else {
        Some(m.as_ptr() + offset)
    }
}

/// An anonymous mapping.
#[derive(Debug, Clone, Copy, PartialEq, Eq, Structural)]
pub struct BaseMmap {
    pub base: usize,
    pub len: usize,
}

impl BaseMmap {
    /// The record of a mapping of `length` bytes that the caller made at
    /// `base`.
    pub fn new(base: usize, length: usize) -> (r: BaseMmap)
        ensures
            r.base == base,
            r.len == length,
    {
        BaseMmap { base, len: length }
    }

    pub fn as_ptr(&self) -> (r: usize)
        ensures
            r == self.base,
    {
        self.base
    }

    /// The mapping ends at an address that the machine word holds.
    pub open spec fn wf(&self) -> bool {
        self.base + self.len <= usize::MAX
    }

    /// Whether `addr` lies in the mapping.
    pub open spec fn spec_contains(&self, addr: usize) -> bool {
        self.base <= addr < self.base + self.len
    }

    /// Whether `addr` lies in the mapping.
    pub fn contains(&self, addr: usize) -> (r: bool)
        ensures
            r == self.spec_contains(addr),
    {
        self.base <= addr && addr - self.base < self.len
    }
}

impl Mmap for BaseMmap {
    open spec fn spec_base(&self) -> usize {
        self.base
    }

    open spec fn spec_length(&self) -> usize {
        self.len
    }

    fn as_ptr(&self) -> (r: usize) {
        self.base
    }

    fn length(&self) -> (r: usize) {
        self.len
    }

    fn resize(self, new_base: usize, new_size: usize) -> (r: Self) {
        BaseMmap { base: new_base, len: new_size }
    }
}

/// A mapping of a file that the caller opened, with the file's descriptor.
#[derive(Debug, Clone, Copy, PartialEq, Eq, Structural)]
pub struct MmapFd {
    pub mmap: BaseMmap,
    pub fd: i32,
}

impl MmapFd {
    /// The record of a mapping of `length` bytes that the caller made at
    /// `base` from the file `fd`.
    pub fn new(base: usize, length: usize, fd: i32) -> (r: MmapFd)
        ensures
            r.mmap.base == base,
            r.mmap.len == length,
            r.fd == fd,
    {
        MmapFd { mmap: BaseMmap::new(base, length), fd }
    }
}

impl Mmap for MmapFd {
    open spec fn spec_base(&self) -> usize {
        self.mmap.base
    }

    open spec fn spec_length(&self) -> usize {
        self.mmap.len
    }

    fn as_ptr(&self) -> (r: usize) {
        self.mmap.as_ptr()
    }

    fn length(&self) -> (r: usize) {
        self.mmap.len
    }

    fn resize(self, new_base: usize, new_size: usize) -> (r: Self) {
        MmapFd { mmap: self.mmap.resize(new_base, new_size), fd: self.fd }
    }
}

} // verus!
