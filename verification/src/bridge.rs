//! What crosses the boundary to the host: buffer descriptors, and the outcome
//! of the lookups made once at load time.
use vstd::prelude::*;

verus! {

/// An address and a length, naming a region of memory on the host's side.
#[derive(Clone, Copy, Debug, PartialEq, Eq, Structural)]
pub struct BufferDescriptor {
    pub address: i64,
    pub length: i32,
}

impl BufferDescriptor {
    /// The descriptor of nothing: no address, no length. It is what a failed
    /// call hands back.
    pub open spec fn null() -> BufferDescriptor {
        BufferDescriptor { address: 0, length: 0 }
    }

    /// An input descriptor names a region that can be read: its length is not
    /// negative, and it has an address unless it is empty.
    pub open spec fn readable(self) -> bool {
        self.length >= 0 && (self.address != 0 || self.length == 0)
    }

    /// The number of bytes to read from an input region, or `None` where the
    /// descriptor does not name one.
    pub fn input_len(&self) -> (len: Option<usize>)
        ensures
            len is Some <==> self.readable(),
            len matches Some(n) ==> n == self.length,
    {
        if self.length < 0 || (self.address == 0 && self.length != 0) {
            None
        } else {
            Some(self.length as usize)
        }
    }

    /// The descriptor that hands `len` bytes at `address` over to the host.
    /// An empty output gives the null descriptor, whatever its address. An
    /// output longer than a descriptor can say gives `None`.
    pub fn for_output(address: i64, len: usize) -> (descriptor: Option<BufferDescriptor>)
        ensures
            descriptor is None <==> len > i32::MAX,
            len == 0 ==> descriptor == Some(BufferDescriptor::null()),
            0 < len <= i32::MAX ==> descriptor == Some(
                (BufferDescriptor { address, length: len as i32 }),
            ),
    {
        if len == 0 {
            Some(BufferDescriptor { address: 0, length: 0 })
        } else if len > i32::MAX as usize {
            None
        } else {
            Some(BufferDescriptor { address, length: len as i32 })
        }
    }
}

/// Settles the lookup of the descriptor class: the class that was found is
/// kept for later calls, and a failed lookup leaves nothing to keep.
pub fn get_class<C, E>(found: Result<C, E>) -> (class: Option<C>)
    ensures
        found matches Ok(c) ==> class == Some(c),
        found is Err ==> class is None,
{
    match found {
        Ok(c) => Some(c),
        Err(_) => None,
    }
}

/// Settles the lookup of the constructor of the descriptor class, in the same
/// way: the constructor that was found is kept, and a failed lookup leaves
/// nothing to keep.
pub fn get_constructor<M, E>(found: Result<M, E>) -> (constructor: Option<M>)
    ensures
        found matches Ok(m) ==> constructor == Some(m),
        found is Err ==> constructor is None,
{
    match found {
        Ok(m) => Some(m),
        Err(_) => None,
    }
}

} // verus!
