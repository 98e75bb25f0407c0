//! What goes through sockets.

use vstd::prelude::*;

verus! {

/// What a read from a socket gave: how many bytes, and which file descriptors came with them.
#[derive(Debug)]
pub struct ReadResult<F> {
    bytes: usize,
    fds: Vec<F>,
}

impl<F> ReadResult<F> {
    /// How many bytes were read.
    pub closed spec fn count(self) -> usize {
        self.bytes
    }

    /// The file descriptors.
    pub closed spec fn descriptors(self) -> Seq<F> {
        self.fds@
    }

    /// A read of some bytes, without file descriptors.
    pub fn new(bytes: usize) -> (r: Self)
        ensures
            r.count() == bytes,
            r.descriptors() == Seq::<F>::empty(),
    {
        ReadResult { bytes, fds: Vec::new() }
    }

    /// The same read with these file descriptors.
    pub fn set_fds(self, fds: Vec<F>) -> (r: Self)
        ensures
            r.count() == self.count(),
            r.descriptors() == fds@,
    {
        ReadResult { bytes: self.bytes, fds }
    }

    /// How many bytes were read.
    pub fn bytes_read(&self) -> (r: usize)
        ensures
            r == self.count(),
    {
        self.bytes
    }

    /// The file descriptors.
    pub fn fds(&self) -> (r: &[F])
        ensures
            r@ == self.descriptors(),
    {
        self.fds.as_slice()
    }

    /// The file descriptors, to keep.
    pub fn into_fds(self) -> (r: Vec<F>)
        ensures
            r@ == self.descriptors(),
    {
        self.fds
    }
}

} // verus!
