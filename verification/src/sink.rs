//! The append-only byte sink that phase one of the encode protocol writes to.
//!
//! The sink owns a byte buffer with a fixed capacity; a write either appends
//! every byte it was given or fails without changing the buffer.  The write
//! position only ever grows, and the core queries it only to learn where the
//! bytes it already wrote begin.

use vstd::prelude::*;

verus! {

/// The error a sink write reports when the bytes do not fit.
#[derive(Clone, Copy, PartialEq, Eq, Debug)]
pub struct SinkError;

/// A bounded, append-only byte destination.
pub struct ByteSink {
    bytes: Vec<u8>,
    cap: usize,
}

impl ByteSink {
    /// The bytes written so far, oldest first.
    pub closed spec fn contents(&self) -> Seq<u8> {
        self.bytes@
    }

    /// The capacity the sink was created with.
    pub closed spec fn capacity(&self) -> nat {
        self.cap as nat
    }

    pub open spec fn wf(&self) -> bool {
        self.contents().len() <= self.capacity()
    }

    /// A fresh sink that can hold up to `cap` bytes.
    pub fn new(cap: usize) -> (s: ByteSink)
        ensures
            s.wf(),
            s.contents() == Seq::<u8>::empty(),
            s.capacity() == cap as nat,
    {
        ByteSink { bytes: Vec::new(), cap }
    }

    /// The current write position: the number of bytes written so far.
    pub fn pos(&self) -> (p: usize)
        ensures
            p == self.contents().len(),
    {
        self.bytes.len()
    }

    /// Appends `data`, or fails (leaving the buffer untouched) exactly when
    /// the bytes would not fit in the remaining capacity.
    pub fn write(&mut self, data: &Vec<u8>) -> (r: Result<(), SinkError>)
        requires
            old(self).wf(),
        ensures
            final(self).wf(),
            final(self).capacity() == old(self).capacity(),
            r is Ok <==> old(self).contents().len() + data@.len() <= old(self).capacity(),
            r is Ok ==> final(self).contents() == old(self).contents() + data@,
            r is Err ==> final(self).contents() == old(self).contents(),
    {
        if data.len() <= self.cap - self.bytes.len() {
            let mut i: usize = 0;
            while i < data.len()
                invariant
                    i <= data@.len(),
                    self.bytes@ =~= old(self).contents() + data@.subrange(0, i as int),
                    self.cap == old(self).capacity(),
                    old(self).contents().len() + data@.len() <= self.cap,
                decreases data@.len() - i,
            {
                self.bytes.push(data[i]);
                i = i + 1;
                proof {
                    assert(data@.subrange(0, i as int) =~= data@.subrange(0, i - 1) + seq![
                        data@[i - 1],
                    ]);
                }
            }
            proof {
                assert(data@.subrange(0, data@.len() as int) =~= data@);
            }
            Ok(())
        } else {
            Err(SinkError)
        }
    }

    /// Hands the buffer out once the encode is finished.
    pub fn into_bytes(self) -> (out: Vec<u8>)
        ensures
            out@ == self.contents(),
    {
        self.bytes
    }
}

} // verus!
