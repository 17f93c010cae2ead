//! The first bytes of a connection, which are looked at and then read again.

use vstd::prelude::*;

verus! {

/// Holds the bytes that were taken from a stream in order to classify it, and
/// serves them again to whoever reads the stream afterwards, so that the
/// reader sees the stream from its first byte.
#[derive(Debug)]
pub struct ReversibleStream {
    header: Vec<u8>,
    position: usize,
}

/// What a reversible stream holds: the bytes taken from the stream, and how
/// many of them were read again already.
pub struct ReversibleStreamView {
    pub header: Seq<u8>,
    pub position: nat,
}

impl ReversibleStreamView {
    /// The bytes that are still to be read again.
    pub open spec fn pending(self) -> Seq<u8> {
        self.header.skip(self.position as int)
    }
}

/// The smaller of two lengths.
pub open spec fn at_most(wanted: nat, there: nat) -> nat {
    if wanted <= there {
        wanted
    } else {
        there
    }
}

impl View for ReversibleStream {
    type V = ReversibleStreamView;

    closed spec fn view(&self) -> ReversibleStreamView {
        ReversibleStreamView { header: self.header@, position: self.position as nat }
    }
}

impl ReversibleStream {
    /// No more was read again than was taken.
    pub open spec fn wf(&self) -> bool {
        self@.position <= self@.header.len()
    }

    /// Wraps the bytes that were taken from the start of a stream.
    pub fn new(header: Vec<u8>) -> (stream: ReversibleStream)
        ensures
            stream.wf(),
            stream@.header == header@,
            stream@.position == 0,
    {
        ReversibleStream { header, position: 0 }
    }

    /// Up to `limit` of the bytes that the next reads will return, without
    /// consuming them.
    pub fn peek(&self, limit: usize) -> (bytes: Vec<u8>)
        requires
            self.wf(),
        ensures
            bytes@ == self@.pending().take(at_most(limit as nat, self@.pending().len()) as int),
    {
        let mut bytes: Vec<u8> = Vec::new();
        let mut i: usize = self.position;
        let ghost pending = self@.pending();
        assert(pending.take(0) =~= Seq::<u8>::empty());
        while i < self.header.len() && bytes.len() < limit
            invariant
                self.position <= i <= self.header@.len(),
                pending == self.header@.skip(self.position as int),
                bytes@.len() == i - self.position,
                bytes@.len() <= limit,
                bytes@ == pending.take(i - self.position),
            decreases self.header@.len() - i,
        {
            bytes.push(self.header[i]);
            assert(pending.take(i + 1 - self.position) =~= pending.take(i - self.position).push(
                self.header@[i as int],
            ));
            i += 1;
        }
        bytes
    }

    /// Reads up to `limit` of the bytes that were taken from the stream. Once
    /// none is left, the stream itself is read.
    pub fn read(&mut self, limit: usize) -> (bytes: Vec<u8>)
        requires
            old(self).wf(),
        ensures
            final(self).wf(),
            final(self)@.header == old(self)@.header,
            bytes@ == old(self)@.pending().take(
                at_most(limit as nat, old(self)@.pending().len()) as int,
            ),
            final(self)@.position == old(self)@.position + bytes@.len(),
            old(self)@.pending() == bytes@ + final(self)@.pending(),
    {
        let bytes = self.peek(limit);
        let ghost before = self@;
        let taken = bytes.len();
        let total = self.header.len();
        assert(before.pending().len() == total - self.position);
        assert(taken <= before.pending().len());
        self.position = self.position + taken;
        proof {
            assert(before.pending() =~= bytes@ + self@.pending());
        }
        bytes
    }

    /// Whether every byte that was taken from the stream was read again.
    pub fn is_drained(&self) -> (drained: bool)
        requires
            self.wf(),
        ensures
            drained == (self@.pending().len() == 0),
    {
        self.position >= self.header.len()
    }
}

} // verus!
