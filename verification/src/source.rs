//! The bytes that a reader draws on.
use vstd::prelude::*;

verus! {

/// A sequential source of bytes held in memory: the bytes that have arrived
/// and were not read yet. It hands out exactly as many bytes as are asked
/// for, or none at all. Its view is the run of unread bytes.
pub struct ByteSource {
    bytes: Vec<u8>,
    /// The index in `bytes` of the first unread byte.
    next: usize,
}

impl View for ByteSource {
    type V = Seq<u8>;

    closed spec fn view(&self) -> Seq<u8> {
        self.bytes@.skip(self.next as int)
    }
}

impl ByteSource {
    #[verifier::type_invariant]
    spec fn well_formed(self) -> bool {
        self.next <= self.bytes.len()
    }

    /// A source that holds `bytes`, all of them unread.
    pub fn new(bytes: Vec<u8>) -> (source: ByteSource)
        ensures
            source@ == bytes@,
    {
        ByteSource { bytes, next: 0 }
    }

    /// The number of unread bytes.
    pub fn remaining(&self) -> (count: usize)
        ensures
            count == self@.len(),
    {
        proof {
            use_type_invariant(self);
        }
        self.bytes.len() - self.next
    }

    /// Adds `bytes` behind the unread ones. The bytes that were read already
    /// are let go of.
    pub fn supply(&mut self, bytes: &[u8])
        ensures
            final(self)@ == old(self)@ + bytes@,
    {
        proof {
            use_type_invariant(&*self);
        }
        let mut unread: Vec<u8> = Vec::new();
        let mut i: usize = self.next;
        while i < self.bytes.len()
            invariant
                self.next <= i <= self.bytes.len(),
                unread@ == self.bytes@.subrange(self.next as int, i as int),
            decreases self.bytes.len() - i,
        {
            unread.push(self.bytes[i]);
            i = i + 1;
        }
        let mut j: usize = 0;
        while j < bytes.len()
            invariant
                j <= bytes.len(),
                unread@ == old(self)@ + bytes@.take(j as int),
            decreases bytes.len() - j,
        {
            unread.push(bytes[j]);
            j = j + 1;
        }
        *self = ByteSource { bytes: unread, next: 0 };
    }

    /// Reads the next unread byte, if there is one.
    pub fn read_byte(&mut self) -> (read: Option<u8>)
        ensures
            old(self)@.len() > 0 ==> {
                &&& read == Some(old(self)@[0])
                &&& final(self)@ == old(self)@.skip(1)
            },
            old(self)@.len() == 0 ==> read is None && final(self)@ == old(self)@,
    {
        proof {
            use_type_invariant(&*self);
        }
        if self.next < self.bytes.len() {
            let byte = self.bytes[self.next];
            self.next = self.next + 1;
            Some(byte)
        } else {
            None
        }
    }

    /// Reads exactly `count` bytes, in order, or none: where fewer than
    /// `count` bytes are unread, nothing is read.
    pub fn read_exact(&mut self, count: usize) -> (read: Option<Vec<u8>>)
        ensures
            count <= old(self)@.len() ==> {
                &&& read matches Some(bytes)
                &&& bytes@ == old(self)@.take(count as int)
                &&& final(self)@ == old(self)@.skip(count as int)
            },
            count > old(self)@.len() ==> read is None && final(self)@ == old(self)@,
    {
        proof {
            use_type_invariant(&*self);
        }
        if count > self.bytes.len() - self.next {
            return None;
        }
        let mut bytes: Vec<u8> = Vec::new();
        let mut i: usize = 0;
        while i < count
            invariant
                i <= count,
                self.next + count <= self.bytes.len(),
                bytes@ == self@.take(i as int),
            decreases count - i,
        {
            bytes.push(self.bytes[self.next + i]);
            i = i + 1;
        }
        self.next = self.next + count;
        Some(bytes)
    }
}

} // verus!
