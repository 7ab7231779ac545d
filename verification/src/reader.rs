//! The reader: a byte source, a bit queue between the source and the
//! caller, and the count of the bytes that went from the one to the other.
use crate::bitqueue::BitQueue;
use crate::bits::{
    be_value, byte_bits, bytes_bits, le_value, lemma_bytes_bits_concat, lemma_bytes_bits_single,
};
use crate::byte_reader::ReadFromBigEndian;
use crate::error::{BitReaderError, Result};
use crate::source::ByteSource;
use crate::state::{
    lemma_after_bits, lemma_drained, lemma_stream_of_bytes, refills, ReaderState,
};
use crate::truncate::Bits;
use vstd::prelude::*;

verus! {

/// A count of bits as an error reports it: 255 stands for every count
/// above it.
pub open spec fn capped(count: usize) -> u8 {
    if count > 255 {
        255u8
    } else {
        count as u8
    }
}

/// A reader of bit fields from a byte source.
pub struct BitReader {
    reader: ByteSource,
    buffer: BitQueue,
    byte_count: usize,
}

impl View for BitReader {
    type V = ReaderState;

    closed spec fn view(&self) -> ReaderState {
        ReaderState {
            buffered: self.buffer@,
            unread: self.reader@,
            byte_count: self.byte_count as nat,
        }
    }
}

impl BitReader {
    /// The count of pulled bytes can still take every byte that the source
    /// holds.
    pub closed spec fn wf(&self) -> bool {
        self.byte_count + self.reader@.len() <= usize::MAX
    }

    /// A reader on `reader`, with nothing buffered and nothing pulled.
    pub fn new(reader: ByteSource) -> (bit_reader: BitReader)
        ensures
            bit_reader.wf(),
            bit_reader@ == (ReaderState {
                buffered: Seq::<bool>::empty(),
                unread: reader@,
                byte_count: 0,
            }),
    {
        // a source holds no more bytes than a `usize` counts
        let _ = reader.remaining();
        BitReader { reader, buffer: BitQueue::new(), byte_count: 0 }
    }

    /// Whether the reader stands at a byte boundary: no bit is buffered.
    pub fn is_aligned(&self) -> (aligned: bool)
        ensures
            aligned == (self@.buffered.len() == 0),
    {
        self.buffer.is_empty()
    }

    /// The number of bytes pulled from the source so far.
    pub fn byte_count(&self) -> (count: usize)
        ensures
            count == self@.byte_count,
    {
        self.byte_count
    }

    /// The number of bytes that the source still holds.
    pub fn available(&self) -> (count: usize)
        ensures
            count == self@.unread.len(),
    {
        self.reader.remaining()
    }

    /// Hands the source more bytes, behind those that it holds.
    pub fn supply(&mut self, bytes: &[u8])
        requires
            old(self).wf(),
            old(self)@.byte_count + old(self)@.unread.len() + bytes@.len() <= usize::MAX,
        ensures
            final(self).wf(),
            final(self)@ == (ReaderState { unread: old(self)@.unread + bytes@, ..old(self)@ }),
    {
        self.reader.supply(bytes);
    }

    /// Reads `count` bytes as they are. The bytes come straight from the
    /// source: buffered bits are neither looked at nor touched.
    pub fn read_u8_slice_aligned(&mut self, count: usize) -> (result: Result<Vec<u8>>)
        requires
            old(self).wf(),
        ensures
            final(self).wf(),
            final(self)@.byte_count >= old(self)@.byte_count,
            count <= old(self)@.unread.len() ==> {
                &&& result matches Ok(bytes)
                &&& bytes@ == old(self)@.unread.take(count as int)
                &&& final(self)@ == old(self)@.after_bytes(count as nat)
            },
            count > old(self)@.unread.len() ==> {
                &&& result matches Err(
                    BitReaderError::NotEnoughData { position, length, requested },
                )
                &&& position == old(self)@.byte_count
                &&& length == old(self)@.unread.len()
                &&& requested == count
                &&& final(self)@ == old(self)@
            },
    {
        match self.reader.read_exact(count) {
            Some(bytes) => {
                self.byte_count = self.byte_count + count;
                Ok(bytes)
            },
            None => Err(
                BitReaderError::NotEnoughData {
                    position: self.byte_count,
                    length: self.reader.remaining(),
                    requested: count,
                },
            ),
        }
    }

    /// Reads a whole `T` from the bytes of the source, most significant
    /// byte first.
    pub fn read_aligned_be<T: ReadFromBigEndian>(&mut self) -> (result: Result<T>)
        requires
            old(self).wf(),
            old(self)@.buffered.len() == 0,
        ensures
            final(self).wf(),
            final(self)@.byte_count >= old(self)@.byte_count,
            T::width() <= 8 * old(self)@.unread.len() ==> {
                &&& result matches Ok(value)
                &&& value.raw() == be_value(old(self)@.stream().take(T::width() as int))
                &&& final(self)@ == old(self)@.after_bytes(T::width() / 8)
            },
            T::width() > 8 * old(self)@.unread.len() ==> {
                &&& result matches Err(
                    BitReaderError::NotEnoughData { position, length, requested },
                )
                &&& position == old(self)@.byte_count
                &&& length == old(self)@.unread.len()
                &&& requested == T::width() / 8
                &&& final(self)@ == old(self)@
            },
    {
        proof {
            T::lemma_width();
            if T::width() <= 8 * self@.unread.len() {
                lemma_stream_of_bytes(self@, T::width() / 8);
            }
        }
        match T::read_be(&mut self.reader) {
            Some(value) => {
                self.byte_count = self.byte_count + T::bit_width() / 8;
                Ok(value)
            },
            None => Err(
                BitReaderError::NotEnoughData {
                    position: self.byte_count,
                    length: self.reader.remaining(),
                    requested: T::bit_width() / 8,
                },
            ),
        }
    }

    /// Pulls bytes from the source into the buffer, one at a time, until
    /// `count` bits are buffered or the source has no byte left.
    fn refill(&mut self, count: usize) -> (enough: bool)
        requires
            old(self).wf(),
            count <= 64,
        ensures
            final(self).wf(),
            enough == (count <= old(self)@.stream().len()),
            enough ==> final(self)@ == old(self)@.refilled(
                refills(old(self)@.buffered.len(), count as nat),
            ),
            !enough ==> final(self)@ == old(self)@.drained(),
    {
        let ghost before = self@;
        let ghost mut pulled: nat = 0;
        proof {
            assert(before.unread.skip(0) =~= before.unread);
        }
        while self.buffer.len() < count
            invariant
                self.wf(),
                count <= 64,
                before == old(self)@,
                pulled <= before.unread.len(),
                self@ == before.refilled(pulled),
                pulled == 0 || before.buffered.len() + 8 * (pulled - 1) < count,
            decreases before.unread.len() - pulled,
        {
            match self.reader.read_byte() {
                Some(byte) => {
                    self.buffer.push(byte);
                    self.byte_count = self.byte_count + 1;
                    proof {
                        let sooner = before.unread.take(pulled as int);
                        assert(before.unread.take(pulled as int + 1) =~= sooner + seq![byte]);
                        lemma_bytes_bits_concat(sooner, seq![byte]);
                        lemma_bytes_bits_single(byte);
                        assert(before.buffered + (bytes_bits(sooner) + byte_bits(byte))
                            =~= before.buffered + bytes_bits(sooner) + byte_bits(byte));
                        assert(before.unread.skip(pulled as int + 1) =~= before.unread.skip(
                            pulled as int,
                        ).skip(1));
                        pulled = pulled + 1;
                    }
                },
                None => {
                    return false;
                },
            }
        }
        true
    }

    /// The error of a read that asked for more bits than `T` has.
    fn too_many_bits<T: Bits>(&self, count: usize) -> (error: BitReaderError)
        requires
            count > T::width(),
        ensures
            error == (BitReaderError::TooManyBitsForType {
                position: self.byte_count,
                requested: capped(count),
                allowed: T::width() as u8,
            }),
    {
        BitReaderError::TooManyBitsForType {
            position: self.byte_count,
            requested: if count > 255 {
                255
            } else {
                count as u8
            },
            allowed: T::bit_width() as u8,
        }
    }

    /// Reads a field of `count` bits in big-endian bit order: the first
    /// bit read is the most significant bit of the result.
    pub fn read_be_bits<T: Bits>(&mut self, count: usize) -> (result: Result<T>)
        requires
            old(self).wf(),
        ensures
            final(self).wf(),
            final(self)@.byte_count >= old(self)@.byte_count,
            count > T::width() ==> {
                &&& result matches Err(
                    BitReaderError::TooManyBitsForType { position, requested, allowed },
                )
                &&& position == old(self)@.byte_count
                &&& requested == capped(count)
                &&& allowed == T::width()
                &&& final(self)@ == old(self)@
            },
            T::width() >= count > old(self)@.stream().len() ==> {
                &&& result matches Err(
                    BitReaderError::NotEnoughData { position, length, requested },
                )
                &&& position == old(self)@.byte_count + old(self)@.unread.len()
                &&& length == old(self)@.stream().len()
                &&& requested == count
                &&& final(self)@ == old(self)@.drained()
                &&& final(self)@.stream() == old(self)@.stream()
            },
            count <= T::width() && count <= old(self)@.stream().len() ==> {
                &&& result matches Ok(value)
                &&& value.raw() == be_value(old(self)@.stream().take(count as int))
                &&& final(self)@ == old(self)@.after_bits(count as nat)
                &&& final(self)@.stream() == old(self)@.stream().skip(count as int)
            },
            old(self)@.buffered.len() < 8 && !(result matches Err(
                BitReaderError::NotEnoughData { .. },
            )) ==> final(self)@.buffered.len() < 8,
    {
        proof {
            T::lemma_width();
        }
        if count > T::bit_width() {
            return Err(self.too_many_bits::<T>(count));
        }
        if !self.refill(count) {
            proof {
                lemma_drained(old(self)@);
            }
            return Err(
                BitReaderError::NotEnoughData {
                    position: self.byte_count,
                    length: self.buffer.len(),
                    requested: count,
                },
            );
        }
        proof {
            lemma_after_bits(old(self)@, count as nat);
        }
        Ok(self.buffer.pop::<T>(count))
    }

    /// Reads a field of `count` bits in little-endian bit order: the bits
    /// are taken in groups of eight from the start of the field, and in
    /// each group the first bit read is the least significant.
    pub fn read_le_bits<T: Bits>(&mut self, count: usize) -> (result: Result<T>)
        requires
            old(self).wf(),
        ensures
            final(self).wf(),
            final(self)@.byte_count >= old(self)@.byte_count,
            count > T::width() ==> {
                &&& result matches Err(
                    BitReaderError::TooManyBitsForType { position, requested, allowed },
                )
                &&& position == old(self)@.byte_count
                &&& requested == capped(count)
                &&& allowed == T::width()
                &&& final(self)@ == old(self)@
            },
            T::width() >= count > old(self)@.stream().len() ==> {
                &&& result matches Err(
                    BitReaderError::NotEnoughData { position, length, requested },
                )
                &&& position == old(self)@.byte_count + old(self)@.unread.len()
                &&& length == old(self)@.stream().len()
                &&& requested == count
                &&& final(self)@ == old(self)@.drained()
                &&& final(self)@.stream() == old(self)@.stream()
            },
            count <= T::width() && count <= old(self)@.stream().len() ==> {
                &&& result matches Ok(value)
                &&& value.raw() == le_value(old(self)@.stream().take(count as int))
                &&& final(self)@ == old(self)@.after_bits(count as nat)
                &&& final(self)@.stream() == old(self)@.stream().skip(count as int)
            },
            old(self)@.buffered.len() < 8 && !(result matches Err(
                BitReaderError::NotEnoughData { .. },
            )) ==> final(self)@.buffered.len() < 8,
    {
        proof {
            T::lemma_width();
        }
        if count > T::bit_width() {
            return Err(self.too_many_bits::<T>(count));
        }
        if !self.refill(count) {
            proof {
                lemma_drained(old(self)@);
            }
            return Err(
                BitReaderError::NotEnoughData {
                    position: self.byte_count,
                    length: self.buffer.len(),
                    requested: count,
                },
            );
        }
        proof {
            lemma_after_bits(old(self)@, count as nat);
        }
        Ok(self.buffer.pop_reversed::<T>(count))
    }
}

} // verus!
