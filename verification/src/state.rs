//! What a reader stands for, and the laws of reading.
//!
//! A reader is a run of buffered bits, a run of unread bytes and a count of
//! the bytes that went from the second to the first. The functions here
//! say what a read makes of such a state, and the proofs what holds of
//! every read.
use crate::bits::{
    be_value, byte_bits, bytes_bits, le_value, lemma_be_value_byte, lemma_le_value_of_byte,
};
use vstd::prelude::*;

verus! {

/// What a [`BitReader`] stands for.
pub struct ReaderState {
    /// The bits that were pulled from the source and not read yet, oldest
    /// first.
    pub buffered: Seq<bool>,
    /// The bytes that the source still holds.
    pub unread: Seq<u8>,
    /// The number of bytes pulled from the source so far.
    pub byte_count: nat,
}

impl ReaderState {
    /// Every bit that is still to be read, in the order of reading: the
    /// buffered bits, then the bits of the unread bytes.
    pub open spec fn stream(self) -> Seq<bool> {
        self.buffered + bytes_bits(self.unread)
    }

    /// The state after `pulled` bytes went from the source into the buffer.
    pub open spec fn refilled(self, pulled: nat) -> ReaderState {
        ReaderState {
            buffered: self.buffered + bytes_bits(self.unread.take(pulled as int)),
            unread: self.unread.skip(pulled as int),
            byte_count: self.byte_count + pulled,
        }
    }

    /// The state after a read of `count` bits that the source could
    /// satisfy: as many bytes were pulled as the read was short of, and the
    /// `count` oldest bits are gone from the buffer.
    pub open spec fn after_bits(self, count: nat) -> ReaderState {
        let refilled = self.refilled(refills(self.buffered.len(), count));
        ReaderState { buffered: refilled.buffered.skip(count as int), ..refilled }
    }

    /// The state after a read of bits that the source could not satisfy:
    /// every byte that the source had is in the buffer.
    pub open spec fn drained(self) -> ReaderState {
        self.refilled(self.unread.len())
    }

    /// The state after `count` whole bytes were read past the buffer.
    pub open spec fn after_bytes(self, count: nat) -> ReaderState {
        ReaderState {
            unread: self.unread.skip(count as int),
            byte_count: self.byte_count + count,
            ..self
        }
    }
}

/// The number of bytes that a read of `count` bits pulls from the source
/// when `buffered` bits wait in the buffer: none where the buffer has
/// enough, else the fewest that make up for what is missing.
pub open spec fn refills(buffered: nat, count: nat) -> nat {
    if count <= buffered {
        0
    } else {
        ((count - buffered + 7) / 8) as nat
    }
}

/// Where nothing is buffered, the stream starts with the bits of the
/// unread bytes.
pub proof fn lemma_stream_of_bytes(state: ReaderState, count: nat)
    requires
        state.buffered.len() == 0,
        count <= state.unread.len(),
    ensures
        state.stream().take(8 * count as int) == bytes_bits(state.unread.take(count as int)),
{
}

/// From a reader with nothing buffered, a read of eight bits returns the
/// next byte of the source in big-endian bit order, and that byte with its
/// bits in reverse order in little-endian bit order.
pub proof fn lemma_read_of_byte(state: ReaderState)
    requires
        state.buffered.len() == 0,
        state.unread.len() > 0,
    ensures
        be_value(state.stream().take(8)) == state.unread[0],
        le_value(state.stream().take(8)) == be_value(byte_bits(state.unread[0]).reverse()),
        byte_bits(le_value(state.stream().take(8)) as u8) == byte_bits(state.unread[0]).reverse(),
{
    let byte = state.unread[0];
    assert(state.stream().take(8) =~= byte_bits(byte));
    lemma_be_value_byte(byte);
    lemma_le_value_of_byte(byte);
}

/// Pulling bytes into the buffer changes nothing of what is still to be
/// read, and counts each byte once.
pub proof fn lemma_refilled(state: ReaderState, pulled: nat)
    requires
        pulled <= state.unread.len(),
    ensures
        state.refilled(pulled).stream() == state.stream(),
        state.refilled(pulled).buffered.len() == state.buffered.len() + 8 * pulled,
        state.refilled(pulled).byte_count + state.refilled(pulled).unread.len()
            == state.byte_count + state.unread.len(),
{
}

/// A read of bits that fails for want of bytes loses none: what is still to
/// be read is what it was, now all of it in the buffer, and every byte that
/// the source had is counted. Where the source had no byte, nothing has
/// changed.
pub proof fn lemma_drained(state: ReaderState)
    ensures
        state.drained().stream() == state.stream(),
        state.drained().buffered == state.stream(),
        state.drained().unread.len() == 0,
        state.drained().byte_count == state.byte_count + state.unread.len(),
        state.unread.len() == 0 ==> state.drained() == state,
{
    lemma_refilled(state, state.unread.len());
    assert(state.unread.take(state.unread.len() as int) =~= state.unread);
    if state.unread.len() == 0 {
        assert(state.drained().buffered =~= state.buffered);
        assert(state.drained().unread =~= state.unread);
    }
}

/// A read of `count` bits that the source can satisfy takes the first
/// `count` bits of the stream, which are buffered once the read has pulled
/// its bytes, and leaves every bit behind them: no bit is lost and none is
/// read twice. It pulls no byte that it does not need, so where less than a
/// byte was buffered before, less than a byte is buffered after.
pub proof fn lemma_after_bits(state: ReaderState, count: nat)
    requires
        count <= state.stream().len(),
    ensures
        refills(state.buffered.len(), count) <= state.unread.len(),
        count <= state.refilled(refills(state.buffered.len(), count)).buffered.len(),
        state.refilled(refills(state.buffered.len(), count)).buffered.take(count as int)
            == state.stream().take(count as int),
        state.after_bits(count).stream() == state.stream().skip(count as int),
        state.after_bits(count).buffered.len() == state.buffered.len() + 8 * refills(
            state.buffered.len(),
            count,
        ) - count,
        state.after_bits(count).byte_count >= state.byte_count,
        state.buffered.len() < 8 ==> state.after_bits(count).buffered.len() < 8,
{
}

/// From a reader with nothing buffered, reading whole bytes leaves the
/// reader as reading their bits does.
pub proof fn lemma_bytes_as_bits(state: ReaderState, count: nat)
    requires
        state.buffered.len() == 0,
        count <= state.unread.len(),
    ensures
        state.after_bytes(count) == state.after_bits(8 * count),
{
    assert(state.after_bytes(count).buffered =~= state.after_bits(8 * count).buffered);
}

/// The state after one read of bits for each entry of `counts`, in order,
/// where the source can satisfy them all.
pub open spec fn after_reads(state: ReaderState, counts: Seq<nat>) -> ReaderState
    decreases counts.len(),
{
    if counts.len() == 0 {
        state
    } else {
        after_reads(state, counts.drop_last()).after_bits(counts.last())
    }
}

/// Whether the source can satisfy one read of bits for each entry of
/// `counts`, in order.
pub open spec fn can_read(state: ReaderState, counts: Seq<nat>) -> bool
    decreases counts.len(),
{
    counts.len() > 0 ==> {
        &&& can_read(state, counts.drop_last())
        &&& counts.last() <= after_reads(state, counts.drop_last()).stream().len()
    }
}

/// The number of bits that reads of `counts` take together.
pub open spec fn total(counts: Seq<nat>) -> nat
    decreases counts.len(),
{
    if counts.len() == 0 {
        0
    } else {
        total(counts.drop_last()) + counts.last()
    }
}

/// Whatever bits are read one after the other from a reader that has less
/// than a byte buffered, less than a byte is buffered after each of the
/// reads, and together the reads have taken the first bits of the stream,
/// as many as they asked for.
pub proof fn lemma_reads_keep_partial_byte(state: ReaderState, counts: Seq<nat>)
    requires
        state.buffered.len() < 8,
        can_read(state, counts),
    ensures
        forall|i: int|
            0 <= i <= counts.len() ==> (#[trigger] after_reads(
                state,
                counts.take(i),
            )).buffered.len() < 8,
        after_reads(state, counts).buffered.len() < 8,
        total(counts) <= state.stream().len(),
        after_reads(state, counts).stream() == state.stream().skip(total(counts) as int),
    decreases counts.len(),
{
    assert(counts.take(counts.len() as int) =~= counts);
    if counts.len() > 0 {
        let sooner = counts.drop_last();
        lemma_reads_keep_partial_byte(state, sooner);
        lemma_after_bits(after_reads(state, sooner), counts.last());
        assert forall|i: int| 0 <= i <= counts.len() implies (#[trigger] after_reads(
            state,
            counts.take(i),
        )).buffered.len() < 8 by {
            if i < counts.len() {
                assert(counts.take(i) =~= sooner.take(i));
            }
        }
        assert(state.stream().skip(total(sooner) as int).skip(counts.last() as int)
            =~= state.stream().skip(total(counts) as int));
    } else {
        assert(state.stream().skip(0) =~= state.stream());
        assert forall|i: int| 0 <= i <= counts.len() implies (#[trigger] after_reads(
            state,
            counts.take(i),
        )).buffered.len() < 8 by {
            assert(counts.take(i) =~= counts);
        }
    }
}

} // verus!
