//! Reading fields of any bit width, in either bit order, from a sequence of
//! bytes.
//!
//! - [`bits`] is the model of bit order that the contracts are stated in.
//! - [`truncate`] says what an integer type is as raw bits.
//! - [`bitqueue`] holds the bounded queue that takes bytes in and gives bit
//!   fields out.
//! - [`source`] holds the bytes that a reader draws on, and [`byte_reader`]
//!   makes whole integers of them.
//! - [`reader`] is the [`BitReader`] itself, [`state`] what it stands for
//!   and the laws of reading, and [`error`] what a read can fail with.
//!
//! The reader never waits: where the source has too few bytes, the read
//! fails with [`NotEnoughData`](error::BitReaderError::NotEnoughData) and
//! loses nothing, and it succeeds once the missing bytes have been
//! [supplied](BitReader::supply).
pub mod bitqueue;
pub mod bits;
pub mod byte_reader;
pub mod error;
pub mod reader;
pub mod reverse;
pub mod source;
pub mod state;
pub mod truncate;

pub use reader::BitReader;
