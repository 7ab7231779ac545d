//! What a read can fail with.
use vstd::prelude::*;
use vstd::std_specs::convert::FromSpecImpl;

verus! {

/// `std::io::Error`: the failure of a transport, carried as it is.
#[verifier::external_type_specification]
#[verifier::external_body]
pub struct ExIoError(std::io::Error);

/// The result of a read.
pub type Result<T> = std::result::Result<T, BitReaderError>;

/// The errors of a [`BitReader`](crate::BitReader).
#[derive(Debug)]
#[allow(inconsistent_fields)]
pub enum BitReaderError {
    /// The source ran dry before the read was complete. `requested` and
    /// `length` are in bits where bits were asked for and in bytes where
    /// bytes were.
    NotEnoughData {
        /// The bytes pulled from the source when the read gave up.
        position: usize,
        /// How much there was left to read.
        length: usize,
        /// How much was asked for.
        requested: usize,
    },
    /// More bits were asked for than the type of the result holds, for
    /// example more than 8 bits into a `u8`.
    TooManyBitsForType {
        /// The bytes pulled from the source when the read was refused.
        position: usize,
        /// The number of bits asked for, or 255 where it was more.
        requested: u8,
        /// The width of the type in bits.
        allowed: u8,
    },
    /// The transport under the byte source failed.
    Io(std::io::Error),
}

/// `std::error::Error::description` of an I/O error: a text that the
/// standard library chooses. Nothing is claimed of it.
#[allow(deprecated)]
#[verifier::external_body]
fn io_description(error: &std::io::Error) -> (text: &str) {
    std::error::Error::description(error)
}

impl BitReaderError {
    /// What went wrong, in a few words.
    pub fn description(&self) -> (text: &str)
        ensures
            self is NotEnoughData ==> text@ == "Requested more bits than the byte slice has left"@,
            self is TooManyBitsForType ==> text@
                == "Requested more bits than the requested integer type can hold"@,
    {
        match self {
            BitReaderError::NotEnoughData { .. } => {
                "Requested more bits than the byte slice has left"
            },
            BitReaderError::TooManyBitsForType { .. } => {
                "Requested more bits than the requested integer type can hold"
            },
            BitReaderError::Io(error) => io_description(error),
        }
    }
}

impl From<std::io::Error> for BitReaderError {
    fn from(error: std::io::Error) -> (wrapped: BitReaderError) {
        BitReaderError::Io(error)
    }
}

impl FromSpecImpl<std::io::Error> for BitReaderError {
    open spec fn obeys_from_spec() -> bool {
        true
    }

    open spec fn from_spec(error: std::io::Error) -> BitReaderError {
        BitReaderError::Io(error)
    }
}

} // verus!
