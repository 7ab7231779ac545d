use bit_reader::error::BitReaderError;
use bit_reader::reverse::reverse_bits;
use bit_reader::source::ByteSource;
use bit_reader::BitReader;

#[test]
fn an_io_error_becomes_the_io_variant() {
    let failure = std::io::Error::new(std::io::ErrorKind::ConnectionReset, "reset");
    match BitReaderError::from(failure) {
        BitReaderError::Io(inner) => {
            assert_eq!(inner.kind(), std::io::ErrorKind::ConnectionReset);
        }
        other => panic!("{:?}", other),
    }
}

fn fails_on_the_line() -> Result<u8, BitReaderError> {
    Err(std::io::Error::new(std::io::ErrorKind::UnexpectedEof, "eof"))?;
    Ok(0)
}

#[test]
fn question_mark_wraps_an_io_error() {
    assert!(matches!(fails_on_the_line(), Err(BitReaderError::Io(_))));
}

#[test]
fn description_of_each_kind_of_error() {
    let mut reader = BitReader::new(ByteSource::new(vec![0xff]));
    let too_many = reader.read_be_bits::<u8>(9).unwrap_err();
    assert_eq!(
        too_many.description(),
        "Requested more bits than the requested integer type can hold"
    );
    let not_enough = reader.read_be_bits::<u16>(9).unwrap_err();
    assert_eq!(not_enough.description(), "Requested more bits than the byte slice has left");
    // the text for an I/O error is the standard library's
    let io = BitReaderError::from(std::io::Error::from(std::io::ErrorKind::NotFound));
    assert!(!io.description().is_empty());
}

#[test]
fn errors_can_be_printed_for_debugging() {
    let error = BitReaderError::TooManyBitsForType { position: 3, requested: 9, allowed: 8 };
    assert_eq!(
        format!("{:?}", error),
        "TooManyBitsForType { position: 3, requested: 9, allowed: 8 }"
    );
    let error = BitReaderError::NotEnoughData { position: 1, length: 4, requested: 16 };
    assert_eq!(format!("{:?}", error), "NotEnoughData { position: 1, length: 4, requested: 16 }");
}

#[test]
fn reverse_bits_turns_the_low_bits_round() {
    assert_eq!(reverse_bits(0b0000_0001, 8), 0b1000_0000);
    assert_eq!(reverse_bits(0b1100_1110, 8), 0b0111_0011);
    assert_eq!(reverse_bits(0b0000_0110, 3), 0b011);
    assert_eq!(reverse_bits(0b0000_0001, 1), 1);
    assert_eq!(reverse_bits(0b0000_1011, 4), 0b1101);
    assert_eq!(reverse_bits(0b0101_1011, 7), 0b110_1101);
}

#[test]
fn reverse_bits_looks_at_no_bit_above_the_width() {
    assert_eq!(reverse_bits(0b1111_0001, 4), 0b1000);
    assert_eq!(reverse_bits(0xff, 0), 0);
    assert_eq!(reverse_bits(0b1000_0010, 2), 0b01);
}

#[test]
fn reverse_bits_twice_is_the_field_again() {
    for width in 0..=8usize {
        for field in 0..(1u16 << width) {
            let field = field as u8;
            assert_eq!(reverse_bits(reverse_bits(field, width), width), field);
        }
    }
}
