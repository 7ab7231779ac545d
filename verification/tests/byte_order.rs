use bit_reader::byte_reader::{FromBigEndian, FromLittleEndian, ReadFromBigEndian};
use bit_reader::source::ByteSource;
use bit_reader::truncate::{Bits, TruncateTo};

#[test]
fn source_reads_exactly_or_nothing() {
    let mut source = ByteSource::new(vec![1, 2, 3, 4, 5]);
    assert_eq!(source.remaining(), 5);
    assert_eq!(source.read_exact(2), Some(vec![1, 2]));
    assert_eq!(source.remaining(), 3);
    assert_eq!(source.read_exact(4), None);
    assert_eq!(source.remaining(), 3);
    assert_eq!(source.read_exact(0), Some(vec![]));
    assert_eq!(source.read_byte(), Some(3));
    assert_eq!(source.read_exact(2), Some(vec![4, 5]));
    assert_eq!(source.read_byte(), None);
    assert_eq!(source.read_exact(1), None);
    assert_eq!(source.remaining(), 0);
}

#[test]
fn source_takes_more_bytes_behind_the_unread_ones() {
    let mut source = ByteSource::new(vec![1, 2, 3]);
    assert_eq!(source.read_byte(), Some(1));
    source.supply(&[4, 5]);
    assert_eq!(source.remaining(), 4);
    assert_eq!(source.read_exact(3), Some(vec![2, 3, 4]));
    source.supply(&[]);
    assert_eq!(source.read_exact(1), Some(vec![5]));
    source.supply(&[6]);
    assert_eq!(source.read_byte(), Some(6));
    assert_eq!(source.read_byte(), None);
}

#[test]
fn from_be_takes_the_first_byte_as_the_most_significant() {
    assert_eq!(<u8 as FromBigEndian>::from_be(&[0x12]), 0x12);
    assert_eq!(<u16 as FromBigEndian>::from_be(&[0x12, 0x34]), 0x1234);
    assert_eq!(<u32 as FromBigEndian>::from_be(&[0x12, 0x34, 0x56, 0x78]), 0x1234_5678);
    assert_eq!(
        <u64 as FromBigEndian>::from_be(&[0x12, 0x34, 0x56, 0x78, 0x9a, 0xbc, 0xde, 0xf0]),
        0x1234_5678_9abc_def0
    );
    assert_eq!(<i8 as FromBigEndian>::from_be(&[0x80]), i8::MIN);
    assert_eq!(<i16 as FromBigEndian>::from_be(&[0xff, 0xfe]), -2);
    assert_eq!(<i32 as FromBigEndian>::from_be(&[0x7f, 0xff, 0xff, 0xff]), i32::MAX);
    assert_eq!(<i64 as FromBigEndian>::from_be(&[0xff; 8]), -1);
}

#[test]
fn from_le_takes_the_last_byte_as_the_most_significant() {
    assert_eq!(<u8 as FromLittleEndian>::from_le(&[0x12]), 0x12);
    assert_eq!(<u16 as FromLittleEndian>::from_le(&[0x12, 0x34]), 0x3412);
    assert_eq!(<u32 as FromLittleEndian>::from_le(&[0x12, 0x34, 0x56, 0x78]), 0x7856_3412);
    assert_eq!(
        <u64 as FromLittleEndian>::from_le(&[0x12, 0x34, 0x56, 0x78, 0x9a, 0xbc, 0xde, 0xf0]),
        0xf0de_bc9a_7856_3412
    );
    assert_eq!(<i16 as FromLittleEndian>::from_le(&[0xfe, 0xff]), -2);
    assert_eq!(<i32 as FromLittleEndian>::from_le(&[0, 0, 0, 0x80]), i32::MIN);
}

#[test]
fn decoding_agrees_with_the_standard_library() {
    let bytes = [0xde, 0xad, 0xbe, 0xef, 0x01, 0x23, 0x45, 0x67];
    assert_eq!(<u64 as FromBigEndian>::from_be(&bytes), u64::from_be_bytes(bytes));
    assert_eq!(<u64 as FromLittleEndian>::from_le(&bytes), u64::from_le_bytes(bytes));
    assert_eq!(<i64 as FromBigEndian>::from_be(&bytes), i64::from_be_bytes(bytes));
    let size = std::mem::size_of::<usize>();
    let mut be = vec![0u8; size];
    be[size - 4..].copy_from_slice(&[1, 2, 3, 4]);
    assert_eq!(<usize as FromBigEndian>::from_be(&be), 0x0102_0304);
    let array = be.clone().try_into().unwrap();
    assert_eq!(<usize as FromBigEndian>::from_be(&be), usize::from_be_bytes(array));
    be.reverse();
    assert_eq!(<usize as FromLittleEndian>::from_le(&be), 0x0102_0304);
    assert_eq!(<isize as FromBigEndian>::from_be(&vec![0xff; size]), -1);
}

#[test]
fn read_be_reads_the_bytes_of_the_type_or_none() {
    let mut source = ByteSource::new(vec![0x12, 0x34, 0x56]);
    assert_eq!(<u16 as ReadFromBigEndian>::read_be(&mut source), Some(0x1234));
    assert_eq!(source.remaining(), 1);
    assert_eq!(<u16 as ReadFromBigEndian>::read_be(&mut source), None);
    assert_eq!(source.remaining(), 1);
    assert_eq!(<i8 as ReadFromBigEndian>::read_be(&mut source), Some(0x56));
    assert_eq!(<u8 as ReadFromBigEndian>::read_be(&mut source), None);
}

#[test]
fn truncate_keeps_the_low_bits() {
    assert_eq!(TruncateTo::<u8>::truncate(&0x1234u16), 0x34u8);
    assert_eq!(TruncateTo::<u8>::truncate(&0x1234_5678u32), 0x78u8);
    assert_eq!(TruncateTo::<u16>::truncate(&0x1234_5678u32), 0x5678u16);
    assert_eq!(TruncateTo::<u8>::truncate(&0x1234_5678_9abc_def0u64), 0xf0u8);
    assert_eq!(TruncateTo::<u16>::truncate(&0x1234_5678_9abc_def0u64), 0xdef0u16);
    assert_eq!(TruncateTo::<u32>::truncate(&0x1234_5678_9abc_def0u64), 0x9abc_def0u32);
    assert_eq!(TruncateTo::<u32>::truncate(&0x1234_5678usize), 0x1234_5678u32);
    assert_eq!(TruncateTo::<u16>::truncate(&0x1234_5678usize), 0x5678u16);
    assert_eq!(TruncateTo::<u8>::truncate(&0x1234_5678usize), 0x78u8);
    assert_eq!(TruncateTo::<u8>::truncate(&0x00ffu16), 0xffu8);
    assert_eq!(TruncateTo::<u8>::truncate(&0x0100u16), 0u8);
}

#[test]
fn truncate_of_signed_values_keeps_the_low_bits() {
    assert_eq!(TruncateTo::<i8>::truncate(&0x1234i16), 0x34i8);
    assert_eq!(TruncateTo::<i8>::truncate(&0x12f0i16), -16i8);
    assert_eq!(TruncateTo::<i8>::truncate(&-1i16), -1i8);
    assert_eq!(TruncateTo::<i8>::truncate(&-129i32), 127i8);
    assert_eq!(TruncateTo::<i16>::truncate(&0x0001_8000i32), i16::MIN);
    assert_eq!(TruncateTo::<i8>::truncate(&i64::MIN), 0i8);
    assert_eq!(TruncateTo::<i16>::truncate(&-2i64), -2i16);
    assert_eq!(TruncateTo::<i32>::truncate(&0x1_ffff_fffei64), -2i32);
}

#[test]
fn from_raw_drops_what_is_above_the_width() {
    assert_eq!(<u8 as Bits>::from_raw(0x1ff), 0xff);
    assert_eq!(<u16 as Bits>::from_raw(0xf_1234), 0x1234);
    assert_eq!(<u32 as Bits>::from_raw(u64::MAX), u32::MAX);
    assert_eq!(<u64 as Bits>::from_raw(u64::MAX), u64::MAX);
    assert_eq!(<i8 as Bits>::from_raw(0x80), i8::MIN);
    assert_eq!(<i8 as Bits>::from_raw(0x7f), i8::MAX);
    assert_eq!(<i16 as Bits>::from_raw(0xffff), -1);
    assert_eq!(<i32 as Bits>::from_raw(0x1_0000_0005), 5);
    assert_eq!(<i64 as Bits>::from_raw(u64::MAX), -1);
    assert_eq!(<usize as Bits>::from_raw(77), 77);
    assert_eq!(<isize as Bits>::from_raw(u64::MAX), -1);
}

#[test]
fn bit_width_of_each_type() {
    assert_eq!(<u8 as Bits>::bit_width(), 8);
    assert_eq!(<i8 as Bits>::bit_width(), 8);
    assert_eq!(<u16 as Bits>::bit_width(), 16);
    assert_eq!(<i16 as Bits>::bit_width(), 16);
    assert_eq!(<u32 as Bits>::bit_width(), 32);
    assert_eq!(<i32 as Bits>::bit_width(), 32);
    assert_eq!(<u64 as Bits>::bit_width(), 64);
    assert_eq!(<i64 as Bits>::bit_width(), 64);
    assert_eq!(<usize as Bits>::bit_width(), usize::BITS as usize);
    assert_eq!(<isize as Bits>::bit_width(), usize::BITS as usize);
}
