use ser_parser::bytes::{le_i16, le_i32, le_i64, le_u16, le_u32, le_u64, le_u8, tag, take_str};
use ser_parser::data::{
    ArrayDim, DimArray, SerData, SerDataOneDim, SerDataTag, SerDataTagTime, SerDataTagTimePos,
    SerDataTwoDim, SerHeader, SerOffsets, SerRawData, TagType,
};
use ser_parser::error::{ErrorKind, ParseError};
use ser_parser::parsers::{
    array_dim, parse_offset, ser_data_one_dim_parser, ser_data_parser, ser_data_tag_parser,
    ser_data_tag_time_parser, ser_data_tag_time_pos_parser, ser_data_two_dim_parser,
    ser_header_parser, ser_offsets_parser, ser_raw_data_parser, tag_type, two_dim_size_overflow,
};
use ser_parser::reader::{self, ser_reader};

fn push_str(v: &mut Vec<u8>, s: &str) {
    v.extend_from_slice(&(s.len() as i32).to_le_bytes());
    v.extend_from_slice(s.as_bytes());
}

fn dim_bytes(size: i32, offset: f64, delta: f64, element: i32, description: &str, units: &str) -> Vec<u8> {
    let mut v = Vec::new();
    v.extend_from_slice(&size.to_le_bytes());
    v.extend_from_slice(&offset.to_le_bytes());
    v.extend_from_slice(&delta.to_le_bytes());
    v.extend_from_slice(&element.to_le_bytes());
    push_str(&mut v, description);
    push_str(&mut v, units);
    v
}

/// A header of version 0x0210 (four-byte offsets): 2D arrays, time tags.
fn header_v528() -> Vec<u8> {
    let mut v = vec![0x49, 0x49];
    v.extend_from_slice(&0x0197i16.to_le_bytes());
    v.extend_from_slice(&0x0210i16.to_le_bytes());
    v.extend_from_slice(&[0x22, 0x41, 0x00, 0x00]);
    v.extend_from_slice(&[0x52, 0x41, 0x00, 0x00]);
    v.extend_from_slice(&3i32.to_le_bytes());
    v.extend_from_slice(&2i32.to_le_bytes());
    v.extend_from_slice(&1234i32.to_le_bytes());
    v.extend_from_slice(&1i32.to_le_bytes());
    v.extend(dim_bytes(3, 0.5, 2.0, 1, "Number", "µm"));
    v
}

#[test]
fn le_readers_read_little_endian() {
    let b = [0x01u8, 0x02, 0x03, 0x04, 0x05, 0x06, 0x07, 0x88, 0xAA];
    assert_eq!(le_u8(&b), Ok((&b[1..], 0x01)));
    assert_eq!(le_u16(&b), Ok((&b[2..], 0x0201)));
    assert_eq!(le_u32(&b), Ok((&b[4..], 0x0403_0201)));
    assert_eq!(le_u64(&b), Ok((&b[8..], 0x8807_0605_0403_0201)));
    assert_eq!(le_i64(&b), Ok((&b[8..], 0x8807_0605_0403_0201u64 as i64)));
    let m = [0xFFu8, 0xFF, 0xFF, 0xFF];
    assert_eq!(le_i32(&m), Ok((&m[4..], -1)));
    assert_eq!(le_i16(&m), Ok((&m[2..], -1)));
}

#[test]
fn le_readers_incomplete() {
    let b = [0x01u8, 0x02, 0x03];
    assert_eq!(le_u8(&b[..0]), Err(ParseError::Incomplete(1)));
    assert_eq!(le_u32(&b), Err(ParseError::Incomplete(4)));
    assert_eq!(le_u64(&b), Err(ParseError::Incomplete(8)));
    assert_eq!(le_i16(&b[..1]), Err(ParseError::Incomplete(2)));
}

#[test]
fn tag_matches_mismatches_and_waits() {
    let t = [0x49u8, 0x49];
    assert_eq!(tag(&[0x49, 0x49, 7], &t), Ok((&[7u8][..], ())));
    assert_eq!(tag(&[0x49, 0x48, 7], &t), Err(ParseError::Error(ErrorKind::Tag, 3)));
    assert_eq!(tag(&[0x49], &t), Err(ParseError::Incomplete(2)));
    assert_eq!(tag(&[0x48], &t), Err(ParseError::Error(ErrorKind::Tag, 1)));
}

#[test]
fn take_str_decodes_and_rejects() {
    let b = [0xC2u8, 0xB5, b'm', b'x'];
    assert_eq!(take_str(&b, 3), Ok((&b[3..], "µm")));
    assert_eq!(take_str(&b, 5), Err(ParseError::Incomplete(5)));
    let bad = [0xFFu8, b'a'];
    assert_eq!(take_str(&bad, 2), Err(ParseError::Error(ErrorKind::MapRes, 2)));
}

#[test]
fn codes_of_the_header() {
    assert_eq!(tag_type(&[0x52, 0x41, 0, 0]), Ok((&[][..], TagType::Time)));
    assert_eq!(tag_type(&[0x42, 0x41, 0, 0, 9]), Ok((&[9u8][..], TagType::TimePos)));
    assert_eq!(tag_type(&[0x43, 0x41, 0, 0]), Err(ParseError::Error(ErrorKind::Alt, 4)));
    assert_eq!(tag_type(&[0x42, 0x41]), Err(ParseError::Incomplete(4)));
    assert_eq!(array_dim(&[0x20, 0x41, 0, 0]), Ok((&[][..], ArrayDim::One)));
    assert_eq!(array_dim(&[0x22, 0x41, 0, 0]), Ok((&[][..], ArrayDim::Two)));
    assert_eq!(array_dim(&[0x21, 0x41, 0, 0]), Err(ParseError::Error(ErrorKind::Alt, 4)));
    assert_eq!(array_dim(&[0x20]), Err(ParseError::Incomplete(4)));
}

#[test]
fn header_of_version_528() {
    let mut b = header_v528();
    b.push(0xEE);
    let (rest, h) = ser_header_parser(&b).unwrap();
    assert_eq!(rest, &[0xEEu8][..]);
    assert_eq!(
        h,
        SerHeader {
            series_id: 0x0197,
            series_version: 0x0210,
            array_dim: ArrayDim::Two,
            tag_type: TagType::Time,
            total_element_count: 3,
            valid_element_count: 2,
            array_offset: 1234,
            dimension_arrays: vec![DimArray {
                dimension_size: 3,
                calibration_offset: 0.5f64.to_bits(),
                calibration_delta: 2.0f64.to_bits(),
                calibration_element: 1,
                description: "Number".to_string(),
                units: "µm".to_string(),
            }],
        }
    );
}

#[test]
fn header_of_version_544_has_wide_offset() {
    let mut b = vec![0x49, 0x49];
    b.extend_from_slice(&0x0197i16.to_le_bytes());
    b.extend_from_slice(&0x0220i16.to_le_bytes());
    b.extend_from_slice(&[0x20, 0x41, 0x00, 0x00]);
    b.extend_from_slice(&[0x42, 0x41, 0x00, 0x00]);
    b.extend_from_slice(&1i32.to_le_bytes());
    b.extend_from_slice(&1i32.to_le_bytes());
    b.extend_from_slice(&0x1_0000_0000i64.to_le_bytes());
    b.extend_from_slice(&0i32.to_le_bytes());
    let (rest, h) = ser_header_parser(&b).unwrap();
    assert!(rest.is_empty());
    assert_eq!(h.array_dim, ArrayDim::One);
    assert_eq!(h.tag_type, TagType::TimePos);
    assert_eq!(h.array_offset, 0x1_0000_0000);
    assert!(h.dimension_arrays.is_empty());
}

#[test]
fn header_rejections() {
    let b = header_v528();
    let mut bad_magic = b.clone();
    bad_magic[1] = 0x4D;
    assert_eq!(ser_header_parser(&bad_magic), Err(ParseError::Error(ErrorKind::Tag, b.len())));
    let mut bad_dim = b.clone();
    bad_dim[6] = 0x23;
    assert_eq!(ser_header_parser(&bad_dim), Err(ParseError::Error(ErrorKind::Alt, b.len() - 6)));
    let mut bad_tag = b.clone();
    bad_tag[10] = 0x53;
    assert_eq!(ser_header_parser(&bad_tag), Err(ParseError::Error(ErrorKind::Alt, b.len() - 10)));
    // A description that is not UTF-8 rejects the dimension table at its start.
    let mut bad_text = b.clone();
    let at = 30 + 28 + 4;
    bad_text[at] = 0xFF;
    assert_eq!(ser_header_parser(&bad_text), Err(ParseError::Error(ErrorKind::Count, b.len() - 30)));
    // Truncated inside the units string, which is three bytes long.
    assert_eq!(ser_header_parser(&b[..b.len() - 1]), Err(ParseError::Incomplete(3)));
    assert_eq!(ser_header_parser(&b[..1]), Err(ParseError::Incomplete(2)));
    assert_eq!(ser_header_parser(&b[..29]), Err(ParseError::Incomplete(4)));
}

#[test]
fn reader_gives_borrowed_header() {
    let b = header_v528();
    let (rest, s) = ser_reader(&b).unwrap();
    assert!(rest.is_empty());
    assert_eq!(
        s,
        reader::Ser {
            series_id: 0x0197,
            series_version: 0x0210,
            data_type: reader::ArrayDim::Two,
            tag_type: reader::TagType::TimeOnly,
            total_element_count: 3,
            valid_element_count: 2,
            array_offset: 1234,
            dimension_arrays: vec![reader::DimArray {
                dimension_size: 3,
                calibration_offset: 0.5f64.to_bits(),
                calibration_delta: 2.0f64.to_bits(),
                calibration_element: 1,
                description: "Number",
                units: "µm",
            }],
        }
    );
    let mut time_pos = b.clone();
    time_pos[10] = 0x42;
    assert_eq!(ser_reader(&time_pos).unwrap().1.tag_type, reader::TagType::TimeAnd2D);
}

#[test]
fn offsets_by_version() {
    let mut narrow = Vec::new();
    for x in [10i32, -2, 30, 40] {
        narrow.extend_from_slice(&x.to_le_bytes());
    }
    let (rest, o) = ser_offsets_parser(&narrow, 0x0210, 2).unwrap();
    assert!(rest.is_empty());
    assert_eq!(o, SerOffsets { data_offset: vec![10, -2], tag_offset: vec![30, 40] });
    let mut wide = Vec::new();
    for x in [1i64 << 40, 2, 3, 4, 99] {
        wide.extend_from_slice(&x.to_le_bytes());
    }
    let (rest, o) = ser_offsets_parser(&wide, 0x0220, 2).unwrap();
    assert_eq!(rest.len(), 8);
    assert_eq!(o, SerOffsets { data_offset: vec![1 << 40, 2], tag_offset: vec![3, 4] });
    assert_eq!(ser_offsets_parser(&narrow, 0x0210, 0), Ok((&narrow[..], SerOffsets { data_offset: vec![], tag_offset: vec![] })));
    assert_eq!(ser_offsets_parser(&narrow, 0x0220, 2), Err(ParseError::Incomplete(8)));
    assert_eq!(ser_offsets_parser(&narrow, 0x0210, -1), Err(ParseError::Incomplete(4)));
    assert_eq!(parse_offset(&narrow, 0x0210), Ok((&narrow[4..], 10)));
}

#[test]
fn raw_data_of_every_type() {
    let b = [1u8, 0, 0, 0, 2, 0, 0, 0, 0xFF, 0xFF, 0xFF, 0xFF, 0xFF, 0xFF, 0xFF, 0xFF];
    assert_eq!(ser_raw_data_parser(&b, 1, 2), Ok((&b[2..], SerRawData::DataU8(vec![1, 0]))));
    assert_eq!(ser_raw_data_parser(&b, 2, 2), Ok((&b[4..], SerRawData::DataU16(vec![1, 0]))));
    assert_eq!(ser_raw_data_parser(&b, 3, 2), Ok((&b[8..], SerRawData::DataU32(vec![1, 2]))));
    assert_eq!(ser_raw_data_parser(&b[8..], 4, 1), Ok((&b[9..], SerRawData::DataI8(vec![-1]))));
    assert_eq!(ser_raw_data_parser(&b[8..], 5, 1), Ok((&b[10..], SerRawData::DataI16(vec![-1]))));
    assert_eq!(ser_raw_data_parser(&b[8..], 6, 2), Ok((&b[16..], SerRawData::DataI32(vec![-1, -1]))));
    let f = 1.5f32.to_le_bytes();
    assert_eq!(ser_raw_data_parser(&f, 7, 1), Ok((&f[4..], SerRawData::DataF32(vec![1.5f32.to_bits()]))));
    let d = (-2.25f64).to_le_bytes();
    assert_eq!(ser_raw_data_parser(&d, 8, 1), Ok((&d[8..], SerRawData::DataF64(vec![(-2.25f64).to_bits()]))));
    assert_eq!(ser_raw_data_parser(&b, 9, 1), Err(ParseError::Error(ErrorKind::Alt, b.len())));
    assert_eq!(ser_raw_data_parser(&b, 0, 0), Err(ParseError::Error(ErrorKind::Alt, b.len())));
    assert_eq!(ser_raw_data_parser(&b, 8, 3), Err(ParseError::Incomplete(8)));
}

fn one_dim_bytes() -> Vec<u8> {
    let mut v = Vec::new();
    v.extend_from_slice(&1.0f64.to_le_bytes());
    v.extend_from_slice(&0.25f64.to_le_bytes());
    v.extend_from_slice(&7i32.to_le_bytes());
    v.extend_from_slice(&2i16.to_le_bytes());
    v.extend_from_slice(&3i32.to_le_bytes());
    for x in [5u16, 6, 700] {
        v.extend_from_slice(&x.to_le_bytes());
    }
    v
}

fn two_dim_bytes(x: i32, y: i32, data_type: i16, payload: &[u8]) -> Vec<u8> {
    let mut v = Vec::new();
    v.extend_from_slice(&1.0f64.to_le_bytes());
    v.extend_from_slice(&0.5f64.to_le_bytes());
    v.extend_from_slice(&0i32.to_le_bytes());
    v.extend_from_slice(&2.0f64.to_le_bytes());
    v.extend_from_slice(&0.75f64.to_le_bytes());
    v.extend_from_slice(&1i32.to_le_bytes());
    v.extend_from_slice(&data_type.to_le_bytes());
    v.extend_from_slice(&x.to_le_bytes());
    v.extend_from_slice(&y.to_le_bytes());
    v.extend_from_slice(payload);
    v
}

#[test]
fn one_dim_array() {
    let b = one_dim_bytes();
    let expected = SerDataOneDim {
        calibration_offset: 1.0f64.to_bits(),
        calibration_delta: 0.25f64.to_bits(),
        calibration_element: 7,
        data_type: 2,
        array_length: 3,
        data: SerRawData::DataU16(vec![5, 6, 700]),
    };
    assert_eq!(ser_data_one_dim_parser(&b), Ok((&b[b.len()..], expected)));
    let (_, d) = ser_data_parser(&b, ArrayDim::One).unwrap();
    assert!(matches!(d, SerData::OneDim(_)));
    assert_eq!(ser_data_parser(&b[..10], ArrayDim::One), Err(ParseError::Incomplete(8)));
}

#[test]
fn two_dim_array() {
    let b = two_dim_bytes(2, 3, 1, &[1, 2, 3, 4, 5, 6, 99]);
    let expected = SerDataTwoDim {
        calibration_offset_x: 1.0f64.to_bits(),
        calibration_delta_x: 0.5f64.to_bits(),
        calibration_element_x: 0,
        calibration_offset_y: 2.0f64.to_bits(),
        calibration_delta_y: 0.75f64.to_bits(),
        calibration_element_y: 1,
        data_type: 1,
        array_size_x: 2,
        array_size_y: 3,
        data: SerRawData::DataU8(vec![1, 2, 3, 4, 5, 6]),
    };
    assert!(!two_dim_size_overflow(&b));
    assert_eq!(ser_data_two_dim_parser(&b), Ok((&[99u8][..], expected)));
    let (_, d) = ser_data_parser(&b, ArrayDim::Two).unwrap();
    assert!(matches!(d, SerData::TwoDim(_)));
    let bad_type = two_dim_bytes(2, 3, 11, &[1, 2, 3, 4, 5, 6]);
    assert_eq!(ser_data_parser(&bad_type, ArrayDim::Two), Err(ParseError::Error(ErrorKind::Alt, bad_type.len())));
}

#[test]
fn two_dim_size_overflow_is_detected() {
    let b = two_dim_bytes(0x10000, 0x10000, 1, &[]);
    assert!(two_dim_size_overflow(&b));
    let ok = two_dim_bytes(-1, 0x10000, 1, &[]);
    assert!(!two_dim_size_overflow(&ok));
    assert!(!two_dim_size_overflow(&b[..49]));
}

#[test]
fn tags_of_both_kinds() {
    let mut t = vec![0x52, 0x41];
    t.extend_from_slice(&1234i32.to_le_bytes());
    assert_eq!(ser_data_tag_time_parser(&t), Ok((&t[6..], SerDataTagTime { time: 1234 })));
    assert_eq!(ser_data_tag_parser(&t, TagType::Time), Ok((&t[6..], SerDataTag::Time(SerDataTagTime { time: 1234 }))));
    assert_eq!(ser_data_tag_parser(&t, TagType::TimePos), Err(ParseError::Error(ErrorKind::Alt, 6)));
    let mut p = vec![0x42, 0x41];
    p.extend_from_slice(&(-5i32).to_le_bytes());
    p.extend_from_slice(&1.5f64.to_le_bytes());
    p.extend_from_slice(&(-3.0f64).to_le_bytes());
    let expected = SerDataTagTimePos { time: -5, position_x: 1.5f64.to_bits(), position_y: (-3.0f64).to_bits() };
    assert_eq!(ser_data_tag_time_pos_parser(&p), Ok((&p[22..], expected)));
    assert_eq!(ser_data_tag_parser(&p, TagType::TimePos), Ok((&p[22..], SerDataTag::TimePos(expected))));
    assert_eq!(ser_data_tag_time_parser(&p), Err(ParseError::Error(ErrorKind::Tag, 22)));
    assert_eq!(ser_data_tag_parser(&p[..10], TagType::TimePos), Err(ParseError::Incomplete(8)));
}
