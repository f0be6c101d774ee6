use ser_parser::data::{ArrayDim, SerData, SerDataTag, TagType};
use ser_parser::error::{ErrorKind, ParseError};
use ser_parser::data::SerRawData;
use ser_parser::frame::{first_frame_image, read_first_frame, FrameError};
use ser_parser::parsers::{
    ser_data_parser, ser_data_tag_parser, ser_header_parser, ser_offsets_parser, ser_raw_data_parser,
};

fn header() -> Vec<u8> {
    let mut v = vec![0x49, 0x49];
    v.extend_from_slice(&0x0197i16.to_le_bytes());
    v.extend_from_slice(&0x0210i16.to_le_bytes());
    v.extend_from_slice(&[0x20, 0x41, 0x00, 0x00]);
    v.extend_from_slice(&[0x42, 0x41, 0x00, 0x00]);
    v.extend_from_slice(&1i32.to_le_bytes());
    v.extend_from_slice(&1i32.to_le_bytes());
    v.extend_from_slice(&30i32.to_le_bytes());
    v.extend_from_slice(&1i32.to_le_bytes());
    v.extend_from_slice(&1i32.to_le_bytes());
    v.extend_from_slice(&0.0f64.to_le_bytes());
    v.extend_from_slice(&1.0f64.to_le_bytes());
    v.extend_from_slice(&0i32.to_le_bytes());
    v.extend_from_slice(&1i32.to_le_bytes());
    v.extend_from_slice(b"t");
    v.extend_from_slice(&1i32.to_le_bytes());
    v.extend_from_slice(b"s");
    v
}

#[test]
fn appending_keeps_a_parsed_header() {
    let h = header();
    let (rest, a) = ser_header_parser(&h).unwrap();
    assert!(rest.is_empty());
    let mut longer = h.clone();
    longer.extend_from_slice(&[1, 2, 3]);
    let (rest2, b) = ser_header_parser(&longer).unwrap();
    assert_eq!(rest2, &[1u8, 2, 3][..]);
    assert_eq!(a, b);
}

#[test]
fn appending_keeps_a_rejection() {
    let mut h = header();
    h[7] = 0x55;
    let e = ser_header_parser(&h).unwrap_err();
    assert_eq!(e, ParseError::Error(ErrorKind::Alt, h.len() - 6));
    let mut longer = h.clone();
    longer.extend_from_slice(&[9; 5]);
    assert_eq!(ser_header_parser(&longer), Err(ParseError::Error(ErrorKind::Alt, longer.len() - 6)));
}

#[test]
fn appending_can_complete_an_incomplete_input() {
    let h = header();
    assert_eq!(ser_header_parser(&h[..h.len() - 3]), Err(ParseError::Incomplete(4)));
    assert!(ser_header_parser(&h).is_ok());
}

#[test]
fn offset_tables_take_four_or_eight_bytes_per_entry() {
    let bytes = vec![0u8; 64];
    let (rest, o) = ser_offsets_parser(&bytes, 543, 3).unwrap();
    assert_eq!(bytes.len() - rest.len(), 2 * 3 * 4);
    assert_eq!((o.data_offset.len(), o.tag_offset.len()), (3, 3));
    let (rest, o) = ser_offsets_parser(&bytes, 544, 3).unwrap();
    assert_eq!(bytes.len() - rest.len(), 2 * 3 * 8);
    assert_eq!((o.data_offset.len(), o.tag_offset.len()), (3, 3));
    let negative = (-7i32).to_le_bytes().repeat(2);
    let (_, o) = ser_offsets_parser(&negative, 100, 1).unwrap();
    assert_eq!(o.data_offset, vec![-7]);
}

#[test]
fn elements_take_their_width() {
    let bytes = vec![0u8; 40];
    for (code, width) in [(1i16, 1usize), (2, 2), (3, 4), (4, 1), (5, 2), (6, 4), (7, 4), (8, 8)] {
        let (rest, _) = ser_raw_data_parser(&bytes, code, 4).unwrap();
        assert_eq!(bytes.len() - rest.len(), 4 * width);
    }
    assert_eq!(ser_raw_data_parser(&bytes, -3, 4), Err(ParseError::Error(ErrorKind::Alt, 40)));
}

#[test]
fn data_shape_follows_the_header() {
    let mut one = Vec::new();
    one.extend_from_slice(&[0u8; 20]);
    one.extend_from_slice(&5i16.to_le_bytes());
    one.extend_from_slice(&3i32.to_le_bytes());
    one.extend_from_slice(&[1, 0, 2, 0, 3, 0]);
    match ser_data_parser(&one, ArrayDim::One).unwrap().1 {
        SerData::OneDim(d) => assert_eq!(d.data, ser_parser::data::SerRawData::DataI16(vec![1, 2, 3])),
        SerData::TwoDim(_) => panic!("expected a one-dimensional array"),
    }
}

#[test]
fn tag_kind_follows_the_header() {
    let mut t = vec![0x42, 0x41];
    t.extend_from_slice(&[0u8; 24]);
    let (rest, g) = ser_data_tag_parser(&t, TagType::TimePos).unwrap();
    assert_eq!(t.len() - rest.len(), 22);
    assert!(matches!(g, SerDataTag::TimePos(_)));
    let mut u = vec![0x52, 0x41];
    u.extend_from_slice(&[0u8; 4]);
    let (rest, g) = ser_data_tag_parser(&u, TagType::Time).unwrap();
    assert_eq!(u.len() - rest.len(), 6);
    assert!(matches!(g, SerDataTag::Time(_)));
}

#[test]
fn header_needs_the_magic_number() {
    let mut h = header();
    h[0] = 0x4D;
    h[1] = 0x4D;
    assert_eq!(ser_header_parser(&h), Err(ParseError::Error(ErrorKind::Tag, h.len())));
}

#[test]
fn appending_keeps_a_readable_file() {
    let mut f = header();
    let at = f.len() as i32;
    f[22..26].copy_from_slice(&at.to_le_bytes());
    let tables = f.len();
    f.extend_from_slice(&((tables + 8 + 22) as i32).to_le_bytes());
    f.extend_from_slice(&((tables + 8) as i32).to_le_bytes());
    f.extend_from_slice(&[0x42, 0x41]);
    f.extend_from_slice(&[0u8; 20]);
    let mut one = vec![0u8; 20];
    one.extend_from_slice(&1i16.to_le_bytes());
    one.extend_from_slice(&2i32.to_le_bytes());
    one.extend_from_slice(&[4, 5]);
    f.extend(one);
    let a = read_first_frame(&f).unwrap();
    let mut longer = f.clone();
    longer.extend_from_slice(&[0xAB; 7]);
    assert_eq!(read_first_frame(&longer).unwrap(), a);
}

/// A file of two elements (version 0x0210, two-dimensional `u8` arrays,
/// time-only tags): header, tables, tag 0, data 0, tag 1, data 1.
fn two_element_file(time0: i32, pixels0: [u8; 4], pixels1: [u8; 4]) -> Vec<u8> {
    let mut v = vec![0x49, 0x49];
    v.extend_from_slice(&0x0197i16.to_le_bytes());
    v.extend_from_slice(&0x0210i16.to_le_bytes());
    v.extend_from_slice(&[0x22, 0x41, 0x00, 0x00]);
    v.extend_from_slice(&[0x52, 0x41, 0x00, 0x00]);
    v.extend_from_slice(&2i32.to_le_bytes());
    v.extend_from_slice(&2i32.to_le_bytes());
    v.extend_from_slice(&30i32.to_le_bytes());
    v.extend_from_slice(&0i32.to_le_bytes());
    let element = |pixels: [u8; 4]| {
        let mut e = Vec::new();
        for _ in 0..2 {
            e.extend_from_slice(&0.0f64.to_le_bytes());
            e.extend_from_slice(&1.0f64.to_le_bytes());
            e.extend_from_slice(&0i32.to_le_bytes());
        }
        e.extend_from_slice(&1i16.to_le_bytes());
        e.extend_from_slice(&2i32.to_le_bytes());
        e.extend_from_slice(&2i32.to_le_bytes());
        e.extend_from_slice(&pixels);
        e
    };
    let tag0 = 30 + 16;
    let data0 = tag0 + 6;
    let tag1 = data0 + 54;
    let data1 = tag1 + 6;
    for x in [data0, data1, tag0, tag1] {
        v.extend_from_slice(&(x as i32).to_le_bytes());
    }
    v.extend_from_slice(&[0x52, 0x41]);
    v.extend_from_slice(&time0.to_le_bytes());
    v.extend(element(pixels0));
    v.extend_from_slice(&[0x52, 0x41]);
    v.extend_from_slice(&9i32.to_le_bytes());
    v.extend(element(pixels1));
    v
}

#[test]
fn only_the_first_element_is_read() {
    let b1 = two_element_file(5, [1, 2, 3, 4], [9, 9, 9, 9]);
    let b2 = two_element_file(-7, [1, 2, 3, 4], [0, 1, 0, 1]);
    assert_eq!(b1.len(), b2.len());
    let f1 = read_first_frame(&b1).unwrap();
    let f2 = read_first_frame(&b2).unwrap();
    assert_eq!(f1.header, f2.header);
    assert_eq!(f1.offsets, f2.offsets);
    assert_eq!(f1.data, f2.data);
    assert_ne!(f1.tag, f2.tag);
    assert_eq!(first_frame_image(&b1), first_frame_image(&b2));
    assert_eq!(first_frame_image(&b1), Ok(((2, 2), SerRawData::DataU8(vec![1, 2, 3, 4]))));
}

#[test]
fn equal_examined_bytes_give_the_same_failure() {
    let mut b1 = two_element_file(5, [1, 2, 3, 4], [9, 9, 9, 9]);
    let mut b2 = two_element_file(-7, [1, 2, 3, 4], [0, 1, 0, 1]);
    // An unknown data type code in the first data array (at 52 + 40).
    b1[92] = 9;
    b2[92] = 9;
    let e1 = read_first_frame(&b1).unwrap_err();
    assert_eq!(read_first_frame(&b2).unwrap_err(), e1);
    assert_eq!(e1, FrameError::Data(ParseError::Error(ErrorKind::Alt, b1.len() - 52)));
    assert_eq!(first_frame_image(&b1), first_frame_image(&b2));
    // A header that is rejected: the bytes after its rejecting code differ.
    let mut h1 = b1.clone();
    let mut h2 = b2.clone();
    h1[6] = 0x21;
    h2[6] = 0x21;
    assert_eq!(read_first_frame(&h1), read_first_frame(&h2));
    assert_eq!(read_first_frame(&h1), Err(FrameError::Header(ParseError::Error(ErrorKind::Alt, h1.len() - 6))));
}
