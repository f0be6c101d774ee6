use ser_parser::data::{ArrayDim, SerData, SerDataTag, SerDataTagTime, SerRawData, TagType};
use ser_parser::error::{ErrorKind, ParseError};
use ser_parser::frame::{first_frame_image, max_value, read_first_frame, two_dim_image, FrameError};

/// A whole file: header (version 0x0210), offset tables at 30, one element
/// whose tag and data follow.
fn file(array_dim: [u8; 4], total: i32, data: &[u8]) -> Vec<u8> {
    let mut v = vec![0x49, 0x49];
    v.extend_from_slice(&0x0197i16.to_le_bytes());
    v.extend_from_slice(&0x0210i16.to_le_bytes());
    v.extend_from_slice(&array_dim);
    v.extend_from_slice(&[0x52, 0x41, 0x00, 0x00]);
    v.extend_from_slice(&total.to_le_bytes());
    v.extend_from_slice(&total.to_le_bytes());
    v.extend_from_slice(&30i32.to_le_bytes());
    v.extend_from_slice(&0i32.to_le_bytes());
    assert_eq!(v.len(), 30);
    let n = total.max(0) as usize;
    let tables = 30 + 8 * n;
    let tag_at = tables;
    let data_at = tag_at + 6;
    for _ in 0..n {
        v.extend_from_slice(&(data_at as i32).to_le_bytes());
    }
    for _ in 0..n {
        v.extend_from_slice(&(tag_at as i32).to_le_bytes());
    }
    v.extend_from_slice(&[0x52, 0x41]);
    v.extend_from_slice(&77i32.to_le_bytes());
    v.extend_from_slice(data);
    v
}

fn two_dim(data_type: i16, x: i32, y: i32, payload: &[u8]) -> Vec<u8> {
    let mut v = Vec::new();
    for _ in 0..2 {
        v.extend_from_slice(&0.0f64.to_le_bytes());
        v.extend_from_slice(&1.0f64.to_le_bytes());
        v.extend_from_slice(&0i32.to_le_bytes());
    }
    v.extend_from_slice(&data_type.to_le_bytes());
    v.extend_from_slice(&x.to_le_bytes());
    v.extend_from_slice(&y.to_le_bytes());
    v.extend_from_slice(payload);
    v
}

const TWO: [u8; 4] = [0x22, 0x41, 0, 0];
const ONE: [u8; 4] = [0x20, 0x41, 0, 0];

#[test]
fn first_frame_of_a_file() {
    let payload: Vec<u8> = [1u16, 2, 3, 4, 5, 6].iter().flat_map(|x| x.to_le_bytes()).collect();
    let f = file(TWO, 1, &two_dim(2, 3, 2, &payload));
    let frame = read_first_frame(&f).unwrap();
    assert_eq!(frame.header.array_dim, ArrayDim::Two);
    assert_eq!(frame.header.tag_type, TagType::Time);
    assert_eq!(frame.offsets.data_offset, vec![44]);
    assert_eq!(frame.offsets.tag_offset, vec![38]);
    assert_eq!(frame.tag, SerDataTag::Time(SerDataTagTime { time: 77 }));
    match frame.data {
        SerData::TwoDim(d) => {
            assert_eq!(d.array_size_x, 3);
            assert_eq!(d.array_size_y, 2);
            assert_eq!(d.data, SerRawData::DataU16(vec![1, 2, 3, 4, 5, 6]));
        },
        SerData::OneDim(_) => panic!("expected a two-dimensional array"),
    }
    let (dims, raw) = first_frame_image(&f).unwrap();
    assert_eq!(dims, (2, 3));
    assert_eq!(raw, SerRawData::DataU16(vec![1, 2, 3, 4, 5, 6]));
}

#[test]
fn first_frame_errors() {
    assert_eq!(read_first_frame(&[0x49]), Err(FrameError::Header(ParseError::Incomplete(2))));
    let empty = file(TWO, 0, &[]);
    assert_eq!(read_first_frame(&empty), Err(FrameError::NoElements));
    let mut far = file(TWO, 1, &two_dim(1, 1, 1, &[5]));
    far[22..26].copy_from_slice(&1000i32.to_le_bytes());
    assert_eq!(read_first_frame(&far), Err(FrameError::ArrayOffsetOutOfRange(1000)));
    let mut bad_tag = file(TWO, 1, &two_dim(1, 1, 1, &[5]));
    bad_tag[34..38].copy_from_slice(&5000i32.to_le_bytes());
    assert_eq!(read_first_frame(&bad_tag), Err(FrameError::TagOffsetOutOfRange(5000)));
    let mut bad_data = file(TWO, 1, &two_dim(1, 1, 1, &[5]));
    bad_data[30..34].copy_from_slice(&5000i32.to_le_bytes());
    assert_eq!(read_first_frame(&bad_data), Err(FrameError::DataOffsetOutOfRange(5000)));
    let mut wrong_tag = file(TWO, 1, &two_dim(1, 1, 1, &[5]));
    wrong_tag[38] = 0x42;
    assert_eq!(read_first_frame(&wrong_tag), Err(FrameError::Tag(ParseError::Error(ErrorKind::Alt, wrong_tag.len() - 38))));
    let huge = file(TWO, 1, &two_dim(1, 0x10000, 0x10000, &[]));
    assert_eq!(read_first_frame(&huge), Err(FrameError::DataSizeOverflow));
    let short = file(TWO, 1, &two_dim(1, 2, 2, &[1, 2]));
    assert_eq!(read_first_frame(&short), Err(FrameError::Data(ParseError::Incomplete(1))));
    let truncated_tables = &file(TWO, 2, &[])[..40];
    assert_eq!(read_first_frame(truncated_tables), Err(FrameError::Offsets(ParseError::Incomplete(4))));
}

#[test]
fn images_of_supported_types_only() {
    let one = {
        let mut v = Vec::new();
        v.extend_from_slice(&0.0f64.to_le_bytes());
        v.extend_from_slice(&1.0f64.to_le_bytes());
        v.extend_from_slice(&0i32.to_le_bytes());
        v.extend_from_slice(&1i16.to_le_bytes());
        v.extend_from_slice(&2i32.to_le_bytes());
        v.extend_from_slice(&[8, 9]);
        v
    };
    assert_eq!(first_frame_image(&file(ONE, 1, &one)), Err(FrameError::NotTwoDim));
    let u32s = file(TWO, 1, &two_dim(3, 1, 1, &7u32.to_le_bytes()));
    assert_eq!(first_frame_image(&u32s), Err(FrameError::UnsupportedDataType));
    let f64s = file(TWO, 1, &two_dim(8, 1, 1, &7.0f64.to_le_bytes()));
    assert_eq!(first_frame_image(&f64s), Err(FrameError::UnsupportedDataType));
    let i32s = file(TWO, 1, &two_dim(6, 1, 1, &(-7i32).to_le_bytes()));
    assert_eq!(first_frame_image(&i32s), Ok(((1, 1), SerRawData::DataI32(vec![-7]))));
    let frame = read_first_frame(&file(TWO, 1, &two_dim(4, 2, 1, &[0xFF, 1]))).unwrap();
    assert_eq!(two_dim_image(frame.data), Ok(((1, 2), SerRawData::DataI8(vec![-1, 1]))));
}

#[test]
fn largest_value() {
    assert_eq!(max_value(&[]), None);
    assert_eq!(max_value(&[3, 900, 7]), Some(900));
    assert_eq!(max_value(&[5]), Some(5));
}
