//! The little-endian readers agree with those of the `nom` crate, on values
//! and on how many bytes an incomplete read needs.
use ser_parser::bytes::{le_i16, le_i32, le_i64, le_i8, le_u16, le_u32, le_u64, le_u8};
use ser_parser::error::ParseError;

fn inputs() -> Vec<Vec<u8>> {
    let mut all = vec![vec![], vec![0x80], vec![0xFF, 0x7F, 0x00]];
    all.push((0u8..9).collect());
    all.push(vec![0xFE; 9]);
    all.push(vec![0x01, 0x00, 0x00, 0x80, 0x55, 0xAA, 0x00, 0xFF]);
    all
}

fn same<T: PartialEq + std::fmt::Debug>(
    ours: Result<(&[u8], T), ParseError>,
    theirs: nom::IResult<&[u8], T>,
) {
    match (ours, theirs) {
        (Ok((r1, v1)), Ok((r2, v2))) => {
            assert_eq!(r1, r2);
            assert_eq!(v1, v2);
        },
        (Err(ParseError::Incomplete(n)), Err(nom::Err::Incomplete(nom::Needed::Size(m)))) => {
            assert_eq!(n, m)
        },
        (a, b) => panic!("disagreement: {:?} against {:?}", a, b),
    }
}

#[test]
fn integer_readers_agree_with_nom() {
    for b in inputs() {
        same(le_u8(&b), nom::le_u8(&b));
        same(le_u16(&b), nom::le_u16(&b));
        same(le_u32(&b), nom::le_u32(&b));
        same(le_u64(&b), nom::le_u64(&b));
        same(le_i8(&b), nom::le_i8(&b));
        same(le_i16(&b), nom::le_i16(&b));
        same(le_i32(&b), nom::le_i32(&b));
        same(le_i64(&b), nom::le_i64(&b));
    }
}

#[test]
fn float_bits_agree_with_nom() {
    for b in inputs() {
        if let (Ok((_, ours)), Ok((_, theirs))) = (le_u64(&b), nom::le_f64(&b)) {
            assert_eq!(ours, theirs.to_bits());
        }
        if let (Ok((_, ours)), Ok((_, theirs))) = (le_u32(&b), nom::le_f32(&b)) {
            assert_eq!(ours, theirs.to_bits());
        }
    }
}
