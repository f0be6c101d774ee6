//! The grammar of a `.ser` file: its header, the offset tables, the data
//! arrays and their tags.
use vstd::prelude::*;
use crate::bytes::{
    count, count_le, hex_bytes, hex_constant, is_hex, le_i16, le_i32, le_i64,
    le_reader, le_u64, models, spec_count, ItemReader, spec_le_i16, spec_le_i32, spec_le_i64,
    spec_le_u64, spec_tag, spec_take_str, tag,
};
use crate::data::{
    ArrayDim, DataModel, DimArray, DimArrayModel, HeaderModel, OffsetsModel, OneDimModel,
    RawDataModel, SerData, SerDataOneDim, SerDataTag, SerDataTagTime, SerDataTagTimePos,
    SerDataTwoDim, SerHeader, SerOffsets, SerRawData, TagType, TwoDimModel,
};
use crate::error::{
    agrees, agrees_value, bind, error_at, map_res, or_alt, ErrorKind, ParseError, SpecRes,
};
use crate::reader::{self, ser_reader};

verus! {

// ---------------------------------------------------------------------------
// The fixed byte sequences of the format, and the parsers of the codes.
// ---------------------------------------------------------------------------

/// The magic number that starts a file ("II").
pub open spec fn magic_id() -> Seq<u8> {
    seq![0x49u8, 0x49u8]
}

/// The tag type code of a series whose tags hold a time only.
pub open spec fn time_tag_type_id() -> Seq<u8> {
    seq![0x52u8, 0x41u8, 0x00u8, 0x00u8]
}

/// The tag type code of a series whose tags hold a time and a position.
pub open spec fn time_pos_tag_type_id() -> Seq<u8> {
    seq![0x42u8, 0x41u8, 0x00u8, 0x00u8]
}

/// The data type code of a series of one-dimensional arrays.
pub open spec fn one_dim_id() -> Seq<u8> {
    seq![0x20u8, 0x41u8, 0x00u8, 0x00u8]
}

/// The data type code of a series of two-dimensional arrays.
pub open spec fn two_dim_id() -> Seq<u8> {
    seq![0x22u8, 0x41u8, 0x00u8, 0x00u8]
}

/// The marker that starts a time-only tag.
pub open spec fn time_tag_id() -> Seq<u8> {
    seq![0x52u8, 0x41u8]
}

/// The marker that starts a time-and-position tag.
pub open spec fn time_pos_tag_id() -> Seq<u8> {
    seq![0x42u8, 0x41u8]
}

pub(crate) fn magic_bytes() -> (v: Vec<u8>)
    ensures
        v@ == magic_id(),
{
    proof {
        reveal_strlit("4949");
        assert(is_hex("4949"@));
        assert(hex_bytes("4949"@) =~= magic_id());
    }
    hex_constant("4949")
}

fn time_tag_type_bytes() -> (v: Vec<u8>)
    ensures
        v@ == time_tag_type_id(),
{
    proof {
        reveal_strlit("52410000");
        assert(is_hex("52410000"@));
        assert(hex_bytes("52410000"@) =~= time_tag_type_id());
    }
    hex_constant("52410000")
}

fn time_pos_tag_type_bytes() -> (v: Vec<u8>)
    ensures
        v@ == time_pos_tag_type_id(),
{
    proof {
        reveal_strlit("42410000");
        assert(is_hex("42410000"@));
        assert(hex_bytes("42410000"@) =~= time_pos_tag_type_id());
    }
    hex_constant("42410000")
}

fn one_dim_bytes() -> (v: Vec<u8>)
    ensures
        v@ == one_dim_id(),
{
    proof {
        reveal_strlit("20410000");
        assert(is_hex("20410000"@));
        assert(hex_bytes("20410000"@) =~= one_dim_id());
    }
    hex_constant("20410000")
}

fn two_dim_bytes() -> (v: Vec<u8>)
    ensures
        v@ == two_dim_id(),
{
    proof {
        reveal_strlit("22410000");
        assert(is_hex("22410000"@));
        assert(hex_bytes("22410000"@) =~= two_dim_id());
    }
    hex_constant("22410000")
}

fn time_tag_bytes() -> (v: Vec<u8>)
    ensures
        v@ == time_tag_id(),
{
    proof {
        reveal_strlit("5241");
        assert(is_hex("5241"@));
        assert(hex_bytes("5241"@) =~= time_tag_id());
    }
    hex_constant("5241")
}

fn time_pos_tag_bytes() -> (v: Vec<u8>)
    ensures
        v@ == time_pos_tag_id(),
{
    proof {
        reveal_strlit("4241");
        assert(is_hex("4241"@));
        assert(hex_bytes("4241"@) =~= time_pos_tag_id());
    }
    hex_constant("4241")
}

/// A choice between two alternatives: the second is tried only when the
/// first rejects the input; when both reject it, the choice does (`Alt`).
pub open spec fn alt2<A>(r1: SpecRes<A>, r2: SpecRes<A>, s: Seq<u8>) -> SpecRes<A> {
    match r1 {
        Err(ParseError::Error(_, _)) => or_alt(r2, s),
        other => other,
    }
}

/// The tag type code of the header.
pub open spec fn spec_tag_type(s: Seq<u8>) -> SpecRes<TagType> {
    alt2(
        map_res(spec_tag(s, time_tag_type_id()), |u: ()| TagType::Time),
        map_res(spec_tag(s, time_pos_tag_type_id()), |u: ()| TagType::TimePos),
        s,
    )
}

/// The data type code of the header.
pub open spec fn spec_array_dim(s: Seq<u8>) -> SpecRes<ArrayDim> {
    alt2(
        map_res(spec_tag(s, one_dim_id()), |u: ()| ArrayDim::One),
        map_res(spec_tag(s, two_dim_id()), |u: ()| ArrayDim::Two),
        s,
    )
}

/// Parses whether the tags hold a time only or a time and a position.
pub fn tag_type<'a>(i: &'a [u8]) -> (r: Result<(&'a [u8], TagType), ParseError>)
    ensures
        agrees(r, spec_tag_type(i@)),
{
    let t1 = time_tag_type_bytes();
    match tag(i, t1.as_slice()) {
        Ok((rest, _)) => Ok((rest, TagType::Time)),
        Err(ParseError::Error(_, _)) => {
            let t2 = time_pos_tag_type_bytes();
            match tag(i, t2.as_slice()) {
                Ok((rest, _)) => Ok((rest, TagType::TimePos)),
                Err(ParseError::Error(_, _)) => Err(ParseError::Error(ErrorKind::Alt, i.len())),
                Err(e) => Err(e),
            }
        },
        Err(e) => Err(e),
    }
}

/// Parses whether the arrays are one- or two-dimensional.
pub fn array_dim<'a>(i: &'a [u8]) -> (r: Result<(&'a [u8], ArrayDim), ParseError>)
    ensures
        agrees(r, spec_array_dim(i@)),
{
    let t1 = one_dim_bytes();
    match tag(i, t1.as_slice()) {
        Ok((rest, _)) => Ok((rest, ArrayDim::One)),
        Err(ParseError::Error(_, _)) => {
            let t2 = two_dim_bytes();
            match tag(i, t2.as_slice()) {
                Ok((rest, _)) => Ok((rest, ArrayDim::Two)),
                Err(ParseError::Error(_, _)) => Err(ParseError::Error(ErrorKind::Alt, i.len())),
                Err(e) => Err(e),
            }
        },
        Err(e) => Err(e),
    }
}

// ---------------------------------------------------------------------------
// Offsets.
// ---------------------------------------------------------------------------

/// An offset: eight bytes from series version 544 on, four before.
pub open spec fn spec_parse_offset(series_version: i16, s: Seq<u8>) -> SpecRes<i64> {
    if series_version >= 544 {
        spec_le_i64(s)
    } else {
        map_res(spec_le_i32(s), |y: i32| y as i64)
    }
}

/// The offset reader of a given series version, as a specification function.
pub open spec fn offset_reader(series_version: i16) -> spec_fn(Seq<u8>) -> SpecRes<i64> {
    |s: Seq<u8>| spec_parse_offset(series_version, s)
}

/// The two offset tables, `total_element_count` entries each.
pub open spec fn spec_ser_offsets(s: Seq<u8>, series_version: i16, total_element_count: i32) -> SpecRes<OffsetsModel> {
    bind(
        spec_count(offset_reader(series_version), s, total_element_count as usize),
        |s1: Seq<u8>, data_offset: Seq<i64>|
            bind(
                spec_count(offset_reader(series_version), s1, total_element_count as usize),
                |s2: Seq<u8>, tag_offset: Seq<i64>|
                    Ok::<(Seq<u8>, OffsetsModel), ParseError>(
                        (s2, OffsetsModel { data_offset, tag_offset }),
                    ),
            ),
    )
}

/// Parses an offset, whose width depends on the series version.
pub fn parse_offset<'a>(i: &'a [u8], series_version: i16) -> (r: Result<(&'a [u8], i64), ParseError>)
    ensures
        agrees_value(r, spec_parse_offset(series_version, i@)),
        r matches Ok((rest, _)) ==> rest@.len() < i@.len(),
{
    if series_version >= 544 {
        le_i64(i)
    } else {
        match le_i32(i) {
            Ok((rest, y)) => Ok((rest, y as i64)),
            Err(e) => Err(e),
        }
    }
}

/// The reader of the offsets of a given series version.
pub struct OffsetReader {
    pub series_version: i16,
}

impl<'a> ItemReader<'a> for OffsetReader {
    type Item = i64;
    type Model = i64;

    open spec fn model(item: i64) -> i64 {
        item
    }

    open spec fn spec_reader(&self) -> spec_fn(Seq<u8>) -> SpecRes<i64> {
        offset_reader(self.series_version)
    }

    fn read(&self, i: &'a [u8]) -> (r: Result<(&'a [u8], i64), ParseError>) {
        parse_offset(i, self.series_version)
    }
}

/// Reads `n` offsets one after the other.
fn count_offsets<'a>(i: &'a [u8], series_version: i16, n: usize) -> (r: Result<(&'a [u8], Vec<i64>), ParseError>)
    ensures
        agrees(r, spec_count(offset_reader(series_version), i@, n)),
{
    let reader = OffsetReader { series_version };
    let r = count(&reader, i, n);
    if let Ok((_, v)) = &r {
        assert(models::<OffsetReader>(v@) =~= v@);
    }
    r
}

/// Parses the two offset tables of a file (`total_element_count` entries
/// each, of the width that `series_version` gives).
pub fn ser_offsets_parser<'a>(i: &'a [u8], series_version: i16, total_element_count: i32) -> (r: Result<(&'a [u8], SerOffsets), ParseError>)
    ensures
        agrees(r, spec_ser_offsets(i@, series_version, total_element_count)),
{
    let n = total_element_count as usize;
    match count_offsets(i, series_version, n) {
        Ok((i1, data_offset)) => match count_offsets(i1, series_version, n) {
            Ok((i2, tag_offset)) => Ok((i2, SerOffsets { data_offset, tag_offset })),
            Err(e) => Err(e),
        },
        Err(e) => Err(e),
    }
}

// ---------------------------------------------------------------------------
// Data arrays.
// ---------------------------------------------------------------------------

/// `elements` values of the type that the code `data_type` names (1 to 8:
/// u8, u16, u32, i8, i16, i32, f32, f64); any other code is rejected.
pub open spec fn spec_raw_data(s: Seq<u8>, data_type: i16, elements: usize) -> SpecRes<RawDataModel> {
    if data_type == 1 {
        or_alt(map_res(spec_count(le_reader::<u8>(), s, elements), |v: Seq<u8>| RawDataModel::DataU8(v)), s)
    } else if data_type == 2 {
        or_alt(map_res(spec_count(le_reader::<u16>(), s, elements), |v: Seq<u16>| RawDataModel::DataU16(v)), s)
    } else if data_type == 3 {
        or_alt(map_res(spec_count(le_reader::<u32>(), s, elements), |v: Seq<u32>| RawDataModel::DataU32(v)), s)
    } else if data_type == 4 {
        or_alt(map_res(spec_count(le_reader::<i8>(), s, elements), |v: Seq<i8>| RawDataModel::DataI8(v)), s)
    } else if data_type == 5 {
        or_alt(map_res(spec_count(le_reader::<i16>(), s, elements), |v: Seq<i16>| RawDataModel::DataI16(v)), s)
    } else if data_type == 6 {
        or_alt(map_res(spec_count(le_reader::<i32>(), s, elements), |v: Seq<i32>| RawDataModel::DataI32(v)), s)
    } else if data_type == 7 {
        or_alt(map_res(spec_count(le_reader::<u32>(), s, elements), |v: Seq<u32>| RawDataModel::DataF32(v)), s)
    } else if data_type == 8 {
        or_alt(map_res(spec_count(le_reader::<u64>(), s, elements), |v: Seq<u64>| RawDataModel::DataF64(v)), s)
    } else {
        Err(error_at(ErrorKind::Alt, s))
    }
}

/// Parses `elements` values of the type that the code `data_type` names.
pub fn ser_raw_data_parser<'a>(i: &'a [u8], data_type: i16, elements: usize) -> (r: Result<(&'a [u8], SerRawData), ParseError>)
    ensures
        agrees(r, spec_raw_data(i@, data_type, elements)),
{
    let res = if data_type == 1 {
        match count_le::<u8>(i, elements) {
            Ok((rest, v)) => Ok((rest, SerRawData::DataU8(v))),
            Err(e) => Err(e),
        }
    } else if data_type == 2 {
        match count_le::<u16>(i, elements) {
            Ok((rest, v)) => Ok((rest, SerRawData::DataU16(v))),
            Err(e) => Err(e),
        }
    } else if data_type == 3 {
        match count_le::<u32>(i, elements) {
            Ok((rest, v)) => Ok((rest, SerRawData::DataU32(v))),
            Err(e) => Err(e),
        }
    } else if data_type == 4 {
        match count_le::<i8>(i, elements) {
            Ok((rest, v)) => Ok((rest, SerRawData::DataI8(v))),
            Err(e) => Err(e),
        }
    } else if data_type == 5 {
        match count_le::<i16>(i, elements) {
            Ok((rest, v)) => Ok((rest, SerRawData::DataI16(v))),
            Err(e) => Err(e),
        }
    } else if data_type == 6 {
        match count_le::<i32>(i, elements) {
            Ok((rest, v)) => Ok((rest, SerRawData::DataI32(v))),
            Err(e) => Err(e),
        }
    } else if data_type == 7 {
        match count_le::<u32>(i, elements) {
            Ok((rest, v)) => Ok((rest, SerRawData::DataF32(v))),
            Err(e) => Err(e),
        }
    } else if data_type == 8 {
        match count_le::<u64>(i, elements) {
            Ok((rest, v)) => Ok((rest, SerRawData::DataF64(v))),
            Err(e) => Err(e),
        }
    } else {
        Err(ParseError::Error(ErrorKind::Alt, i.len()))
    };
    match res {
        Err(ParseError::Error(_, _)) => Err(ParseError::Error(ErrorKind::Alt, i.len())),
        other => other,
    }
}

/// A one-dimensional array: its calibration, its data type code, its length
/// and that many elements.
pub open spec fn spec_one_dim(s: Seq<u8>) -> SpecRes<OneDimModel> {
    bind(spec_calibration(s), |s3: Seq<u8>, c: (u64, u64, i32)|
    bind(spec_le_i16(s3), |s4: Seq<u8>, data_type: i16|
    bind(spec_le_i32(s4), |s5: Seq<u8>, array_length: i32|
    bind(spec_raw_data(s5, data_type, array_length as usize), |s6: Seq<u8>, data: RawDataModel|
        Ok::<(Seq<u8>, OneDimModel), ParseError>((s6, OneDimModel {
            calibration_offset: c.0,
            calibration_delta: c.1,
            calibration_element: c.2,
            data_type,
            array_length,
            data,
        }))))))
}

/// Parses a one-dimensional data array.
pub fn ser_data_one_dim_parser<'a>(i: &'a [u8]) -> (r: Result<(&'a [u8], SerDataOneDim), ParseError>)
    ensures
        agrees(r, spec_one_dim(i@)),
{
    let (i3, c) = match calibration(i) { Ok(p) => p, Err(e) => return Err(e) };
    let (i4, data_type) = match le_i16(i3) { Ok(p) => p, Err(e) => return Err(e) };
    let (i5, array_length) = match le_i32(i4) { Ok(p) => p, Err(e) => return Err(e) };
    let (i6, data) = match ser_raw_data_parser(i5, data_type, array_length as usize) {
        Ok(p) => p,
        Err(e) => return Err(e),
    };
    Ok((i6, SerDataOneDim {
        calibration_offset: c.0,
        calibration_delta: c.1,
        calibration_element: c.2,
        data_type,
        array_length,
        data,
    }))
}

/// The fixed part of a two-dimensional array, before its elements.
#[derive(Clone, Copy)]
pub struct TwoDimHead {
    pub calibration_offset_x: u64,
    pub calibration_delta_x: u64,
    pub calibration_element_x: i32,
    pub calibration_offset_y: u64,
    pub calibration_delta_y: u64,
    pub calibration_element_y: i32,
    pub data_type: i16,
    pub array_size_x: i32,
    pub array_size_y: i32,
}

/// The calibration of an axis: offset and delta (double bit patterns) and
/// the reference element.
pub open spec fn spec_calibration(s: Seq<u8>) -> SpecRes<(u64, u64, i32)> {
    bind(spec_le_u64(s), |s1: Seq<u8>, offset: u64|
    bind(spec_le_u64(s1), |s2: Seq<u8>, delta: u64|
    bind(spec_le_i32(s2), |s3: Seq<u8>, element: i32|
        Ok::<(Seq<u8>, (u64, u64, i32)), ParseError>((s3, (offset, delta, element))))))
}

pub(crate) fn calibration<'a>(i: &'a [u8]) -> (r: Result<(&'a [u8], (u64, u64, i32)), ParseError>)
    ensures
        agrees_value(r, spec_calibration(i@)),
{
    let (i1, offset) = match le_u64(i) { Ok(p) => p, Err(e) => return Err(e) };
    let (i2, delta) = match le_u64(i1) { Ok(p) => p, Err(e) => return Err(e) };
    let (i3, element) = match le_i32(i2) { Ok(p) => p, Err(e) => return Err(e) };
    Ok((i3, (offset, delta, element)))
}

/// The calibrations of both axes, the data type code and both sizes.
pub open spec fn spec_two_dim_head(s: Seq<u8>) -> SpecRes<TwoDimHead> {
    bind(spec_calibration(s), |s1: Seq<u8>, x: (u64, u64, i32)|
    bind(spec_calibration(s1), |s2: Seq<u8>, y: (u64, u64, i32)|
    bind(spec_le_i16(s2), |s3: Seq<u8>, data_type: i16|
    bind(spec_le_i32(s3), |s4: Seq<u8>, array_size_x: i32|
    bind(spec_le_i32(s4), |s5: Seq<u8>, array_size_y: i32|
        Ok::<(Seq<u8>, TwoDimHead), ParseError>((s5, TwoDimHead {
            calibration_offset_x: x.0,
            calibration_delta_x: x.1,
            calibration_element_x: x.2,
            calibration_offset_y: y.0,
            calibration_delta_y: y.1,
            calibration_element_y: y.2,
            data_type,
            array_size_x,
            array_size_y,
        })))))))
}

/// The product of the two sizes of a two-dimensional array does not fit in
/// an `i32` (computing the number of elements then overflows).
pub open spec fn two_dim_size_overflows(s: Seq<u8>) -> bool {
    spec_two_dim_head(s) matches Ok((_, h))
        && !(i32::MIN <= h.array_size_x * h.array_size_y <= i32::MAX)
}

/// A two-dimensional array: its head and `array_size_x * array_size_y`
/// elements.
pub open spec fn spec_two_dim(s: Seq<u8>) -> SpecRes<TwoDimModel> {
    bind(spec_two_dim_head(s), |s9: Seq<u8>, h: TwoDimHead|
    bind(spec_raw_data(s9, h.data_type, ((h.array_size_x * h.array_size_y) as i32) as usize),
        |s10: Seq<u8>, data: RawDataModel|
        Ok::<(Seq<u8>, TwoDimModel), ParseError>((s10, TwoDimModel {
            calibration_offset_x: h.calibration_offset_x,
            calibration_delta_x: h.calibration_delta_x,
            calibration_element_x: h.calibration_element_x,
            calibration_offset_y: h.calibration_offset_y,
            calibration_delta_y: h.calibration_delta_y,
            calibration_element_y: h.calibration_element_y,
            data_type: h.data_type,
            array_size_x: h.array_size_x,
            array_size_y: h.array_size_y,
            data,
        }))))
}

fn two_dim_head<'a>(i: &'a [u8]) -> (r: Result<(&'a [u8], TwoDimHead), ParseError>)
    ensures
        agrees_value(r, spec_two_dim_head(i@)),
{
    let (i1, x) = match calibration(i) { Ok(p) => p, Err(e) => return Err(e) };
    let (i2, y) = match calibration(i1) { Ok(p) => p, Err(e) => return Err(e) };
    let (i3, data_type) = match le_i16(i2) { Ok(p) => p, Err(e) => return Err(e) };
    let (i4, array_size_x) = match le_i32(i3) { Ok(p) => p, Err(e) => return Err(e) };
    let (i5, array_size_y) = match le_i32(i4) { Ok(p) => p, Err(e) => return Err(e) };
    Ok((i5, TwoDimHead {
        calibration_offset_x: x.0,
        calibration_delta_x: x.1,
        calibration_element_x: x.2,
        calibration_offset_y: y.0,
        calibration_delta_y: y.1,
        calibration_element_y: y.2,
        data_type,
        array_size_x,
        array_size_y,
    }))
}

/// Tells whether the input starts with the head of a two-dimensional array
/// whose number of elements overflows an `i32`; such an input is outside
/// what [`ser_data_two_dim_parser`] accepts.
pub fn two_dim_size_overflow(i: &[u8]) -> (b: bool)
    ensures
        b == two_dim_size_overflows(i@),
{
    match two_dim_head(i) {
        Ok((_, h)) => {
            let x = h.array_size_x as i64;
            let y = h.array_size_y as i64;
            assert(-0x4000_0000_0000_0000 <= x * y <= 0x4000_0000_0000_0000) by (nonlinear_arith)
                requires
                    -0x8000_0000 <= x <= 0x7fff_ffff,
                    -0x8000_0000 <= y <= 0x7fff_ffff,
            ;
            let p: i64 = x * y;
            p < i32::MIN as i64 || p > i32::MAX as i64
        },
        Err(_) => false,
    }
}

/// Parses a two-dimensional data array.
pub fn ser_data_two_dim_parser<'a>(i: &'a [u8]) -> (r: Result<(&'a [u8], SerDataTwoDim), ParseError>)
    requires
        !two_dim_size_overflows(i@),
    ensures
        agrees(r, spec_two_dim(i@)),
{
    let (i9, h) = match two_dim_head(i) { Ok(p) => p, Err(e) => return Err(e) };
    let (i10, data) = match ser_raw_data_parser(i9, h.data_type, (h.array_size_x * h.array_size_y) as usize) {
        Ok(p) => p,
        Err(e) => return Err(e),
    };
    Ok((i10, SerDataTwoDim {
        calibration_offset_x: h.calibration_offset_x,
        calibration_delta_x: h.calibration_delta_x,
        calibration_element_x: h.calibration_element_x,
        calibration_offset_y: h.calibration_offset_y,
        calibration_delta_y: h.calibration_delta_y,
        calibration_element_y: h.calibration_element_y,
        data_type: h.data_type,
        array_size_x: h.array_size_x,
        array_size_y: h.array_size_y,
        data,
    }))
}

// ---------------------------------------------------------------------------
// Tags.
// ---------------------------------------------------------------------------

/// A time-only tag: its marker and the time.
pub open spec fn spec_tag_time(s: Seq<u8>) -> SpecRes<SerDataTagTime> {
    bind(spec_tag(s, time_tag_id()), |s1: Seq<u8>, u: ()|
    bind(spec_le_i32(s1), |s2: Seq<u8>, time: i32|
        Ok::<(Seq<u8>, SerDataTagTime), ParseError>((s2, SerDataTagTime { time }))))
}

/// A time-and-position tag: its marker, the time and the position.
pub open spec fn spec_tag_time_pos(s: Seq<u8>) -> SpecRes<SerDataTagTimePos> {
    bind(spec_tag(s, time_pos_tag_id()), |s1: Seq<u8>, u: ()|
    bind(spec_le_i32(s1), |s2: Seq<u8>, time: i32|
    bind(spec_le_u64(s2), |s3: Seq<u8>, position_x: u64|
    bind(spec_le_u64(s3), |s4: Seq<u8>, position_y: u64|
        Ok::<(Seq<u8>, SerDataTagTimePos), ParseError>((s4, SerDataTagTimePos { time, position_x, position_y }))))))
}

/// The tag of the kind that the header's tag type names.
pub open spec fn spec_data_tag(s: Seq<u8>, tag_type: TagType) -> SpecRes<SerDataTag> {
    match tag_type {
        TagType::Time => or_alt(map_res(spec_tag_time(s), |t: SerDataTagTime| SerDataTag::Time(t)), s),
        TagType::TimePos => or_alt(map_res(spec_tag_time_pos(s), |t: SerDataTagTimePos| SerDataTag::TimePos(t)), s),
    }
}

/// The data array of the shape that the header's data type names.
pub open spec fn spec_data(s: Seq<u8>, array_dim: ArrayDim) -> SpecRes<DataModel> {
    match array_dim {
        ArrayDim::One => or_alt(map_res(spec_one_dim(s), |d: OneDimModel| DataModel::OneDim(d)), s),
        ArrayDim::Two => or_alt(map_res(spec_two_dim(s), |d: TwoDimModel| DataModel::TwoDim(d)), s),
    }
}

/// Parses a time-only tag.
pub fn ser_data_tag_time_parser<'a>(i: &'a [u8]) -> (r: Result<(&'a [u8], SerDataTagTime), ParseError>)
    ensures
        agrees(r, spec_tag_time(i@)),
{
    let t = time_tag_bytes();
    let (i1, _) = match tag(i, t.as_slice()) { Ok(p) => p, Err(e) => return Err(e) };
    let (i2, time) = match le_i32(i1) { Ok(p) => p, Err(e) => return Err(e) };
    Ok((i2, SerDataTagTime { time }))
}

/// Parses a time-and-position tag.
pub fn ser_data_tag_time_pos_parser<'a>(i: &'a [u8]) -> (r: Result<(&'a [u8], SerDataTagTimePos), ParseError>)
    ensures
        agrees(r, spec_tag_time_pos(i@)),
{
    let t = time_pos_tag_bytes();
    let (i1, _) = match tag(i, t.as_slice()) { Ok(p) => p, Err(e) => return Err(e) };
    let (i2, time) = match le_i32(i1) { Ok(p) => p, Err(e) => return Err(e) };
    let (i3, position_x) = match le_u64(i2) { Ok(p) => p, Err(e) => return Err(e) };
    let (i4, position_y) = match le_u64(i3) { Ok(p) => p, Err(e) => return Err(e) };
    Ok((i4, SerDataTagTimePos { time, position_x, position_y }))
}

/// Parses a tag of the kind that `tag_type` names.
pub fn ser_data_tag_parser<'a>(i: &'a [u8], tag_type: TagType) -> (r: Result<(&'a [u8], SerDataTag), ParseError>)
    ensures
        agrees(r, spec_data_tag(i@, tag_type)),
{
    let res = match tag_type {
        TagType::Time => match ser_data_tag_time_parser(i) {
            Ok((rest, t)) => Ok((rest, SerDataTag::Time(t))),
            Err(e) => Err(e),
        },
        TagType::TimePos => match ser_data_tag_time_pos_parser(i) {
            Ok((rest, t)) => Ok((rest, SerDataTag::TimePos(t))),
            Err(e) => Err(e),
        },
    };
    match res {
        Err(ParseError::Error(_, _)) => Err(ParseError::Error(ErrorKind::Alt, i.len())),
        other => other,
    }
}

/// Parses a data array of the shape that `array_dim` names.
pub fn ser_data_parser<'a>(i: &'a [u8], array_dim: ArrayDim) -> (r: Result<(&'a [u8], SerData), ParseError>)
    requires
        array_dim == ArrayDim::Two ==> !two_dim_size_overflows(i@),
    ensures
        agrees(r, spec_data(i@, array_dim)),
{
    let res = match array_dim {
        ArrayDim::One => match ser_data_one_dim_parser(i) {
            Ok((rest, d)) => Ok((rest, SerData::OneDim(d))),
            Err(e) => Err(e),
        },
        ArrayDim::Two => match ser_data_two_dim_parser(i) {
            Ok((rest, d)) => Ok((rest, SerData::TwoDim(d))),
            Err(e) => Err(e),
        },
    };
    match res {
        Err(ParseError::Error(_, _)) => Err(ParseError::Error(ErrorKind::Alt, i.len())),
        other => other,
    }
}

// ---------------------------------------------------------------------------
// The header.
// ---------------------------------------------------------------------------

/// A string given by its byte length (a little-endian `i32`) and its UTF-8
/// bytes.
pub open spec fn spec_counted_str(s: Seq<u8>) -> SpecRes<Seq<char>> {
    bind(spec_le_i32(s), |s1: Seq<u8>, n: i32| spec_take_str(s1, n as usize))
}

/// The description of a dimension: its size, its calibration, its
/// description and its units.
pub open spec fn spec_dim_array(s: Seq<u8>) -> SpecRes<DimArrayModel> {
    bind(spec_le_i32(s), |s1: Seq<u8>, dimension_size: i32|
    bind(spec_calibration(s1), |s2: Seq<u8>, c: (u64, u64, i32)|
    bind(spec_counted_str(s2), |s3: Seq<u8>, description: Seq<char>|
    bind(spec_counted_str(s3), |s4: Seq<u8>, units: Seq<char>|
        Ok::<(Seq<u8>, DimArrayModel), ParseError>((s4, DimArrayModel {
            dimension_size,
            calibration_offset: c.0,
            calibration_delta: c.1,
            calibration_element: c.2,
            description,
            units,
        }))))))
}

/// The reader of dimension descriptions, as a specification function.
pub open spec fn dim_array_reader() -> spec_fn(Seq<u8>) -> SpecRes<DimArrayModel> {
    |s: Seq<u8>| spec_dim_array(s)
}

/// The codes at the start of the header: series id, series version, data
/// type and tag type, after the magic number.
#[verifier::opaque]
pub open spec fn spec_header_codes(s: Seq<u8>) -> SpecRes<(i16, i16, ArrayDim, TagType)> {
    bind(spec_tag(s, magic_id()), |s1: Seq<u8>, u: ()|
    bind(spec_le_i16(s1), |s2: Seq<u8>, series_id: i16|
    bind(spec_le_i16(s2), |s3: Seq<u8>, series_version: i16|
    bind(spec_array_dim(s3), |s4: Seq<u8>, array_dim: ArrayDim|
    bind(spec_tag_type(s4), |s5: Seq<u8>, tag_type: TagType|
        Ok::<(Seq<u8>, (i16, i16, ArrayDim, TagType)), ParseError>(
            (s5, (series_id, series_version, array_dim, tag_type)),
        ))))))
}

/// The counts after the codes of the header: total and valid element
/// counts, the offset of the offset tables (whose width depends on the
/// series version) and the number of dimensions.
#[verifier::opaque]
pub open spec fn spec_header_counts(s5: Seq<u8>, series_version: i16) -> SpecRes<(i32, i32, i64, i32)> {
    bind(spec_le_i32(s5), |s6: Seq<u8>, total_element_count: i32|
    bind(spec_le_i32(s6), |s7: Seq<u8>, valid_element_count: i32|
    bind(spec_parse_offset(series_version, s7), |s8: Seq<u8>, array_offset: i64|
    bind(spec_le_i32(s8), |s9: Seq<u8>, number_dimensions: i32|
        Ok::<(Seq<u8>, (i32, i32, i64, i32)), ParseError>(
            (s9, (total_element_count, valid_element_count, array_offset, number_dimensions)),
        )))))
}

/// The part of the header after its codes `c`: the counts, then the
/// `number_dimensions` descriptions of the dimensions.
#[verifier::opaque]
pub open spec fn spec_header_rest(s5: Seq<u8>, c: (i16, i16, ArrayDim, TagType)) -> SpecRes<HeaderModel> {
    bind(spec_header_counts(s5, c.1), |s9: Seq<u8>, k: (i32, i32, i64, i32)|
    bind(spec_count(dim_array_reader(), s9, k.3 as usize),
        |s10: Seq<u8>, dimension_arrays: Seq<DimArrayModel>|
        Ok::<(Seq<u8>, HeaderModel), ParseError>((s10, HeaderModel {
            series_id: c.0,
            series_version: c.1,
            array_dim: c.2,
            tag_type: c.3,
            total_element_count: k.0,
            valid_element_count: k.1,
            array_offset: k.2,
            dimension_arrays,
        }))))
}

/// The header of a file: its codes, then the rest.
pub open spec fn spec_ser_header(s: Seq<u8>) -> SpecRes<HeaderModel> {
    bind(spec_header_codes(s), |s5: Seq<u8>, c: (i16, i16, ArrayDim, TagType)| spec_header_rest(s5, c))
}

/// Parses the header of a `.ser` file.
pub fn ser_header_parser<'a>(i: &'a [u8]) -> (r: Result<(&'a [u8], SerHeader), ParseError>)
    ensures
        agrees(r, spec_ser_header(i@)),
{
    let (rest, h) = match ser_reader(i) { Ok(p) => p, Err(e) => return Err(e) };
    let n = h.dimension_arrays.len();
    let mut dims: Vec<DimArray> = Vec::new();
    let mut k: usize = 0;
    while k < n
        invariant
            k <= n,
            n == h.dimension_arrays@.len(),
            dims@.len() == k,
            forall|j: int| 0 <= j < k ==> #[trigger] dims@[j]@ == h.dimension_arrays@[j]@,
        decreases n - k,
    {
        let d = &h.dimension_arrays[k];
        dims.push(DimArray {
            dimension_size: d.dimension_size,
            calibration_offset: d.calibration_offset,
            calibration_delta: d.calibration_delta,
            calibration_element: d.calibration_element,
            description: d.description.to_string(),
            units: d.units.to_string(),
        });
        k = k + 1;
    }
    let array_dim = match h.data_type {
        reader::ArrayDim::One => ArrayDim::One,
        reader::ArrayDim::Two => ArrayDim::Two,
    };
    let tag_type = match h.tag_type {
        reader::TagType::TimeOnly => TagType::Time,
        reader::TagType::TimeAnd2D => TagType::TimePos,
    };
    let header = SerHeader {
        series_id: h.series_id,
        series_version: h.series_version,
        array_dim,
        tag_type,
        total_element_count: h.total_element_count,
        valid_element_count: h.valid_element_count,
        array_offset: h.array_offset,
        dimension_arrays: dims,
    };
    assert(header@.dimension_arrays =~= h@.dimension_arrays);
    Ok((rest, header))
}

} // verus!
