//! A reader of `.ser` headers whose strings borrow from the input.
use vstd::prelude::*;
use crate::bytes::{count, le_i16, le_i32, models, tag, take_str, ItemReader};
use crate::data::{self, DimArrayModel, HeaderModel};
use crate::error::{agrees, ParseError, SpecRes};
use crate::parsers::{
    array_dim, calibration, dim_array_reader, spec_header_codes, spec_header_counts, spec_header_rest, magic_bytes, parse_offset, spec_dim_array,
    spec_ser_header, tag_type,
};

verus! {

/// Whether each element of the series is a one- or a two-dimensional array.
#[derive(Clone, Copy, Debug, PartialEq, Eq, Structural)]
pub enum ArrayDim {
    One,
    Two,
}

/// Whether the tags hold a time only, or a time and a stage position.
#[derive(Clone, Copy, Debug, PartialEq, Eq, Structural)]
pub enum TagType {
    TimeOnly,
    TimeAnd2D,
}

/// The description of one dimension, whose strings borrow from the input.
/// `calibration_offset` and `calibration_delta` are double bit patterns.
#[derive(Debug, PartialEq)]
pub struct DimArray<'a> {
    pub dimension_size: i32,
    pub calibration_offset: u64,
    pub calibration_delta: u64,
    pub calibration_element: i32,
    pub description: &'a str,
    pub units: &'a str,
}

/// The header of a `.ser` file.
#[derive(Debug, PartialEq)]
pub struct Ser<'a> {
    pub series_id: i16,
    pub series_version: i16,
    pub data_type: ArrayDim,
    pub tag_type: TagType,
    pub total_element_count: i32,
    pub valid_element_count: i32,
    pub array_offset: i64,
    pub dimension_arrays: Vec<DimArray<'a>>,
}

impl View for ArrayDim {
    type V = data::ArrayDim;

    open spec fn view(&self) -> data::ArrayDim {
        match self {
            ArrayDim::One => data::ArrayDim::One,
            ArrayDim::Two => data::ArrayDim::Two,
        }
    }
}

impl View for TagType {
    type V = data::TagType;

    open spec fn view(&self) -> data::TagType {
        match self {
            TagType::TimeOnly => data::TagType::Time,
            TagType::TimeAnd2D => data::TagType::TimePos,
        }
    }
}

impl<'a> View for DimArray<'a> {
    type V = DimArrayModel;

    open spec fn view(&self) -> DimArrayModel {
        DimArrayModel {
            dimension_size: self.dimension_size,
            calibration_offset: self.calibration_offset,
            calibration_delta: self.calibration_delta,
            calibration_element: self.calibration_element,
            description: self.description@,
            units: self.units@,
        }
    }
}

/// The models of a sequence of dimension descriptions.
pub open spec fn dim_models<'a>(v: Seq<DimArray<'a>>) -> Seq<DimArrayModel> {
    v.map_values(|d: DimArray<'a>| d@)
}

impl<'a> View for Ser<'a> {
    type V = HeaderModel;

    open spec fn view(&self) -> HeaderModel {
        HeaderModel {
            series_id: self.series_id,
            series_version: self.series_version,
            array_dim: self.data_type@,
            tag_type: self.tag_type@,
            total_element_count: self.total_element_count,
            valid_element_count: self.valid_element_count,
            array_offset: self.array_offset,
            dimension_arrays: dim_models(self.dimension_arrays@),
        }
    }
}

/// Parses the description of a dimension.
pub fn dim_array<'a>(i: &'a [u8]) -> (r: Result<(&'a [u8], DimArray<'a>), ParseError>)
    ensures
        agrees(r, spec_dim_array(i@)),
        r matches Ok((rest, _)) ==> rest@.len() < i@.len(),
{
    let (i1, dimension_size) = match le_i32(i) { Ok(p) => p, Err(e) => return Err(e) };
    let (i2, c) = match calibration(i1) { Ok(p) => p, Err(e) => return Err(e) };
    let (i3, description_length) = match le_i32(i2) { Ok(p) => p, Err(e) => return Err(e) };
    let (i4, description) = match take_str(i3, description_length as usize) {
        Ok(p) => p,
        Err(e) => return Err(e),
    };
    let (i5, units_length) = match le_i32(i4) { Ok(p) => p, Err(e) => return Err(e) };
    let (i6, units) = match take_str(i5, units_length as usize) {
        Ok(p) => p,
        Err(e) => return Err(e),
    };
    Ok((i6, DimArray {
        dimension_size,
        calibration_offset: c.0,
        calibration_delta: c.1,
        calibration_element: c.2,
        description,
        units,
    }))
}

/// The reader of dimension descriptions.
pub struct DimArrayReader;

impl<'a> ItemReader<'a> for DimArrayReader {
    type Item = DimArray<'a>;
    type Model = DimArrayModel;

    open spec fn model(item: DimArray<'a>) -> DimArrayModel {
        item@
    }

    open spec fn spec_reader(&self) -> spec_fn(Seq<u8>) -> SpecRes<DimArrayModel> {
        dim_array_reader()
    }

    fn read(&self, i: &'a [u8]) -> (r: Result<(&'a [u8], DimArray<'a>), ParseError>) {
        dim_array(i)
    }
}

/// Parses the header of a `.ser` file.
pub fn ser_reader<'a>(i: &'a [u8]) -> (r: Result<(&'a [u8], Ser<'a>), ParseError>)
    ensures
        agrees(r, spec_ser_header(i@)),
{
    proof {
        reveal(spec_header_codes);
        reveal(spec_header_rest);
        reveal(spec_header_counts);
    }
    let magic = magic_bytes();
    let (i1, _) = match tag(i, magic.as_slice()) { Ok(p) => p, Err(e) => return Err(e) };
    let (i2, series_id) = match le_i16(i1) { Ok(p) => p, Err(e) => return Err(e) };
    let (i3, series_version) = match le_i16(i2) { Ok(p) => p, Err(e) => return Err(e) };
    let (i4, dim) = match array_dim(i3) { Ok(p) => p, Err(e) => return Err(e) };
    let (i5, tags) = match tag_type(i4) { Ok(p) => p, Err(e) => return Err(e) };
    let (i6, total_element_count) = match le_i32(i5) { Ok(p) => p, Err(e) => return Err(e) };
    let (i7, valid_element_count) = match le_i32(i6) { Ok(p) => p, Err(e) => return Err(e) };
    let (i8, array_offset) = match parse_offset(i7, series_version) {
        Ok(p) => p,
        Err(e) => return Err(e),
    };
    let (i9, number_dimensions) = match le_i32(i8) { Ok(p) => p, Err(e) => return Err(e) };
    let (i10, dimension_arrays) = match count(&DimArrayReader, i9, number_dimensions as usize) {
        Ok(p) => p,
        Err(e) => return Err(e),
    };
    let data_type = match dim {
        data::ArrayDim::One => ArrayDim::One,
        data::ArrayDim::Two => ArrayDim::Two,
    };
    let tag_type = match tags {
        data::TagType::Time => TagType::TimeOnly,
        data::TagType::TimePos => TagType::TimeAnd2D,
    };
    assert(models::<DimArrayReader>(dimension_arrays@) =~= dim_models(dimension_arrays@));
    Ok((i10, Ser {
        series_id,
        series_version,
        data_type,
        tag_type,
        total_element_count,
        valid_element_count,
        array_offset,
        dimension_arrays,
    }))
}

} // verus!
