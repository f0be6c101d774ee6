//! The values that a `.ser` file holds, and their mathematical models.
//!
//! Floating-point fields are held as the IEEE-754 bit patterns that the file
//! stores (`u32` for single, `u64` for double precision); `f32::from_bits`
//! and `f64::from_bits` give the numbers.
use vstd::prelude::*;

verus! {

/// Whether each element of the series is a one- or a two-dimensional array.
#[derive(Clone, Copy, Debug, PartialEq, Eq, Structural)]
pub enum ArrayDim {
    One,
    Two,
}

/// Whether the tag of each element holds a time only, or a time and a
/// stage position.
#[derive(Clone, Copy, Debug, PartialEq, Eq, Structural)]
pub enum TagType {
    Time,
    TimePos,
}

/// The elements of a data array, by the data type code of the file
/// (1 to 8).  `DataF32` and `DataF64` hold the bit patterns of the numbers.
#[derive(Debug, PartialEq)]
pub enum SerRawData {
    DataU8(Vec<u8>),
    DataU16(Vec<u16>),
    DataU32(Vec<u32>),
    DataI8(Vec<i8>),
    DataI16(Vec<i16>),
    DataI32(Vec<i32>),
    DataF32(Vec<u32>),
    DataF64(Vec<u64>),
}

pub enum RawDataModel {
    DataU8(Seq<u8>),
    DataU16(Seq<u16>),
    DataU32(Seq<u32>),
    DataI8(Seq<i8>),
    DataI16(Seq<i16>),
    DataI32(Seq<i32>),
    DataF32(Seq<u32>),
    DataF64(Seq<u64>),
}

impl View for SerRawData {
    type V = RawDataModel;

    open spec fn view(&self) -> RawDataModel {
        match self {
            SerRawData::DataU8(v) => RawDataModel::DataU8(v@),
            SerRawData::DataU16(v) => RawDataModel::DataU16(v@),
            SerRawData::DataU32(v) => RawDataModel::DataU32(v@),
            SerRawData::DataI8(v) => RawDataModel::DataI8(v@),
            SerRawData::DataI16(v) => RawDataModel::DataI16(v@),
            SerRawData::DataI32(v) => RawDataModel::DataI32(v@),
            SerRawData::DataF32(v) => RawDataModel::DataF32(v@),
            SerRawData::DataF64(v) => RawDataModel::DataF64(v@),
        }
    }
}

impl RawDataModel {
    /// The number of elements.
    pub open spec fn len(self) -> nat {
        match self {
            RawDataModel::DataU8(v) => v.len(),
            RawDataModel::DataU16(v) => v.len(),
            RawDataModel::DataU32(v) => v.len(),
            RawDataModel::DataI8(v) => v.len(),
            RawDataModel::DataI16(v) => v.len(),
            RawDataModel::DataI32(v) => v.len(),
            RawDataModel::DataF32(v) => v.len(),
            RawDataModel::DataF64(v) => v.len(),
        }
    }

    /// The data type code of the file that gives these elements.
    pub open spec fn data_type(self) -> i16 {
        match self {
            RawDataModel::DataU8(_) => 1,
            RawDataModel::DataU16(_) => 2,
            RawDataModel::DataU32(_) => 3,
            RawDataModel::DataI8(_) => 4,
            RawDataModel::DataI16(_) => 5,
            RawDataModel::DataI32(_) => 6,
            RawDataModel::DataF32(_) => 7,
            RawDataModel::DataF64(_) => 8,
        }
    }
}

/// The description of one dimension of the series.  `calibration_offset`
/// and `calibration_delta` are the bit patterns of doubles.
#[derive(Debug, PartialEq)]
pub struct DimArray {
    pub dimension_size: i32,
    pub calibration_offset: u64,
    pub calibration_delta: u64,
    pub calibration_element: i32,
    pub description: String,
    pub units: String,
}

pub struct DimArrayModel {
    pub dimension_size: i32,
    pub calibration_offset: u64,
    pub calibration_delta: u64,
    pub calibration_element: i32,
    pub description: Seq<char>,
    pub units: Seq<char>,
}

impl View for DimArray {
    type V = DimArrayModel;

    open spec fn view(&self) -> DimArrayModel {
        DimArrayModel {
            dimension_size: self.dimension_size,
            calibration_offset: self.calibration_offset,
            calibration_delta: self.calibration_delta,
            calibration_element: self.calibration_element,
            description: self.description@,
            units: self.units@,
        }
    }
}

/// The header of a `.ser` file.
#[derive(Debug, PartialEq)]
pub struct SerHeader {
    pub series_id: i16,
    pub series_version: i16,
    pub array_dim: ArrayDim,
    pub tag_type: TagType,
    pub total_element_count: i32,
    pub valid_element_count: i32,
    pub array_offset: i64,
    pub dimension_arrays: Vec<DimArray>,
}

pub struct HeaderModel {
    pub series_id: i16,
    pub series_version: i16,
    pub array_dim: ArrayDim,
    pub tag_type: TagType,
    pub total_element_count: i32,
    pub valid_element_count: i32,
    pub array_offset: i64,
    pub dimension_arrays: Seq<DimArrayModel>,
}

impl View for SerHeader {
    type V = HeaderModel;

    open spec fn view(&self) -> HeaderModel {
        HeaderModel {
            series_id: self.series_id,
            series_version: self.series_version,
            array_dim: self.array_dim,
            tag_type: self.tag_type,
            total_element_count: self.total_element_count,
            valid_element_count: self.valid_element_count,
            array_offset: self.array_offset,
            dimension_arrays: self.dimension_arrays@.map_values(|d: DimArray| d@),
        }
    }
}

/// The two offset tables: where each data array, and each tag, starts.
#[derive(Debug, PartialEq)]
pub struct SerOffsets {
    pub data_offset: Vec<i64>,
    pub tag_offset: Vec<i64>,
}

pub struct OffsetsModel {
    pub data_offset: Seq<i64>,
    pub tag_offset: Seq<i64>,
}

impl View for SerOffsets {
    type V = OffsetsModel;

    open spec fn view(&self) -> OffsetsModel {
        OffsetsModel { data_offset: self.data_offset@, tag_offset: self.tag_offset@ }
    }
}

/// A one-dimensional data array.  The calibrations are double bit patterns.
#[derive(Debug, PartialEq)]
pub struct SerDataOneDim {
    pub calibration_offset: u64,
    pub calibration_delta: u64,
    pub calibration_element: i32,
    pub data_type: i16,
    pub array_length: i32,
    pub data: SerRawData,
}

pub struct OneDimModel {
    pub calibration_offset: u64,
    pub calibration_delta: u64,
    pub calibration_element: i32,
    pub data_type: i16,
    pub array_length: i32,
    pub data: RawDataModel,
}

impl View for SerDataOneDim {
    type V = OneDimModel;

    open spec fn view(&self) -> OneDimModel {
        OneDimModel {
            calibration_offset: self.calibration_offset,
            calibration_delta: self.calibration_delta,
            calibration_element: self.calibration_element,
            data_type: self.data_type,
            array_length: self.array_length,
            data: self.data@,
        }
    }
}

/// A two-dimensional data array.  The calibrations are double bit patterns.
#[derive(Debug, PartialEq)]
pub struct SerDataTwoDim {
    pub calibration_offset_x: u64,
    pub calibration_delta_x: u64,
    pub calibration_element_x: i32,
    pub calibration_offset_y: u64,
    pub calibration_delta_y: u64,
    pub calibration_element_y: i32,
    pub data_type: i16,
    pub array_size_x: i32,
    pub array_size_y: i32,
    pub data: SerRawData,
}

pub struct TwoDimModel {
    pub calibration_offset_x: u64,
    pub calibration_delta_x: u64,
    pub calibration_element_x: i32,
    pub calibration_offset_y: u64,
    pub calibration_delta_y: u64,
    pub calibration_element_y: i32,
    pub data_type: i16,
    pub array_size_x: i32,
    pub array_size_y: i32,
    pub data: RawDataModel,
}

impl View for SerDataTwoDim {
    type V = TwoDimModel;

    open spec fn view(&self) -> TwoDimModel {
        TwoDimModel {
            calibration_offset_x: self.calibration_offset_x,
            calibration_delta_x: self.calibration_delta_x,
            calibration_element_x: self.calibration_element_x,
            calibration_offset_y: self.calibration_offset_y,
            calibration_delta_y: self.calibration_delta_y,
            calibration_element_y: self.calibration_element_y,
            data_type: self.data_type,
            array_size_x: self.array_size_x,
            array_size_y: self.array_size_y,
            data: self.data@,
        }
    }
}

/// One element of the series.
#[derive(Debug, PartialEq)]
pub enum SerData {
    OneDim(SerDataOneDim),
    TwoDim(SerDataTwoDim),
}

pub enum DataModel {
    OneDim(OneDimModel),
    TwoDim(TwoDimModel),
}

impl View for SerData {
    type V = DataModel;

    open spec fn view(&self) -> DataModel {
        match self {
            SerData::OneDim(d) => DataModel::OneDim(d@),
            SerData::TwoDim(d) => DataModel::TwoDim(d@),
        }
    }
}

/// The tag of an element that holds a time only.
#[derive(Clone, Copy, Debug, PartialEq, Eq, Structural)]
pub struct SerDataTagTime {
    pub time: i32,
}

/// The tag of an element that holds a time and the stage position; the
/// position is given as double bit patterns.
#[derive(Clone, Copy, Debug, PartialEq, Eq, Structural)]
pub struct SerDataTagTimePos {
    pub time: i32,
    pub position_x: u64,
    pub position_y: u64,
}

/// The tag of one element of the series.
#[derive(Clone, Copy, Debug, PartialEq, Eq, Structural)]
pub enum SerDataTag {
    Time(SerDataTagTime),
    TimePos(SerDataTagTimePos),
}

impl View for SerDataTagTime {
    type V = SerDataTagTime;

    open spec fn view(&self) -> SerDataTagTime {
        *self
    }
}

impl View for SerDataTagTimePos {
    type V = SerDataTagTimePos;

    open spec fn view(&self) -> SerDataTagTimePos {
        *self
    }
}

impl View for SerDataTag {
    type V = SerDataTag;

    open spec fn view(&self) -> SerDataTag {
        *self
    }
}

impl View for ArrayDim {
    type V = ArrayDim;

    open spec fn view(&self) -> ArrayDim {
        *self
    }
}

impl View for TagType {
    type V = TagType;

    open spec fn view(&self) -> TagType {
        *self
    }
}

} // verus!
