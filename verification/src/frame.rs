//! Reading the first element of a series out of a whole file: the header
//! says where the offset tables are, the tables say where the first tag and
//! the first data array are.
use vstd::prelude::*;
use crate::bytes::lemma_count_len;
use crate::data::{
    ArrayDim, DataModel, HeaderModel, OffsetsModel, RawDataModel, SerData, SerDataTag, SerHeader,
    SerOffsets, SerRawData,
};
use crate::error::ParseError;
use crate::parsers::{
    offset_reader, ser_data_parser, ser_data_tag_parser, ser_header_parser, ser_offsets_parser,
    spec_data, spec_data_tag, spec_ser_header, spec_ser_offsets, two_dim_size_overflow,
    two_dim_size_overflows,
};
use vstd::slice::slice_subrange;

verus! {

/// Why the first element of a file could not be read.
#[derive(Clone, Copy, Debug, PartialEq, Eq, Structural)]
pub enum FrameError {
    /// The header did not parse.
    Header(ParseError),
    /// The offset tables would start beyond the end of the file (at the
    /// offset given).
    ArrayOffsetOutOfRange(i64),
    /// The offset tables did not parse.
    Offsets(ParseError),
    /// The series has no element.
    NoElements,
    /// The first tag would start beyond the end of the file (at the offset
    /// given).
    TagOffsetOutOfRange(i64),
    /// The first tag did not parse.
    Tag(ParseError),
    /// The first data array would start beyond the end of the file (at the
    /// offset given).
    DataOffsetOutOfRange(i64),
    /// The number of elements of the first (two-dimensional) data array
    /// overflows an `i32`.
    DataSizeOverflow,
    /// The first data array did not parse.
    Data(ParseError),
    /// The first data array is not two-dimensional.
    NotTwoDim,
    /// The elements of the first data array have a type that is not turned
    /// into an image (`u32` or `f64`).
    UnsupportedDataType,
}

/// The header, the offset tables, and the first tag and data array of a file.
#[derive(Debug, PartialEq)]
pub struct SerFrame {
    pub header: SerHeader,
    pub offsets: SerOffsets,
    pub tag: SerDataTag,
    pub data: SerData,
}

pub struct FrameModel {
    pub header: HeaderModel,
    pub offsets: OffsetsModel,
    pub tag: SerDataTag,
    pub data: DataModel,
}

impl View for SerFrame {
    type V = FrameModel;

    open spec fn view(&self) -> FrameModel {
        FrameModel { header: self.header@, offsets: self.offsets@, tag: self.tag, data: self.data@ }
    }
}

/// The first data array of a file, once its header, offsets and first tag
/// have been read.
pub open spec fn spec_first_data(file: Seq<u8>, h: HeaderModel, o: OffsetsModel, tag: SerDataTag) -> Result<FrameModel, FrameError> {
    let d = o.data_offset[0] as usize;
    if d > file.len() {
        Err(FrameError::DataOffsetOutOfRange(o.data_offset[0]))
    } else if h.array_dim == ArrayDim::Two && two_dim_size_overflows(file.skip(d as int)) {
        Err(FrameError::DataSizeOverflow)
    } else {
        match spec_data(file.skip(d as int), h.array_dim) {
            Err(e) => Err(FrameError::Data(e)),
            Ok((_, data)) => Ok(FrameModel { header: h, offsets: o, tag, data }),
        }
    }
}

/// The first tag and data array of a file, once its header and offsets have
/// been read.
pub open spec fn spec_first_tag(file: Seq<u8>, h: HeaderModel, o: OffsetsModel) -> Result<FrameModel, FrameError> {
    if o.tag_offset.len() == 0 {
        Err(FrameError::NoElements)
    } else {
        let t = o.tag_offset[0] as usize;
        if t > file.len() {
            Err(FrameError::TagOffsetOutOfRange(o.tag_offset[0]))
        } else {
            match spec_data_tag(file.skip(t as int), h.tag_type) {
                Err(e) => Err(FrameError::Tag(e)),
                Ok((_, tag)) => spec_first_data(file, h, o, tag),
            }
        }
    }
}

/// The header, offset tables, first tag and first data array of a file.
/// Each table and array is read from the file at the offset that the header
/// or the tables give, counted from the start of the file.
pub open spec fn spec_first_frame(file: Seq<u8>) -> Result<FrameModel, FrameError> {
    match spec_ser_header(file) {
        Err(e) => Err(FrameError::Header(e)),
        Ok((_, h)) => {
            let a = h.array_offset as usize;
            if a > file.len() {
                Err(FrameError::ArrayOffsetOutOfRange(h.array_offset))
            } else {
                match spec_ser_offsets(file.skip(a as int), h.series_version, h.total_element_count) {
                    Err(e) => Err(FrameError::Offsets(e)),
                    Ok((_, o)) => spec_first_tag(file, h, o),
                }
            }
        },
    }
}

/// Reads the header, the offset tables, and the first tag and data array of
/// a whole `.ser` file.
pub fn read_first_frame(file: &[u8]) -> (r: Result<SerFrame, FrameError>)
    ensures
        match r {
            Ok(f) => spec_first_frame(file@) == Ok::<FrameModel, FrameError>(f@),
            Err(e) => spec_first_frame(file@) == Err::<FrameModel, FrameError>(e),
        },
{
    let header = match ser_header_parser(file) {
        Ok((_, h)) => h,
        Err(e) => return Err(FrameError::Header(e)),
    };
    let a = header.array_offset as usize;
    if a > file.len() {
        return Err(FrameError::ArrayOffsetOutOfRange(header.array_offset));
    }
    let offsets = match ser_offsets_parser(
        slice_subrange(file, a, file.len()),
        header.series_version,
        header.total_element_count,
    ) {
        Ok((_, o)) => o,
        Err(e) => return Err(FrameError::Offsets(e)),
    };
    proof {
        let n = header.total_element_count as usize;
        let p = offset_reader(header.series_version);
        let s = file@.skip(a as int);
        lemma_count_len(p, s, n as nat);
        if let Ok((s1, _)) = crate::bytes::count_items(p, s, n as nat) {
            lemma_count_len(p, s1, n as nat);
        }
    }
    if offsets.tag_offset.len() == 0 {
        return Err(FrameError::NoElements);
    }
    let t = offsets.tag_offset[0] as usize;
    if t > file.len() {
        return Err(FrameError::TagOffsetOutOfRange(offsets.tag_offset[0]));
    }
    let tag = match ser_data_tag_parser(slice_subrange(file, t, file.len()), header.tag_type) {
        Ok((_, g)) => g,
        Err(e) => return Err(FrameError::Tag(e)),
    };
    let d = offsets.data_offset[0] as usize;
    if d > file.len() {
        return Err(FrameError::DataOffsetOutOfRange(offsets.data_offset[0]));
    }
    let data_input = slice_subrange(file, d, file.len());
    if header.array_dim == ArrayDim::Two && two_dim_size_overflow(data_input) {
        return Err(FrameError::DataSizeOverflow);
    }
    let data = match ser_data_parser(data_input, header.array_dim) {
        Ok((_, x)) => x,
        Err(e) => return Err(FrameError::Data(e)),
    };
    Ok(SerFrame { header, offsets, tag, data })
}

/// The image of a data array: its sizes as `(array_size_y, array_size_x)`
/// and its elements, when it is two-dimensional and of a type that is turned
/// into an image (every type but `u32` and `f64`).
pub open spec fn spec_two_dim_image(data: DataModel) -> Result<((i32, i32), RawDataModel), FrameError> {
    match data {
        DataModel::TwoDim(d) => match d.data {
            RawDataModel::DataU32(_) => Err(FrameError::UnsupportedDataType),
            RawDataModel::DataF64(_) => Err(FrameError::UnsupportedDataType),
            raw => Ok(((d.array_size_y, d.array_size_x), raw)),
        },
        DataModel::OneDim(_) => Err(FrameError::NotTwoDim),
    }
}

/// Selects the image of a data array: its sizes `(array_size_y,
/// array_size_x)` and its elements.
pub fn two_dim_image(data: SerData) -> (r: Result<((i32, i32), SerRawData), FrameError>)
    ensures
        match r {
            Ok((dims, raw)) => spec_two_dim_image(data@) matches Ok((sdims, sraw)) && dims == sdims && raw@ == sraw,
            Err(e) => spec_two_dim_image(data@) == Err::<((i32, i32), RawDataModel), FrameError>(e),
        },
        (data@ matches DataModel::TwoDim(d) && !(d.data is DataU32) && !(d.data is DataF64)) <==> r is Ok,
        r matches Ok((dims, raw)) ==> (data@ matches DataModel::TwoDim(d)
            && dims == (d.array_size_y, d.array_size_x) && raw@ == d.data),
{
    match data {
        SerData::TwoDim(d) => match d.data {
            SerRawData::DataU32(_) => Err(FrameError::UnsupportedDataType),
            SerRawData::DataF64(_) => Err(FrameError::UnsupportedDataType),
            raw => Ok(((d.array_size_y, d.array_size_x), raw)),
        },
        SerData::OneDim(_) => Err(FrameError::NotTwoDim),
    }
}

/// The image of the first element of a whole `.ser` file.
pub open spec fn spec_first_frame_image(file: Seq<u8>) -> Result<((i32, i32), RawDataModel), FrameError> {
    match spec_first_frame(file) {
        Ok(f) => spec_two_dim_image(f.data),
        Err(e) => Err(e),
    }
}

/// Reads the image of the first element of a whole `.ser` file: its sizes
/// `(array_size_y, array_size_x)` and its elements.
pub fn first_frame_image(file: &[u8]) -> (r: Result<((i32, i32), SerRawData), FrameError>)
    ensures
        match r {
            Ok((dims, raw)) => spec_first_frame_image(file@) matches Ok((sdims, sraw)) && dims == sdims && raw@ == sraw,
            Err(e) => spec_first_frame_image(file@) == Err::<((i32, i32), RawDataModel), FrameError>(e),
        },
{
    match read_first_frame(file) {
        Ok(f) => two_dim_image(f.data),
        Err(e) => Err(e),
    }
}

/// The largest of some values, if there is any.
pub fn max_value(values: &[u16]) -> (m: Option<u16>)
    ensures
        m is None <==> values@.len() == 0,
        m matches Some(x) ==> values@.contains(x) && forall|k: int| 0 <= k < values@.len() ==> values@[k] <= x,
{
    if values.len() == 0 {
        return None;
    }
    let mut best = values[0];
    let mut k: usize = 1;
    while k < values.len()
        invariant
            1 <= k <= values@.len(),
            values@.contains(best),
            forall|j: int| 0 <= j < k ==> values@[j] <= best,
        decreases values@.len() - k,
    {
        if values[k] > best {
            best = values[k];
        }
        k = k + 1;
    }
    Some(best)
}

} // verus!
