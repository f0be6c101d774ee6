//! Properties of the grammar as a whole.
use vstd::prelude::*;
use crate::bytes::{
    lemma_count_values, lemma_count_width, lemma_le_count, lemma_local_count, lemma_local_le,
    lemma_local_tag, lemma_local_take_str, lemma_shrinks_le, lemma_shrinks_primitives,
    lemma_skip_append, lemma_stable_count, lemma_stable_le, lemma_stable_tag,
    lemma_stable_take_str, spec_count, spec_le_i16, spec_le_i32, spec_le_u64, spec_tag,
};
use crate::data::{
    TwoDimModel, ArrayDim, DataModel, DimArrayModel, HeaderModel, OffsetsModel, RawDataModel, SerDataTag,
    TagType,
};
use crate::error::{
    after_same, agree_on, decided, local, same_outcome, shrinks, stable, ErrorKind, ParseError,
    SpecRes,
};
use crate::frame::{
    spec_first_data, spec_first_frame, spec_first_frame_image, spec_first_tag, spec_two_dim_image,
    FrameError, FrameModel,
};
use crate::parsers::{
    dim_array_reader, magic_id, offset_reader, one_dim_id, spec_array_dim, spec_calibration,
    spec_counted_str, spec_data, spec_data_tag, spec_dim_array, spec_header_codes,
    spec_header_counts, spec_header_rest, spec_one_dim, spec_parse_offset, spec_raw_data, spec_ser_header,
    spec_ser_offsets, spec_tag_time, spec_tag_time_pos, spec_tag_type, spec_two_dim,
    spec_two_dim_head, time_pos_tag_id, time_pos_tag_type_id, time_tag_id, time_tag_type_id,
    two_dim_id, two_dim_size_overflows,
};

verus! {

/// Reading the elements of a data array: a code from 1 to 8 gives exactly
/// the requested number of elements of the type it names, each taking its
/// width; any other code is rejected at the start.  Appending input keeps a
/// decided answer, and a success depends only on the bytes it takes.
proof fn lemma_raw_data_laws(s: Seq<u8>, s2: Seq<u8>, t: Seq<u8>, data_type: i16, elements: usize)
    ensures
        spec_raw_data(s, data_type, elements) matches Ok((r, d)) ==> {
            &&& d.data_type() == data_type
            &&& d.len() == elements
            &&& s.len() - r.len() == elements * element_width(data_type)
        },
        !(1 <= data_type <= 8) ==> spec_raw_data(s, data_type, elements)
            == Err::<(Seq<u8>, RawDataModel), ParseError>(ParseError::Error(ErrorKind::Alt, s.len() as usize)),
        s.len() + t.len() <= usize::MAX ==> stable(spec_raw_data(s, data_type, elements), spec_raw_data(s + t, data_type, elements), t),
        shrinks(spec_raw_data(s, data_type, elements), s),
        local(spec_raw_data(s, data_type, elements), s, spec_raw_data(s2, data_type, elements), s2),
{
    if data_type == 1 {
        lemma_le_count::<u8>(s, s2, t, elements);
    } else if data_type == 2 {
        lemma_le_count::<u16>(s, s2, t, elements);
    } else if data_type == 3 {
        lemma_le_count::<u32>(s, s2, t, elements);
    } else if data_type == 4 {
        lemma_le_count::<i8>(s, s2, t, elements);
    } else if data_type == 5 {
        lemma_le_count::<i16>(s, s2, t, elements);
    } else if data_type == 6 {
        lemma_le_count::<i32>(s, s2, t, elements);
    } else if data_type == 7 {
        lemma_le_count::<u32>(s, s2, t, elements);
    } else if data_type == 8 {
        lemma_le_count::<u64>(s, s2, t, elements);
    }
}

/// Appending input keeps a decided answer of the elements of a data array.
pub proof fn lemma_raw_data_prefix_stable(s: Seq<u8>, t: Seq<u8>, data_type: i16, elements: usize)
    requires
        s.len() + t.len() <= usize::MAX,
    ensures
        stable(spec_raw_data(s, data_type, elements), spec_raw_data(s + t, data_type, elements), t),
        shrinks(spec_raw_data(s, data_type, elements), s),
{
    lemma_raw_data_laws(s, s, t, data_type, elements);
}

/// The elements of a data array: a code from 1 to 8 gives exactly the
/// requested number of elements of the type it names, each taking its
/// width; any other code is rejected at the start.
pub proof fn lemma_raw_data_shape(s: Seq<u8>, data_type: i16, elements: usize)
    ensures
        spec_raw_data(s, data_type, elements) matches Ok((r, d)) ==> {
            &&& d.data_type() == data_type
            &&& d.len() == elements
            &&& s.len() - r.len() == elements * element_width(data_type)
        },
        !(1 <= data_type <= 8) ==> spec_raw_data(s, data_type, elements)
            == Err::<(Seq<u8>, RawDataModel), ParseError>(ParseError::Error(ErrorKind::Alt, s.len() as usize)),
{
    lemma_raw_data_laws(s, s, Seq::empty(), data_type, elements);
}

/// An offset table of `n` entries of a given series version: it takes the
/// width of an offset per entry, holds entries in the range of an `i32`
/// before version 544, keeps a decided answer when input is appended, and
/// depends only on the bytes it takes.
proof fn lemma_offset_count(series_version: i16, s: Seq<u8>, s2: Seq<u8>, t: Seq<u8>, n: usize)
    ensures
        spec_count(offset_reader(series_version), s, n) matches Ok((r, vs)) ==> {
            &&& r.len() + n * offset_width(series_version) == s.len()
            &&& vs.len() == n
            &&& series_version < 544 ==> forall|k: int| 0 <= k < n ==> i32::MIN <= #[trigger] vs[k] <= i32::MAX
        },
        s.len() + t.len() <= usize::MAX ==> stable(
            spec_count(offset_reader(series_version), s, n),
            spec_count(offset_reader(series_version), s + t, n),
            t,
        ),
        shrinks(spec_count(offset_reader(series_version), s, n), s),
        local(spec_count(offset_reader(series_version), s, n), s, spec_count(offset_reader(series_version), s2, n), s2),
{
    let p = offset_reader(series_version);
    let w = offset_width(series_version);
    let good = |v: i64| series_version < 544 ==> i32::MIN <= v <= i32::MAX;
    assert forall|x: Seq<u8>| (#[trigger] p(x)) matches Ok((r, _)) ==> r.len() + w == x.len() by {}
    assert forall|x: Seq<u8>| (#[trigger] p(x)) matches Ok((_, v)) ==> good(v) by {}
    assert forall|x: Seq<u8>, y: Seq<u8>| local(#[trigger] p(x), x, #[trigger] p(y), y) by {
        lemma_local_le(x, y);
    }
    lemma_count_width(p, s, n as nat, w);
    lemma_count_values(p, s, n as nat, good);
    if let Ok((_, vs)) = spec_count(p, s, n) {
        assert forall|k: int| 0 <= k < n implies i32::MIN <= #[trigger] vs[k] <= i32::MAX || series_version >= 544 by {
            assert(good(vs[k]));
        }
    }
    if s.len() + t.len() <= usize::MAX {
        assert forall|x: Seq<u8>| x.len() <= s.len() implies stable(#[trigger] p(x), p(x + t), t) && shrinks(p(x), x) by {
            lemma_stable_le(x, t);
        }
        lemma_stable_count(p, s, t, n);
    }
    lemma_local_count(p, s, s2, n);
}

/// Appending input keeps a decided answer of the offset tables.
pub proof fn lemma_offsets_prefix_stable(s: Seq<u8>, t: Seq<u8>, series_version: i16, total_element_count: i32)
    requires
        s.len() + t.len() <= usize::MAX,
    ensures
        stable(
            spec_ser_offsets(s, series_version, total_element_count),
            spec_ser_offsets(s + t, series_version, total_element_count),
            t,
        ),
{
    let n = total_element_count as usize;
    lemma_offset_count(series_version, s, s, t, n);
    if let Ok((s1, _)) = spec_count(offset_reader(series_version), s, n) {
        lemma_offset_count(series_version, s1, s1, t, n);
    }
}

/// The offset tables hold `total_element_count` entries each, and take
/// eight bytes per entry from series version 544 on, four bytes before, in
/// which case every entry lies in the range of an `i32`.
pub proof fn lemma_offsets_shape(s: Seq<u8>, series_version: i16, total_element_count: i32)
    ensures
        spec_ser_offsets(s, series_version, total_element_count) matches Ok((r, o)) ==> {
            let n = total_element_count as usize;
            &&& o.data_offset.len() == n
            &&& o.tag_offset.len() == n
            &&& s.len() - r.len() == 2 * n * offset_width(series_version)
            &&& series_version < 544 ==> forall|k: int| 0 <= k < n ==>
                i32::MIN <= #[trigger] o.data_offset[k] <= i32::MAX && i32::MIN <= o.tag_offset[k] <= i32::MAX
        },
{
    let n = total_element_count as usize;
    let w = offset_width(series_version);
    lemma_offset_count(series_version, s, s, Seq::empty(), n);
    if let Ok((s1, _)) = spec_count(offset_reader(series_version), s, n) {
        lemma_offset_count(series_version, s1, s1, Seq::empty(), n);
        if let Ok((s2, _)) = spec_count(offset_reader(series_version), s1, n) {
            assert(s.len() - s2.len() == 2 * n * w) by (nonlinear_arith)
                requires
                    s1.len() + n * w == s.len(),
                    s2.len() + n * w == s1.len(),
            ;
        }
    }
}

/// Appending input keeps a decided answer of a time-only tag.
pub proof fn lemma_tag_time_prefix_stable(s: Seq<u8>, t: Seq<u8>)
    requires
        s.len() + t.len() <= usize::MAX,
    ensures
        stable(spec_tag_time(s), spec_tag_time(s + t), t),
{
    broadcast use lemma_stable_le;
    lemma_stable_tag(s, t, time_tag_id());
}

proof fn lemma_calibration_prefix_stable(s: Seq<u8>, t: Seq<u8>)
    requires
        s.len() + t.len() <= usize::MAX,
    ensures
        stable(spec_calibration(s), spec_calibration(s + t), t),
        shrinks(spec_calibration(s), s),
{
    broadcast use lemma_stable_le, lemma_shrinks_le;
}

/// Appending input keeps a decided answer of a one-dimensional data array.
pub proof fn lemma_one_dim_prefix_stable(s: Seq<u8>, t: Seq<u8>)
    requires
        s.len() + t.len() <= usize::MAX,
    ensures
        stable(spec_one_dim(s), spec_one_dim(s + t), t),
        shrinks(spec_one_dim(s), s),
{
    broadcast use lemma_stable_le, lemma_shrinks_le;
    lemma_calibration_prefix_stable(s, t);
    if let Ok((s3, c)) = spec_calibration(s) {
        if let Ok((s4, data_type)) = spec_le_i16(s3) {
            if let Ok((s5, array_length)) = spec_le_i32(s4) {
                lemma_raw_data_prefix_stable(s5, t, data_type, array_length as usize);
            }
        }
    }
}

proof fn lemma_two_dim_head_prefix_stable(s: Seq<u8>, t: Seq<u8>)
    requires
        s.len() + t.len() <= usize::MAX,
    ensures
        stable(spec_two_dim_head(s), spec_two_dim_head(s + t), t),
        shrinks(spec_two_dim_head(s), s),
{
    lemma_calibration_prefix_stable(s, t);
    if let Ok((s1, _)) = spec_calibration(s) {
        lemma_calibration_prefix_stable(s1, t);
        if let Ok((s2, _)) = spec_calibration(s1) {
            lemma_stable_le(s2, t);
            lemma_shrinks_le(s2);
            if let Ok((s3, _)) = spec_le_i16(s2) {
                lemma_stable_le(s3, t);
                lemma_shrinks_le(s3);
                if let Ok((s4, _)) = spec_le_i32(s3) {
                    lemma_stable_le(s4, t);
                    lemma_shrinks_le(s4);
                }
            }
        }
    }
}

/// Appending input keeps a decided answer of a two-dimensional data array,
/// and, once its head is complete, whether its element count overflows.
pub proof fn lemma_two_dim_prefix_stable(s: Seq<u8>, t: Seq<u8>)
    requires
        s.len() + t.len() <= usize::MAX,
    ensures
        stable(spec_two_dim(s), spec_two_dim(s + t), t),
        shrinks(spec_two_dim(s), s),
        spec_two_dim_head(s) is Ok ==> two_dim_size_overflows(s + t) == two_dim_size_overflows(s),
{
    lemma_two_dim_head_prefix_stable(s, t);
    if let Ok((s9, h)) = spec_two_dim_head(s) {
        lemma_raw_data_prefix_stable(s9, t, h.data_type, ((h.array_size_x * h.array_size_y) as i32) as usize);
    }
}

/// Appending input keeps a decided answer of a data array of either shape.
pub proof fn lemma_data_prefix_stable(s: Seq<u8>, t: Seq<u8>, array_dim: ArrayDim)
    requires
        s.len() + t.len() <= usize::MAX,
    ensures
        stable(spec_data(s, array_dim), spec_data(s + t, array_dim), t),
{
    lemma_one_dim_prefix_stable(s, t);
    lemma_two_dim_prefix_stable(s, t);
}

/// Appending input keeps a decided answer of a time-and-position tag.
pub proof fn lemma_tag_time_pos_prefix_stable(s: Seq<u8>, t: Seq<u8>)
    requires
        s.len() + t.len() <= usize::MAX,
    ensures
        stable(spec_tag_time_pos(s), spec_tag_time_pos(s + t), t),
{
    broadcast use lemma_stable_le;
    lemma_stable_tag(s, t, time_pos_tag_id());
}

/// Appending input keeps a decided answer of a tag of either kind.
pub proof fn lemma_data_tag_prefix_stable(s: Seq<u8>, t: Seq<u8>, tag_type: TagType)
    requires
        s.len() + t.len() <= usize::MAX,
    ensures
        stable(spec_data_tag(s, tag_type), spec_data_tag(s + t, tag_type), t),
{
    lemma_tag_time_prefix_stable(s, t);
    lemma_tag_time_pos_prefix_stable(s, t);
}

proof fn lemma_counted_str_prefix_stable(s: Seq<u8>, t: Seq<u8>)
    requires
        s.len() + t.len() <= usize::MAX,
    ensures
        stable(spec_counted_str(s), spec_counted_str(s + t), t),
        shrinks(spec_counted_str(s), s),
{
    lemma_stable_le(s, t);
    lemma_shrinks_le(s);
    if let Ok((s1, n)) = spec_le_i32(s) {
        lemma_stable_take_str(s1, t, n as usize);
        lemma_shrinks_primitives(s1, seq![], n as usize);
    }
}

proof fn lemma_dim_array_prefix_stable(s: Seq<u8>, t: Seq<u8>)
    requires
        s.len() + t.len() <= usize::MAX,
    ensures
        stable(spec_dim_array(s), spec_dim_array(s + t), t),
        shrinks(spec_dim_array(s), s),
{
    lemma_stable_le(s, t);
    lemma_shrinks_le(s);
    if let Ok((s1, _)) = spec_le_i32(s) {
        lemma_calibration_prefix_stable(s1, t);
        if let Ok((s2, _)) = spec_calibration(s1) {
            lemma_counted_str_prefix_stable(s2, t);
            if let Ok((s3, _)) = spec_counted_str(s2) {
                lemma_counted_str_prefix_stable(s3, t);
            }
        }
    }
}

proof fn lemma_array_dim_prefix_stable(s: Seq<u8>, t: Seq<u8>)
    requires
        s.len() + t.len() <= usize::MAX,
    ensures
        stable(spec_array_dim(s), spec_array_dim(s + t), t),
        shrinks(spec_array_dim(s), s),
{
    lemma_stable_tag(s, t, one_dim_id());
    lemma_stable_tag(s, t, two_dim_id());
    lemma_shrinks_primitives(s, one_dim_id(), 0);
    lemma_shrinks_primitives(s, two_dim_id(), 0);
}

proof fn lemma_tag_type_prefix_stable(s: Seq<u8>, t: Seq<u8>)
    requires
        s.len() + t.len() <= usize::MAX,
    ensures
        stable(spec_tag_type(s), spec_tag_type(s + t), t),
        shrinks(spec_tag_type(s), s),
{
    lemma_stable_tag(s, t, time_tag_type_id());
    lemma_stable_tag(s, t, time_pos_tag_type_id());
    lemma_shrinks_primitives(s, time_tag_type_id(), 0);
    lemma_shrinks_primitives(s, time_pos_tag_type_id(), 0);
}

proof fn lemma_header_codes_prefix_stable(s: Seq<u8>, t: Seq<u8>)
    requires
        s.len() + t.len() <= usize::MAX,
    ensures
        stable(spec_header_codes(s), spec_header_codes(s + t), t),
        shrinks(spec_header_codes(s), s),
{
    reveal(spec_header_codes);
    lemma_stable_tag(s, t, magic_id());
    lemma_shrinks_primitives(s, magic_id(), 0);
    if let Ok((s1, _)) = spec_tag(s, magic_id()) {
        lemma_stable_le(s1, t);
        lemma_shrinks_le(s1);
        if let Ok((s2, _)) = spec_le_i16(s1) {
            lemma_stable_le(s2, t);
            lemma_shrinks_le(s2);
            if let Ok((s3, _)) = spec_le_i16(s2) {
                lemma_array_dim_prefix_stable(s3, t);
                if let Ok((s4, _)) = spec_array_dim(s3) {
                    lemma_tag_type_prefix_stable(s4, t);
                }
            }
        }
    }
}

proof fn lemma_dims_prefix_stable(s: Seq<u8>, t: Seq<u8>, n: usize)
    requires
        s.len() + t.len() <= usize::MAX,
    ensures
        stable(spec_count(dim_array_reader(), s, n), spec_count(dim_array_reader(), s + t, n), t),
{
    let p = dim_array_reader();
    assert forall|x: Seq<u8>| x.len() <= s.len() implies stable(#[trigger] p(x), p(x + t), t) && shrinks(p(x), x) by {
        lemma_dim_array_prefix_stable(x, t);
    }
    lemma_stable_count(p, s, t, n);
}

proof fn lemma_header_counts_prefix_stable(s5: Seq<u8>, t: Seq<u8>, series_version: i16)
    requires
        s5.len() + t.len() <= usize::MAX,
    ensures
        stable(spec_header_counts(s5, series_version), spec_header_counts(s5 + t, series_version), t),
        shrinks(spec_header_counts(s5, series_version), s5),
{
    reveal(spec_header_counts);
    lemma_stable_le(s5, t);
    lemma_shrinks_le(s5);
    if let Ok((s6, _)) = spec_le_i32(s5) {
        lemma_stable_le(s6, t);
        lemma_shrinks_le(s6);
        if let Ok((s7, _)) = spec_le_i32(s6) {
            lemma_stable_le(s7, t);
            lemma_shrinks_le(s7);
            if let Ok((s8, _)) = spec_parse_offset(series_version, s7) {
                lemma_stable_le(s8, t);
                lemma_shrinks_le(s8);
            }
        }
    }
}

proof fn lemma_header_rest_prefix_stable(s5: Seq<u8>, t: Seq<u8>, c: (i16, i16, ArrayDim, TagType))
    requires
        s5.len() + t.len() <= usize::MAX,
    ensures
        stable(spec_header_rest(s5, c), spec_header_rest(s5 + t, c), t),
{
    reveal(spec_header_rest);
    lemma_header_counts_prefix_stable(s5, t, c.1);
    if let Ok((s9, k)) = spec_header_counts(s5, c.1) {
        lemma_dims_prefix_stable(s9, t, k.3 as usize);
    }
}

/// Appending input keeps a decided answer of the header.
pub proof fn lemma_header_prefix_stable(s: Seq<u8>, t: Seq<u8>)
    requires
        s.len() + t.len() <= usize::MAX,
    ensures
        stable(spec_ser_header(s), spec_ser_header(s + t), t),
{
    lemma_header_codes_prefix_stable(s, t);
    if let Ok((s5, c)) = spec_header_codes(s) {
        lemma_header_rest_prefix_stable(s5, t, c);
    }
}

/// The width in bytes of an offset of a given series version.
pub open spec fn offset_width(series_version: i16) -> nat {
    if series_version >= 544 { 8 } else { 4 }
}

/// The width in bytes of an element of the type that a data type code names.
pub open spec fn element_width(data_type: i16) -> nat {
    if data_type == 1 || data_type == 4 {
        1
    } else if data_type == 2 || data_type == 5 {
        2
    } else if data_type == 8 {
        8
    } else {
        4
    }
}

/// A data array has the shape that the header names; a one-dimensional one
/// holds `array_length` elements, a two-dimensional one `array_size_x *
/// array_size_y`, and the elements are of the type its code names.
pub proof fn lemma_data_shape(s: Seq<u8>, array_dim: ArrayDim)
    requires
        array_dim == ArrayDim::Two ==> !two_dim_size_overflows(s),
    ensures
        spec_data(s, array_dim) matches Ok((_, d)) ==> match d {
            DataModel::OneDim(a) => array_dim == ArrayDim::One
                && a.data.len() == a.array_length as usize
                && a.data.data_type() == a.data_type,
            DataModel::TwoDim(a) => array_dim == ArrayDim::Two
                && a.data.len() == (a.array_size_x * a.array_size_y) as usize
                && a.data.data_type() == a.data_type,
        },
{
    if let Ok((s3, c)) = spec_calibration(s) {
        if let Ok((s4, data_type)) = spec_le_i16(s3) {
            if let Ok((s5, array_length)) = spec_le_i32(s4) {
                lemma_raw_data_shape(s5, data_type, array_length as usize);
            }
        }
    }
    if let Ok((s9, h)) = spec_two_dim_head(s) {
        lemma_raw_data_shape(s9, h.data_type, ((h.array_size_x * h.array_size_y) as i32) as usize);
    }
}

/// A tag is of the kind that the header names, and takes 6 bytes (time
/// only) or 22 bytes (time and position).
pub proof fn lemma_data_tag_shape(s: Seq<u8>, tag_type: TagType)
    ensures
        spec_data_tag(s, tag_type) matches Ok((r, g)) ==> match g {
            SerDataTag::Time(_) => tag_type == TagType::Time && s.len() - r.len() == 6,
            SerDataTag::TimePos(_) => tag_type == TagType::TimePos && s.len() - r.len() == 22,
        },
{
}

/// An input that does not start with the magic number "II" is rejected at
/// its start.
pub proof fn lemma_header_needs_magic(s: Seq<u8>)
    requires
        s.len() >= 2,
        s[0] != 0x49 || s[1] != 0x49,
    ensures
        spec_ser_header(s) == Err::<(Seq<u8>, HeaderModel), ParseError>(ParseError::Error(ErrorKind::Tag, s.len() as usize)),
{
    reveal(spec_header_codes);
    assert(s.take(2)[0] == s[0] && s.take(2)[1] == s[1]);
}

proof fn lemma_first_data_prefix_stable(file: Seq<u8>, t: Seq<u8>, h: HeaderModel, o: OffsetsModel, tag: SerDataTag)
    requires
        file.len() + t.len() <= usize::MAX,
        o.data_offset.len() > 0,
    ensures
        spec_first_data(file, h, o, tag) matches Ok(f) ==> spec_first_data(file + t, h, o, tag) == Ok::<FrameModel, FrameError>(f),
{
    let d = o.data_offset[0] as usize;
    if d <= file.len() {
        lemma_skip_append(file, t, d as int);
        lemma_two_dim_head_prefix_stable(file.skip(d as int), t);
        lemma_data_prefix_stable(file.skip(d as int), t, h.array_dim);
    }
}

proof fn lemma_first_tag_prefix_stable(file: Seq<u8>, t: Seq<u8>, h: HeaderModel, o: OffsetsModel)
    requires
        file.len() + t.len() <= usize::MAX,
        o.data_offset.len() == o.tag_offset.len(),
    ensures
        spec_first_tag(file, h, o) matches Ok(f) ==> spec_first_tag(file + t, h, o) == Ok::<FrameModel, FrameError>(f),
{
    if o.tag_offset.len() > 0 {
        let g = o.tag_offset[0] as usize;
        if g <= file.len() {
            lemma_skip_append(file, t, g as int);
            lemma_data_tag_prefix_stable(file.skip(g as int), t, h.tag_type);
            if let Ok((_, tag)) = spec_data_tag(file.skip(g as int), h.tag_type) {
                lemma_first_data_prefix_stable(file, t, h, o, tag);
            }
        }
    }
}

/// A file whose first element can be read reads the same when bytes are
/// appended to it.
#[verifier::rlimit(60)]
pub proof fn lemma_first_frame_prefix_stable(file: Seq<u8>, t: Seq<u8>)
    requires
        file.len() + t.len() <= usize::MAX,
    ensures
        spec_first_frame(file) matches Ok(f) ==> spec_first_frame(file + t) == Ok::<FrameModel, FrameError>(f),
{
    lemma_header_prefix_stable(file, t);
    if let Ok((_, h)) = spec_ser_header(file) {
        let a = h.array_offset as usize;
        if a <= file.len() {
            lemma_skip_append(file, t, a as int);
            lemma_offsets_prefix_stable(file.skip(a as int), t, h.series_version, h.total_element_count);
            lemma_offsets_shape(file.skip(a as int), h.series_version, h.total_element_count);
            if let Ok((_, o)) = spec_ser_offsets(file.skip(a as int), h.series_version, h.total_element_count) {
                lemma_first_tag_prefix_stable(file, t, h, o);
            }
        }
    }
}

/// Two reads in a row: the first leaves `r1` of `s`, the second leaves
/// `rest` of `r1`.  Then `rest` is what is left of `s`, and an input that
/// agrees with `s` on all that was read agrees with it on each read.
proof fn lemma_agree_step(s: Seq<u8>, s2: Seq<u8>, r1: Seq<u8>, rest: Seq<u8>)
    requires
        r1.len() <= s.len(),
        r1 == s.skip(s.len() - r1.len()),
        rest.len() <= r1.len(),
        rest == r1.skip(r1.len() - rest.len()),
    ensures
        rest == s.skip(s.len() - rest.len()),
        agree_on(s, s2, s.len() - rest.len()) ==> {
            &&& agree_on(s, s2, s.len() - r1.len())
            &&& agree_on(r1, after_same(s, s2, r1), r1.len() - rest.len())
            &&& after_same(r1, after_same(s, s2, r1), rest) == after_same(s, s2, rest)
        },
{
    assert(rest =~= s.skip(s.len() - rest.len()));
    if agree_on(s, s2, s.len() - rest.len()) {
        assert(after_same(r1, after_same(s, s2, r1), rest) =~= after_same(s, s2, rest));
    }
}

proof fn lemma_local_calibration(s: Seq<u8>, s2: Seq<u8>)
    ensures
        local(spec_calibration(s), s, spec_calibration(s2), s2),
{
    lemma_local_le(s, s2);
    if let Ok((s1, _)) = spec_le_u64(s) {
        lemma_local_le(s1, after_same(s, s2, s1));
        if let Ok((s2_, _)) = spec_le_u64(s1) {
            lemma_agree_step(s, s2, s1, s2_);
            lemma_local_le(s2_, after_same(s, s2, s2_));
            if let Ok((s3, _)) = spec_le_i32(s2_) {
                lemma_agree_step(s, s2, s2_, s3);
            }
        }
    }
}

proof fn lemma_local_one_dim(s: Seq<u8>, s2: Seq<u8>)
    ensures
        local(spec_one_dim(s), s, spec_one_dim(s2), s2),
{
    lemma_local_calibration(s, s2);
    if let Ok((s3, _)) = spec_calibration(s) {
        lemma_local_le(s3, after_same(s, s2, s3));
        if let Ok((s4, data_type)) = spec_le_i16(s3) {
            lemma_agree_step(s, s2, s3, s4);
            lemma_local_le(s4, after_same(s, s2, s4));
            if let Ok((s5, array_length)) = spec_le_i32(s4) {
                lemma_agree_step(s, s2, s4, s5);
                lemma_raw_data_laws(s5, after_same(s, s2, s5), Seq::empty(), data_type, array_length as usize);
                if let Ok((s6, _)) = spec_raw_data(s5, data_type, array_length as usize) {
                    lemma_agree_step(s, s2, s5, s6);
                }
            }
        }
    }
}

proof fn lemma_local_two_dim_head(s: Seq<u8>, s2: Seq<u8>)
    ensures
        local(spec_two_dim_head(s), s, spec_two_dim_head(s2), s2),
{
    lemma_local_calibration(s, s2);
    if let Ok((s1, _)) = spec_calibration(s) {
        lemma_local_calibration(s1, after_same(s, s2, s1));
        if let Ok((s2_, _)) = spec_calibration(s1) {
            lemma_agree_step(s, s2, s1, s2_);
            lemma_local_le(s2_, after_same(s, s2, s2_));
            if let Ok((s3, _)) = spec_le_i16(s2_) {
                lemma_agree_step(s, s2, s2_, s3);
                lemma_local_le(s3, after_same(s, s2, s3));
                if let Ok((s4, _)) = spec_le_i32(s3) {
                    lemma_agree_step(s, s2, s3, s4);
                    lemma_local_le(s4, after_same(s, s2, s4));
                    if let Ok((s5, _)) = spec_le_i32(s4) {
                        lemma_agree_step(s, s2, s4, s5);
                    }
                }
            }
        }
    }
}

/// A two-dimensional array depends only on the bytes it takes, and so does
/// whether its element count overflows.
proof fn lemma_local_two_dim(s: Seq<u8>, s2: Seq<u8>)
    ensures
        local(spec_two_dim(s), s, spec_two_dim(s2), s2),
        spec_two_dim(s) matches Ok((rest, _)) && agree_on(s, s2, s.len() - rest.len())
            ==> two_dim_size_overflows(s2) == two_dim_size_overflows(s),
{
    lemma_local_two_dim_head(s, s2);
    if let Ok((s9, h)) = spec_two_dim_head(s) {
        let n = ((h.array_size_x * h.array_size_y) as i32) as usize;
        lemma_raw_data_laws(s9, after_same(s, s2, s9), Seq::empty(), h.data_type, n);
        if let Ok((s10, _)) = spec_raw_data(s9, h.data_type, n) {
            lemma_agree_step(s, s2, s9, s10);
        }
    }
}

proof fn lemma_local_data(s: Seq<u8>, s2: Seq<u8>, array_dim: ArrayDim)
    ensures
        local(spec_data(s, array_dim), s, spec_data(s2, array_dim), s2),
        array_dim == ArrayDim::Two ==> (spec_data(s, array_dim) matches Ok((rest, _))
            && agree_on(s, s2, s.len() - rest.len())
            ==> two_dim_size_overflows(s2) == two_dim_size_overflows(s)),
{
    lemma_local_one_dim(s, s2);
    lemma_local_two_dim(s, s2);
}

proof fn lemma_local_offsets(s: Seq<u8>, s2: Seq<u8>, series_version: i16, total_element_count: i32)
    ensures
        local(
            spec_ser_offsets(s, series_version, total_element_count), s,
            spec_ser_offsets(s2, series_version, total_element_count), s2,
        ),
{
    broadcast use vstd::seq_lib::lemma_seq_skip_of_skip;
    let n = total_element_count as usize;
    lemma_offset_count(series_version, s, s2, Seq::empty(), n);
    if let Ok((s1, _)) = spec_count(offset_reader(series_version), s, n) {
        lemma_offset_count(series_version, s1, after_same(s, s2, s1), Seq::empty(), n);
    }
}

proof fn lemma_local_counted_str(s: Seq<u8>, s2: Seq<u8>)
    ensures
        local(spec_counted_str(s), s, spec_counted_str(s2), s2),
{
    broadcast use vstd::seq_lib::lemma_seq_skip_of_skip;
    lemma_local_le(s, s2);
    if let Ok((s1, n)) = spec_le_i32(s) {
        lemma_local_take_str(s1, after_same(s, s2, s1), n as usize);
    }
}

pub(crate) proof fn lemma_local_dim_array(s: Seq<u8>, s2: Seq<u8>)
    ensures
        local(spec_dim_array(s), s, spec_dim_array(s2), s2),
{
    lemma_local_le(s, s2);
    if let Ok((s1, _)) = spec_le_i32(s) {
        lemma_local_calibration(s1, after_same(s, s2, s1));
        if let Ok((s2_, _)) = spec_calibration(s1) {
            lemma_agree_step(s, s2, s1, s2_);
            lemma_local_counted_str(s2_, after_same(s, s2, s2_));
            if let Ok((s3, _)) = spec_counted_str(s2_) {
                lemma_agree_step(s, s2, s2_, s3);
                lemma_local_counted_str(s3, after_same(s, s2, s3));
                if let Ok((s4, _)) = spec_counted_str(s3) {
                    lemma_agree_step(s, s2, s3, s4);
                }
            }
        }
    }
}
proof fn lemma_local_dims(s: Seq<u8>, s2: Seq<u8>, n: usize)
    ensures
        local(spec_count(dim_array_reader(), s, n), s, spec_count(dim_array_reader(), s2, n), s2),
{
    let p = dim_array_reader();
    assert forall|x: Seq<u8>, y: Seq<u8>| local(#[trigger] p(x), x, #[trigger] p(y), y) by {
        lemma_local_dim_array(x, y);
    }
    lemma_local_count(p, s, s2, n);
}

proof fn lemma_local_array_dim(s: Seq<u8>, s2: Seq<u8>)
    ensures
        local(spec_array_dim(s), s, spec_array_dim(s2), s2),
{
    lemma_local_tag(s, s2, one_dim_id());
    lemma_local_tag(s, s2, two_dim_id());
    assert(one_dim_id()[0] != two_dim_id()[0]);
    if s.len() >= 4 && agree_on(s, s2, 4) {
        assert(s2.take(4) =~= s.take(4));
    }
}

proof fn lemma_local_tag_type(s: Seq<u8>, s2: Seq<u8>)
    ensures
        local(spec_tag_type(s), s, spec_tag_type(s2), s2),
{
    lemma_local_tag(s, s2, time_tag_type_id());
    lemma_local_tag(s, s2, time_pos_tag_type_id());
    assert(time_tag_type_id()[0] != time_pos_tag_type_id()[0]);
    if s.len() >= 4 && agree_on(s, s2, 4) {
        assert(s2.take(4) =~= s.take(4));
    }
}

proof fn lemma_local_header_codes(s: Seq<u8>, s2: Seq<u8>)
    ensures
        local(spec_header_codes(s), s, spec_header_codes(s2), s2),
{
    reveal(spec_header_codes);
    lemma_local_tag(s, s2, magic_id());
    if let Ok((s1, _)) = spec_tag(s, magic_id()) {
        lemma_local_le(s1, after_same(s, s2, s1));
        if let Ok((s2_, _)) = spec_le_i16(s1) {
            lemma_agree_step(s, s2, s1, s2_);
            lemma_local_le(s2_, after_same(s, s2, s2_));
            if let Ok((s3, _)) = spec_le_i16(s2_) {
                lemma_agree_step(s, s2, s2_, s3);
                lemma_local_array_dim(s3, after_same(s, s2, s3));
                if let Ok((s4, _)) = spec_array_dim(s3) {
                    lemma_agree_step(s, s2, s3, s4);
                    lemma_local_tag_type(s4, after_same(s, s2, s4));
                    if let Ok((s5, _)) = spec_tag_type(s4) {
                        lemma_agree_step(s, s2, s4, s5);
                    }
                }
            }
        }
    }
}
proof fn lemma_local_header_counts(s5: Seq<u8>, s2: Seq<u8>, series_version: i16)
    ensures
        local(spec_header_counts(s5, series_version), s5, spec_header_counts(s2, series_version), s2),
{
    broadcast use vstd::seq_lib::lemma_seq_skip_of_skip;
    reveal(spec_header_counts);
    lemma_local_le(s5, s2);
    if let Ok((s6, _)) = spec_le_i32(s5) {
        lemma_local_le(s6, after_same(s5, s2, s6));
        if let Ok((s7, _)) = spec_le_i32(s6) {
            lemma_local_le(s7, after_same(s5, s2, s7));
            if let Ok((s8, _)) = spec_parse_offset(series_version, s7) {
                lemma_local_le(s8, after_same(s5, s2, s8));
            }
        }
    }
}

proof fn lemma_local_header_rest(s5: Seq<u8>, s2: Seq<u8>, c: (i16, i16, ArrayDim, TagType))
    ensures
        local(spec_header_rest(s5, c), s5, spec_header_rest(s2, c), s2),
{
    reveal(spec_header_rest);
    lemma_local_header_counts(s5, s2, c.1);
    if let Ok((s9, k)) = spec_header_counts(s5, c.1) {
        let s9b = after_same(s5, s2, s9);
        let n = k.3 as usize;
        lemma_local_dims(s9, s9b, n);
        if let Ok((s10, dims)) = spec_count(dim_array_reader(), s9, n) {
            lemma_agree_step(s5, s2, s9, s10);
            if agree_on(s5, s2, s5.len() - s10.len()) {
                assert(spec_header_counts(s2, c.1) == Ok::<(Seq<u8>, (i32, i32, i64, i32)), ParseError>((s9b, k)));
                assert(spec_count(dim_array_reader(), s9b, n) == Ok::<(Seq<u8>, Seq<DimArrayModel>), ParseError>((after_same(s5, s2, s10), dims)));
            }
        }
    }
}

/// The header depends only on the bytes it takes.
pub proof fn lemma_header_local(s: Seq<u8>, s2: Seq<u8>)
    ensures
        local(spec_ser_header(s), s, spec_ser_header(s2), s2),
{
    broadcast use vstd::seq_lib::lemma_seq_skip_of_skip;
    lemma_local_header_codes(s, s2);
    if let Ok((s5, c)) = spec_header_codes(s) {
        lemma_local_header_rest(s5, after_same(s, s2, s5), c);
    }
}

/// The parts of a file that reading its first element takes, as that
/// reading finds them in `b1` (the header, the offset tables and the first
/// data array), hold the same bytes in `b2`.
pub open spec fn same_frame_parts(b1: Seq<u8>, b2: Seq<u8>) -> bool {
    match spec_ser_header(b1) {
        Ok((hrest, h)) => {
            let a = h.array_offset as usize;
            &&& a <= b1.len()
            &&& agree_on(b1, b2, b1.len() - hrest.len())
            &&& match spec_ser_offsets(b1.skip(a as int), h.series_version, h.total_element_count) {
                Ok((orest, o)) => {
                    &&& agree_on(b1.skip(a as int), b2.skip(a as int), b1.len() - a - orest.len())
                    &&& o.data_offset.len() > 0
                    &&& {
                        let d = o.data_offset[0] as usize;
                        &&& d <= b1.len()
                        &&& match spec_data(b1.skip(d as int), h.array_dim) {
                            Ok((drest, _)) => agree_on(b1.skip(d as int), b2.skip(d as int), b1.len() - d - drest.len()),
                            Err(_) => false,
                        }
                    }
                },
                Err(_) => false,
            }
        },
        Err(_) => false,
    }
}

/// Reading the first element of a file depends only on the header, the
/// offset tables and the first data array: a file of the same length that
/// holds the same bytes there, and whose first tag also parses, gives the
/// same header, tables and data array, and the same image.  The value of the
/// tag and every other element are not read.
pub proof fn lemma_first_frame_reads_only_its_parts(b1: Seq<u8>, b2: Seq<u8>)
    requires
        b1.len() == b2.len(),
        spec_first_frame(b1) is Ok,
        same_frame_parts(b1, b2),
        spec_first_frame(b1) matches Ok(f)
            && spec_data_tag(b2.skip((f.offsets.tag_offset[0] as usize) as int), f.header.tag_type) is Ok,
    ensures
        spec_first_frame(b1) matches Ok(f) && spec_first_frame(b2) matches Ok(f2)
            && f2.header == f.header && f2.offsets == f.offsets && f2.data == f.data,
        spec_first_frame_image(b2) == spec_first_frame_image(b1),
{
    lemma_header_local(b1, b2);
    if let Ok((_, h)) = spec_ser_header(b1) {
        let a = h.array_offset as usize;
        lemma_local_offsets(b1.skip(a as int), b2.skip(a as int), h.series_version, h.total_element_count);
        if let Ok((_, o)) = spec_ser_offsets(b1.skip(a as int), h.series_version, h.total_element_count) {
            lemma_offsets_shape(b1.skip(a as int), h.series_version, h.total_element_count);
            let d = o.data_offset[0] as usize;
            lemma_local_data(b1.skip(d as int), b2.skip(d as int), h.array_dim);
        }
    }
}

/// Two inputs of the same length that agree on a prefix that decides a
/// parse are parsed the same way.
proof fn lemma_decided_same<A>(p: spec_fn(Seq<u8>) -> SpecRes<A>, s1: Seq<u8>, s2: Seq<u8>, j: int)
    requires
        s1.len() == s2.len(),
        s1.len() <= usize::MAX,
        decided(p(s1.take(j)), s1, j),
        agree_on(s1, s2, j),
        stable(p(s1.take(j)), p(s1.take(j) + s1.skip(j)), s1.skip(j)),
        stable(p(s1.take(j)), p(s1.take(j) + s2.skip(j)), s2.skip(j)),
    ensures
        same_outcome(p(s1), p(s2)),
{
    assert(s1.take(j) + s1.skip(j) =~= s1);
    assert(s1.take(j) + s2.skip(j) =~= s2);
    if j == s1.len() {
        assert(s1 =~= s2);
    }
}

/// A two-dimensional data array that a prefix decides has its head there.
proof fn lemma_decided_two_dim_head(pre: Seq<u8>)
    requires
        !(spec_data(pre, ArrayDim::Two) matches Err(ParseError::Incomplete(_))),
    ensures
        spec_two_dim_head(pre) is Ok,
{
    lemma_two_dim_head_never_rejects(pre);
    if let Err(e) = spec_two_dim_head(pre) {
        assert(spec_two_dim(pre) == Err::<(Seq<u8>, TwoDimModel), ParseError>(e));
    }
}

/// A two-dimensional data array decided by a prefix has its head in that
/// prefix, so whether its element count overflows is decided there too.
#[verifier::rlimit(30)]
proof fn lemma_decided_overflow(s1: Seq<u8>, s2: Seq<u8>, j: int)
    requires
        s1.len() == s2.len(),
        s1.len() <= usize::MAX,
        decided(spec_data(s1.take(j), ArrayDim::Two), s1, j),
        agree_on(s1, s2, j),
    ensures
        two_dim_size_overflows(s2) == two_dim_size_overflows(s1),
{
    if j == s1.len() {
        assert(s1 =~= s2);
    } else {
        let pre = s1.take(j);
        lemma_decided_two_dim_head(pre);
        lemma_two_dim_head_prefix_stable(pre, s1.skip(j));
        lemma_two_dim_head_prefix_stable(pre, s2.skip(j));
        assert(pre + s1.skip(j) =~= s1);
        assert(pre + s2.skip(j) =~= s2);
    }
}

proof fn lemma_two_dim_head_never_rejects(s: Seq<u8>)
    ensures
        !(spec_two_dim_head(s) matches Err(ParseError::Error(_, _))),
{
    if let Ok((s1, _)) = spec_calibration(s) {
        if let Ok((s2, _)) = spec_calibration(s1) {
        }
    }
}

/// A first tag that parses in both files, or fails the same way in both.
pub open spec fn tags_alike(r1: SpecRes<SerDataTag>, r2: SpecRes<SerDataTag>) -> bool {
    ||| (r1 is Ok && r2 is Ok)
    ||| (r1 is Err && r1 == r2)
}

/// Once the header `h` and the offset tables `o` of `b1` are read: the
/// first tag parses in both files or fails the same way in both, and the
/// `jd` bytes at the first data array, which decide it, are the same.
pub open spec fn first_parts_alike(b1: Seq<u8>, b2: Seq<u8>, h: HeaderModel, o: OffsetsModel, jd: int) -> bool {
    o.tag_offset.len() > 0 ==> {
        let t: int = o.tag_offset[0] as usize as int;
        let d: int = o.data_offset[0] as usize as int;
        &&& t <= b1.len() ==> tags_alike(spec_data_tag(b1.skip(t), h.tag_type), spec_data_tag(b2.skip(t), h.tag_type))
        &&& d <= b1.len() ==> {
            &&& decided(spec_data(b1.skip(d).take(jd), h.array_dim), b1.skip(d), jd)
            &&& agree_on(b1.skip(d), b2.skip(d), jd)
        }
    }
}

/// `b2` holds the same bytes as `b1` wherever reading the first element of
/// `b1` examines them: the first `jh` bytes, which decide the header; the
/// `jo` bytes at the offset tables, which decide them; and the `jd` bytes
/// at the first data array, which decide it.  The first tag parses in both
/// files or fails the same way in both.
pub open spec fn same_examined_bytes(b1: Seq<u8>, b2: Seq<u8>, jh: int, jo: int, jd: int) -> bool {
    &&& decided(spec_ser_header(b1.take(jh)), b1, jh)
    &&& agree_on(b1, b2, jh)
    &&& match spec_ser_header(b1) {
        Ok((_, h)) => {
            let a: int = h.array_offset as usize as int;
            a <= b1.len() ==> {
                &&& decided(spec_ser_offsets(b1.skip(a).take(jo), h.series_version, h.total_element_count), b1.skip(a), jo)
                &&& agree_on(b1.skip(a), b2.skip(a), jo)
                &&& match spec_ser_offsets(b1.skip(a), h.series_version, h.total_element_count) {
                    Ok((_, o)) => first_parts_alike(b1, b2, h, o, jd),
                    Err(_) => true,
                }
            }
        },
        Err(_) => true,
    }
}

proof fn lemma_first_data_same(b1: Seq<u8>, b2: Seq<u8>, h: HeaderModel, o: OffsetsModel, g1: SerDataTag, g2: SerDataTag, jd: int)
    requires
        b1.len() == b2.len(),
        b1.len() <= usize::MAX,
        o.data_offset.len() > 0,
        (o.data_offset[0] as usize as int) <= b1.len() ==> {
            let d: int = o.data_offset[0] as usize as int;
            &&& decided(spec_data(b1.skip(d).take(jd), h.array_dim), b1.skip(d), jd)
            &&& agree_on(b1.skip(d), b2.skip(d), jd)
        },
    ensures
        match spec_first_data(b1, h, o, g1) {
            Ok(f1) => spec_first_data(b2, h, o, g2) matches Ok(f2) && f2.header == f1.header
                && f2.offsets == f1.offsets && f2.data == f1.data,
            Err(e) => spec_first_data(b2, h, o, g2) == Err::<FrameModel, FrameError>(e),
        },
{
    let d = o.data_offset[0] as usize;
    if d <= b1.len() {
        let s1 = b1.skip(d as int);
        let s2 = b2.skip(d as int);
        let p = |x: Seq<u8>| spec_data(x, h.array_dim);
        lemma_data_prefix_stable(s1.take(jd), s1.skip(jd), h.array_dim);
        lemma_data_prefix_stable(s1.take(jd), s2.skip(jd), h.array_dim);
        lemma_decided_same(p, s1, s2, jd);
        if h.array_dim == ArrayDim::Two {
            lemma_decided_overflow(s1, s2, jd);
        }
    }
}

proof fn lemma_first_tag_same(b1: Seq<u8>, b2: Seq<u8>, h: HeaderModel, o: OffsetsModel, jd: int)
    requires
        b1.len() == b2.len(),
        b1.len() <= usize::MAX,
        o.data_offset.len() == o.tag_offset.len(),
        first_parts_alike(b1, b2, h, o, jd),
    ensures
        match spec_first_tag(b1, h, o) {
            Ok(f1) => spec_first_tag(b2, h, o) matches Ok(f2) && f2.header == f1.header
                && f2.offsets == f1.offsets && f2.data == f1.data,
            Err(e) => spec_first_tag(b2, h, o) == Err::<FrameModel, FrameError>(e),
        },
{
    if o.tag_offset.len() > 0 {
        let t = o.tag_offset[0] as usize;
        if t <= b1.len() {
            if let Ok((_, g1)) = spec_data_tag(b1.skip(t as int), h.tag_type) {
                if let Ok((_, g2)) = spec_data_tag(b2.skip(t as int), h.tag_type) {
                    lemma_first_data_same(b1, b2, h, o, g1, g2, jd);
                }
            }
        }
    }
}

/// Reading the first element of a file depends only on the bytes it
/// examines, whatever its outcome: a file of the same length that holds the
/// same bytes wherever the read of `b1` examines them (the prefixes that
/// decide its header, its offset tables and its first data array), and whose
/// first tag parses too or fails the same way, gives the same failure, or the
/// same header, tables and data array; and the same image or failure to
/// give one.  The value of the tag and every other element are not read.
#[verifier::rlimit(60)]
pub proof fn lemma_first_frame_same_outcome(b1: Seq<u8>, b2: Seq<u8>, jh: int, jo: int, jd: int)
    requires
        b1.len() == b2.len(),
        b1.len() <= usize::MAX,
        same_examined_bytes(b1, b2, jh, jo, jd),
    ensures
        match spec_first_frame(b1) {
            Ok(f1) => spec_first_frame(b2) matches Ok(f2) && f2.header == f1.header
                && f2.offsets == f1.offsets && f2.data == f1.data,
            Err(e) => spec_first_frame(b2) == Err::<FrameModel, FrameError>(e),
        },
        spec_first_frame_image(b2) == spec_first_frame_image(b1),
{
    let ph = |x: Seq<u8>| spec_ser_header(x);
    lemma_header_prefix_stable(b1.take(jh), b1.skip(jh));
    lemma_header_prefix_stable(b1.take(jh), b2.skip(jh));
    lemma_decided_same(ph, b1, b2, jh);
    if let Ok((_, h)) = spec_ser_header(b1) {
        let a = h.array_offset as usize;
        if a <= b1.len() {
            let s1 = b1.skip(a as int);
            let s2 = b2.skip(a as int);
            let po = |x: Seq<u8>| spec_ser_offsets(x, h.series_version, h.total_element_count);
            lemma_offsets_prefix_stable(s1.take(jo), s1.skip(jo), h.series_version, h.total_element_count);
            lemma_offsets_prefix_stable(s1.take(jo), s2.skip(jo), h.series_version, h.total_element_count);
            lemma_decided_same(po, s1, s2, jo);
            lemma_offsets_shape(s1, h.series_version, h.total_element_count);
            if let Ok((_, o)) = spec_ser_offsets(s1, h.series_version, h.total_element_count) {
                lemma_first_tag_same(b1, b2, h, o, jd);
            }
        }
    }
}

/// Which images a data array gives: a two-dimensional array gives its
/// sizes `(array_size_y, array_size_x)` and its elements, whatever their
/// type but `u32` and `f64`, for which the image is refused; a
/// one-dimensional array gives none.
pub proof fn lemma_two_dim_image_types(data: DataModel)
    ensures
        match data {
            DataModel::TwoDim(d) => {
                &&& (d.data is DataU32 || d.data is DataF64) ==> spec_two_dim_image(data)
                    == Err::<((i32, i32), RawDataModel), FrameError>(FrameError::UnsupportedDataType)
                &&& !(d.data is DataU32 || d.data is DataF64) ==> spec_two_dim_image(data)
                    == Ok::<((i32, i32), RawDataModel), FrameError>(((d.array_size_y, d.array_size_x), d.data))
            },
            DataModel::OneDim(_) => spec_two_dim_image(data)
                == Err::<((i32, i32), RawDataModel), FrameError>(FrameError::NotTwoDim),
        },
{
}

/// The image of the first element of a file: when that element is a
/// two-dimensional array, its sizes `(array_size_y, array_size_x)` and its
/// elements, for every data type code of the file but 3 (`u32`) and 8
/// (`f64`), whose arrays are refused; a one-dimensional first element gives
/// no image, and a file whose first element cannot be read gives that
/// failure.
pub proof fn lemma_first_frame_image_types(file: Seq<u8>)
    ensures
        match spec_first_frame(file) {
            Ok(f) => match f.data {
                DataModel::TwoDim(d) => {
                    &&& d.data.data_type() == d.data_type
                    &&& (d.data_type == 3 || d.data_type == 8) ==> spec_first_frame_image(file)
                        == Err::<((i32, i32), RawDataModel), FrameError>(FrameError::UnsupportedDataType)
                    &&& !(d.data_type == 3 || d.data_type == 8) ==> spec_first_frame_image(file)
                        == Ok::<((i32, i32), RawDataModel), FrameError>(((d.array_size_y, d.array_size_x), d.data))
                },
                DataModel::OneDim(_) => spec_first_frame_image(file)
                    == Err::<((i32, i32), RawDataModel), FrameError>(FrameError::NotTwoDim),
            },
            Err(e) => spec_first_frame_image(file) == Err::<((i32, i32), RawDataModel), FrameError>(e),
        },
{
    if let Ok(f) = spec_first_frame(file) {
        lemma_two_dim_image_types(f.data);
        if let Ok((_, h)) = spec_ser_header(file) {
            let a = h.array_offset as usize;
            if let Ok((_, o)) = spec_ser_offsets(file.skip(a as int), h.series_version, h.total_element_count) {
                let dd = o.data_offset[0] as usize;
                lemma_data_shape(file.skip(dd as int), h.array_dim);
            }
        }
    }
}

} // verus!
