//! Where each value of a file stands: the byte positions from which the
//! header's fields, its dimension descriptions and the elements of a data
//! array are read.
use vstd::prelude::*;
use vstd::utf8::decode_utf8;
use crate::bytes::{
    items_in_order, le2, le4, le8, lemma_count_in_order, lemma_count_len, lemma_count_positions,
    lemma_le_count_positions, spec_count, LeItem,
};
use crate::data::{ArrayDim, RawDataModel, TagType};
use crate::error::{local, ParseError};
use crate::frame::spec_first_frame;
use crate::laws::{element_width, lemma_local_dim_array, offset_width};
use crate::parsers::{
    dim_array_reader, magic_id, offset_reader, one_dim_id, spec_data, spec_data_tag, spec_dim_array,
    spec_header_codes, spec_header_counts, spec_header_rest, spec_one_dim, spec_raw_data,
    spec_ser_header, spec_ser_offsets, spec_tag_time, spec_tag_time_pos, spec_two_dim,
    time_pos_tag_id, time_pos_tag_type_id, time_tag_id, time_tag_type_id, two_dim_id,
};

verus! {

/// Element `k` of a data array is the little-endian value of the bytes
/// `[k * w, (k + 1) * w)` of `s`, `w` the width of an element: the elements
/// stand in the order of the file.  The elements of an `f32` or `f64` array
/// are the bit patterns of the floats.
pub open spec fn elements_read(s: Seq<u8>, data: RawDataModel) -> bool {
    match data {
        RawDataModel::DataU8(v) => forall|k: int| 0 <= k < v.len() ==> #[trigger] v[k] == s[k],
        RawDataModel::DataU16(v) => forall|k: int| 0 <= k < v.len() ==> #[trigger] v[k] == le2(s.skip(2 * k)) as u16,
        RawDataModel::DataU32(v) => forall|k: int| 0 <= k < v.len() ==> #[trigger] v[k] == le4(s.skip(4 * k)) as u32,
        RawDataModel::DataI8(v) => forall|k: int| 0 <= k < v.len() ==> #[trigger] v[k] == s[k] as i8,
        RawDataModel::DataI16(v) => forall|k: int| 0 <= k < v.len() ==> #[trigger] v[k] == (le2(s.skip(2 * k)) as u16) as i16,
        RawDataModel::DataI32(v) => forall|k: int| 0 <= k < v.len() ==> #[trigger] v[k] == (le4(s.skip(4 * k)) as u32) as i32,
        RawDataModel::DataF32(v) => forall|k: int| 0 <= k < v.len() ==> #[trigger] v[k] == le4(s.skip(4 * k)) as u32,
        RawDataModel::DataF64(v) => forall|k: int| 0 <= k < v.len() ==> #[trigger] v[k] == le8(s.skip(8 * k)) as u64,
    }
}

/// Reading the elements of a data array with a type code from 1 to 8 gives
/// exactly `elements` values of the type that the code names, in the order
/// of the file: element `k` is the little-endian value of the bytes
/// `[k * w, (k + 1) * w)`, `w` the width of an element, and the array ends
/// right after its last element.  It succeeds exactly when the input holds
/// all of them.
pub proof fn lemma_raw_data_elements(s: Seq<u8>, data_type: i16, elements: usize)
    ensures
        spec_raw_data(s, data_type, elements) matches Ok((r, d)) ==> {
            &&& d.data_type() == data_type
            &&& d.len() == elements
            &&& r == s.skip(elements * element_width(data_type))
            &&& elements_read(s, d)
        },
        1 <= data_type <= 8 ==> (spec_raw_data(s, data_type, elements) is Ok
            <==> s.len() >= elements * element_width(data_type)),
{
    if data_type == 1 {
        lemma_le_count_positions::<u8>(s, elements);
        if let Ok((_, RawDataModel::DataU8(v))) = spec_raw_data(s, data_type, elements) {
            assert forall|k: int| 0 <= k < v.len() implies #[trigger] v[k] == s[k] by {
                assert(u8::spec_read(s.skip(k * 1)) == Ok::<(Seq<u8>, u8), crate::error::ParseError>((s.skip((k + 1) * 1), v[k])));
            }
        }
    } else if data_type == 2 {
        lemma_le_count_positions::<u16>(s, elements);
        if let Ok((_, RawDataModel::DataU16(v))) = spec_raw_data(s, data_type, elements) {
            assert forall|k: int| 0 <= k < v.len() implies #[trigger] v[k] == le2(s.skip(2 * k)) as u16 by {
                assert(u16::spec_read(s.skip(k * 2)) == Ok::<(Seq<u8>, u16), crate::error::ParseError>((s.skip((k + 1) * 2), v[k])));
            }
        }
    } else if data_type == 3 {
        lemma_le_count_positions::<u32>(s, elements);
        if let Ok((_, RawDataModel::DataU32(v))) = spec_raw_data(s, data_type, elements) {
            assert forall|k: int| 0 <= k < v.len() implies #[trigger] v[k] == le4(s.skip(4 * k)) as u32 by {
                assert(u32::spec_read(s.skip(k * 4)) == Ok::<(Seq<u8>, u32), crate::error::ParseError>((s.skip((k + 1) * 4), v[k])));
            }
        }
    } else if data_type == 4 {
        lemma_le_count_positions::<i8>(s, elements);
        if let Ok((_, RawDataModel::DataI8(v))) = spec_raw_data(s, data_type, elements) {
            assert forall|k: int| 0 <= k < v.len() implies #[trigger] v[k] == s[k] as i8 by {
                assert(i8::spec_read(s.skip(k * 1)) == Ok::<(Seq<u8>, i8), crate::error::ParseError>((s.skip((k + 1) * 1), v[k])));
            }
        }
    } else if data_type == 5 {
        lemma_le_count_positions::<i16>(s, elements);
        if let Ok((_, RawDataModel::DataI16(v))) = spec_raw_data(s, data_type, elements) {
            assert forall|k: int| 0 <= k < v.len() implies #[trigger] v[k] == (le2(s.skip(2 * k)) as u16) as i16 by {
                assert(i16::spec_read(s.skip(k * 2)) == Ok::<(Seq<u8>, i16), crate::error::ParseError>((s.skip((k + 1) * 2), v[k])));
            }
        }
    } else if data_type == 6 {
        lemma_le_count_positions::<i32>(s, elements);
        if let Ok((_, RawDataModel::DataI32(v))) = spec_raw_data(s, data_type, elements) {
            assert forall|k: int| 0 <= k < v.len() implies #[trigger] v[k] == (le4(s.skip(4 * k)) as u32) as i32 by {
                assert(i32::spec_read(s.skip(k * 4)) == Ok::<(Seq<u8>, i32), crate::error::ParseError>((s.skip((k + 1) * 4), v[k])));
            }
        }
    } else if data_type == 7 {
        lemma_le_count_positions::<u32>(s, elements);
        if let Ok((_, RawDataModel::DataF32(v))) = spec_raw_data(s, data_type, elements) {
            assert forall|k: int| 0 <= k < v.len() implies #[trigger] v[k] == le4(s.skip(4 * k)) as u32 by {
                assert(u32::spec_read(s.skip(k * 4)) == Ok::<(Seq<u8>, u32), crate::error::ParseError>((s.skip((k + 1) * 4), v[k])));
            }
        }
    } else if data_type == 8 {
        lemma_le_count_positions::<u64>(s, elements);
        if let Ok((_, RawDataModel::DataF64(v))) = spec_raw_data(s, data_type, elements) {
            assert forall|k: int| 0 <= k < v.len() implies #[trigger] v[k] == le8(s.skip(8 * k)) as u64 by {
                assert(u64::spec_read(s.skip(k * 8)) == Ok::<(Seq<u8>, u64), crate::error::ParseError>((s.skip((k + 1) * 8), v[k])));
            }
        }
    }
}

/// The layout of a two-dimensional array: the calibration of the x axis
/// (offset, delta and element at bytes 0, 8 and 16), that of the y axis (at
/// bytes 20, 28 and 36), the data type code (byte 40), `array_size_x` (byte
/// 42) and `array_size_y` (byte 46); from byte 50 on, its data is exactly
/// what reading `array_size_x * array_size_y` elements of that type code
/// gives, in the order of the file, and the array ends with them.
pub proof fn lemma_two_dim_layout(s: Seq<u8>)
    ensures
        spec_two_dim(s) matches Ok((r, d)) ==> {
            &&& s.len() >= 50
            &&& d.calibration_offset_x == le8(s) as u64
            &&& d.calibration_delta_x == le8(s.skip(8)) as u64
            &&& d.calibration_element_x == (le4(s.skip(16)) as u32) as i32
            &&& d.calibration_offset_y == le8(s.skip(20)) as u64
            &&& d.calibration_delta_y == le8(s.skip(28)) as u64
            &&& d.calibration_element_y == (le4(s.skip(36)) as u32) as i32
            &&& d.data_type == (le2(s.skip(40)) as u16) as i16
            &&& d.array_size_x == (le4(s.skip(42)) as u32) as i32
            &&& d.array_size_y == (le4(s.skip(46)) as u32) as i32
            &&& spec_raw_data(s.skip(50), d.data_type, ((d.array_size_x * d.array_size_y) as i32) as usize)
                == Ok::<(Seq<u8>, RawDataModel), ParseError>((r, d.data))
            &&& d.data.len() == ((d.array_size_x * d.array_size_y) as i32) as usize
            &&& elements_read(s.skip(50), d.data)
        },
{
    broadcast use vstd::seq_lib::lemma_seq_skip_of_skip;
    if let Ok((r, d)) = spec_two_dim(s) {
        assert(s.skip(8).skip(8) == s.skip(16));
        assert(s.skip(16).skip(4) == s.skip(20));
        assert(s.skip(20).skip(8) == s.skip(28));
        assert(s.skip(28).skip(8) == s.skip(36));
        assert(s.skip(36).skip(4) == s.skip(40));
        assert(s.skip(40).skip(2) == s.skip(42));
        assert(s.skip(42).skip(4) == s.skip(46));
        assert(s.skip(46).skip(4) == s.skip(50));
        lemma_raw_data_elements(s.skip(50), d.data_type, ((d.array_size_x * d.array_size_y) as i32) as usize);
    }
}

/// The byte at which the first dimension description of a header stands:
/// after the magic number, the series id and version, the data and tag type
/// codes, the two element counts, the offset of the offset tables (four
/// bytes before series version 544, eight from it on) and the number of
/// dimensions.
pub open spec fn dims_start(series_version: i16) -> int {
    if series_version >= 544 { 34 } else { 30 }
}

/// Where the codes at the start of a header stand.
proof fn lemma_header_codes_layout(s: Seq<u8>)
    ensures
        spec_header_codes(s) matches Ok((s5, c)) ==> {
            &&& s.len() >= 14
            &&& s5 == s.skip(14)
            &&& s.take(2) == magic_id()
            &&& c.0 == (le2(s.skip(2)) as u16) as i16
            &&& c.1 == (le2(s.skip(4)) as u16) as i16
            &&& s.subrange(6, 10) == (if c.2 == ArrayDim::One { one_dim_id() } else { two_dim_id() })
            &&& s.subrange(10, 14) == (if c.3 == TagType::Time { time_tag_type_id() } else { time_pos_tag_type_id() })
        },
{
    broadcast use vstd::seq_lib::lemma_seq_skip_of_skip;
    reveal(spec_header_codes);
    if let Ok((s5, c)) = spec_header_codes(s) {
        assert(s.skip(2).skip(2) == s.skip(4));
        assert(s.skip(4).skip(2) == s.skip(6));
        assert(s.skip(6).skip(4) == s.skip(10));
        assert(s.skip(10).skip(4) == s.skip(14));
        assert(s.skip(6).take(4) =~= s.subrange(6, 10));
        assert(s.skip(10).take(4) =~= s.subrange(10, 14));
    }
}

/// Where the counts of a header stand, the codes being the first 14 bytes.
proof fn lemma_header_counts_layout(s: Seq<u8>, series_version: i16)
    requires
        s.len() >= 14,
    ensures
        spec_header_counts(s.skip(14), series_version) matches Ok((s9, k)) ==> {
            let p = dims_start(series_version);
            &&& s.len() >= p
            &&& s9 == s.skip(p)
            &&& k.0 == (le4(s.skip(14)) as u32) as i32
            &&& k.1 == (le4(s.skip(18)) as u32) as i32
            &&& k.2 == (if series_version >= 544 {
                (le8(s.skip(22)) as u64) as i64
            } else {
                ((le4(s.skip(22)) as u32) as i32) as i64
            })
            &&& k.3 == (le4(s.skip(p - 4)) as u32) as i32
        },
{
    broadcast use vstd::seq_lib::lemma_seq_skip_of_skip;
    reveal(spec_header_counts);
    if let Ok((s9, k)) = spec_header_counts(s.skip(14), series_version) {
        assert(s.skip(14).skip(4) == s.skip(18));
        assert(s.skip(18).skip(4) == s.skip(22));
        if series_version >= 544 {
            assert(s.skip(22).skip(8) == s.skip(30));
            assert(s.skip(30).skip(4) == s.skip(34));
        } else {
            assert(s.skip(22).skip(4) == s.skip(26));
            assert(s.skip(26).skip(4) == s.skip(30));
        }
    }
}

/// The layout of a header: the magic number (bytes 0 and 1), the series id
/// (byte 2) and version (byte 4), the data type code (bytes 6 to 9) and the
/// tag type code (bytes 10 to 13), the total and valid element counts (bytes
/// 14 and 18), the offset of the offset tables (byte 22, four or eight bytes
/// wide) and the number of dimensions (the four bytes before
/// [`dims_start`]); then that many dimension descriptions, read in the order
/// of the file: the first one right after the number of dimensions, each
/// next one right after the one before it.  The header ends with the last.
pub proof fn lemma_header_layout(s: Seq<u8>)
    ensures
        spec_ser_header(s) matches Ok((r, h)) ==> {
            let p = dims_start(h.series_version);
            &&& s.len() >= p
            &&& s.take(2) == magic_id()
            &&& h.series_id == (le2(s.skip(2)) as u16) as i16
            &&& h.series_version == (le2(s.skip(4)) as u16) as i16
            &&& s.subrange(6, 10) == (if h.array_dim == ArrayDim::One { one_dim_id() } else { two_dim_id() })
            &&& s.subrange(10, 14) == (if h.tag_type == TagType::Time { time_tag_type_id() } else { time_pos_tag_type_id() })
            &&& h.total_element_count == (le4(s.skip(14)) as u32) as i32
            &&& h.valid_element_count == (le4(s.skip(18)) as u32) as i32
            &&& h.array_offset == (if h.series_version >= 544 {
                (le8(s.skip(22)) as u64) as i64
            } else {
                ((le4(s.skip(22)) as u32) as i32) as i64
            })
            &&& ((le4(s.skip(p - 4)) as u32) as i32) as usize == h.dimension_arrays.len()
            &&& items_in_order(dim_array_reader(), s, p, h.dimension_arrays, s.len() - r.len())
        },
{
    lemma_header_codes_layout(s);
    if let Ok((s5, c)) = spec_header_codes(s) {
        lemma_header_counts_layout(s, c.1);
        reveal(spec_header_rest);
        if let Ok((s9, k)) = spec_header_counts(s5, c.1) {
            let p = dims_start(c.1);
            let n = k.3 as usize;
            assert forall|x: Seq<u8>| local(#[trigger] dim_array_reader()(x), x, dim_array_reader()(x), x) by {
                lemma_local_dim_array(x, x);
            }
            lemma_count_in_order(dim_array_reader(), s, p, n as nat);
            lemma_count_len(dim_array_reader(), s9, n as nat);
        }
    }
}

/// The value of the offset that starts `s`: a little-endian `i64` from
/// series version 544 on, a little-endian `i32` before.
pub open spec fn offset_value(s: Seq<u8>, series_version: i16) -> i64 {
    if series_version >= 544 {
        (le8(s) as u64) as i64
    } else {
        ((le4(s) as u32) as i32) as i64
    }
}

/// A table of `n` offsets: entry `k` is the offset at byte `k * w`, `w` the
/// width of an offset, and the table ends at byte `n * w`.
proof fn lemma_offset_table(s: Seq<u8>, series_version: i16, n: usize)
    ensures
        spec_count(offset_reader(series_version), s, n) matches Ok((r, vs)) ==> {
            &&& s.len() >= n * offset_width(series_version)
            &&& r == s.skip((n * offset_width(series_version)) as int)
            &&& vs.len() == n
            &&& forall|k: int| 0 <= k < n ==> #[trigger] vs[k]
                == offset_value(s.skip(k * offset_width(series_version)), series_version)
        },
{
    let p = offset_reader(series_version);
    let w = offset_width(series_version);
    assert forall|x: Seq<u8>| (#[trigger] p(x)) matches Ok((r, _)) ==> x.len() >= w && r == x.skip(w as int) by {}
    assert forall|x: Seq<u8>| x.len() >= w implies (#[trigger] p(x)) is Ok by {}
    lemma_count_positions(p, s, n as nat, w);
    if let Ok((r, vs)) = spec_count(p, s, n) {
        assert forall|k: int| 0 <= k < n implies #[trigger] vs[k] == offset_value(s.skip(k * w), series_version) by {
            assert(p(s.skip(k * w)) == Ok::<(Seq<u8>, i64), ParseError>((s.skip((k + 1) * w), vs[k])));
        }
    }
}

/// The layout of the offset tables of `n` entries each: the offset of the
/// data array of element `k` is read at byte `k * w`, `w` the width of an
/// offset (eight bytes from series version 544 on, four before), and that of
/// its tag at byte `(n + k) * w`; the tables end at byte `2 * n * w`.
pub proof fn lemma_offsets_layout(s: Seq<u8>, series_version: i16, total_element_count: i32)
    ensures
        spec_ser_offsets(s, series_version, total_element_count) matches Ok((r, o)) ==> {
            let n = total_element_count as usize;
            let w = offset_width(series_version);
            &&& o.data_offset.len() == n
            &&& o.tag_offset.len() == n
            &&& forall|k: int| 0 <= k < n ==> #[trigger] o.data_offset[k] == offset_value(s.skip(k * w), series_version)
            &&& forall|k: int| 0 <= k < n ==> #[trigger] o.tag_offset[k] == offset_value(s.skip((n + k) * w), series_version)
            &&& r == s.skip(2 * n * w)
        },
{
    broadcast use vstd::seq_lib::lemma_seq_skip_of_skip;
    let n = total_element_count as usize;
    let w = offset_width(series_version);
    let p = offset_reader(series_version);
    lemma_offset_table(s, series_version, n);
    if let Ok((s1, d)) = spec_count(p, s, n) {
        lemma_offset_table(s1, series_version, n);
        if let Ok((s2, t)) = spec_count(p, s1, n) {
            assert forall|k: int| 0 <= k < n implies #[trigger] t[k] == offset_value(s.skip((n + k) * w), series_version) by {
                assert((n + k) * w == n * w + k * w && k * w >= 0 && k * w <= n * w) by (nonlinear_arith)
                    requires
                        0 <= k < n,
                ;
                assert(s1.skip(k * w) =~= s.skip((n + k) * w));
            }
            assert(2 * n * w == n * w + n * w) by (nonlinear_arith);
            assert(s2 =~= s.skip(2 * n * w));
        }
    }
}

/// The layout of a one-dimensional array: its calibration (offset, delta
/// and element at bytes 0, 8 and 16), the data type code (byte 20) and the
/// length (byte 22); from byte 26 on, its data is exactly what reading
/// `array_length` elements of that type code gives, in the order of the
/// file, and the array ends with them.
pub proof fn lemma_one_dim_layout(s: Seq<u8>)
    ensures
        spec_one_dim(s) matches Ok((r, d)) ==> {
            &&& s.len() >= 26
            &&& d.calibration_offset == le8(s) as u64
            &&& d.calibration_delta == le8(s.skip(8)) as u64
            &&& d.calibration_element == (le4(s.skip(16)) as u32) as i32
            &&& d.data_type == (le2(s.skip(20)) as u16) as i16
            &&& d.array_length == (le4(s.skip(22)) as u32) as i32
            &&& spec_raw_data(s.skip(26), d.data_type, d.array_length as usize)
                == Ok::<(Seq<u8>, RawDataModel), ParseError>((r, d.data))
            &&& elements_read(s.skip(26), d.data)
        },
{
    broadcast use vstd::seq_lib::lemma_seq_skip_of_skip;
    if let Ok((r, d)) = spec_one_dim(s) {
        assert(s.skip(8).skip(8) == s.skip(16));
        assert(s.skip(16).skip(4) == s.skip(20));
        assert(s.skip(20).skip(2) == s.skip(22));
        assert(s.skip(22).skip(4) == s.skip(26));
        lemma_raw_data_elements(s.skip(26), d.data_type, d.array_length as usize);
    }
}

/// The layout of the tags: the two-byte marker, then the time (byte 2),
/// and in a time-and-position tag the position along x (byte 6) and along y
/// (byte 14).
pub proof fn lemma_tags_layout(s: Seq<u8>)
    ensures
        spec_tag_time(s) matches Ok((r, g)) ==> {
            &&& s.len() >= 6
            &&& s.take(2) == time_tag_id()
            &&& g.time == (le4(s.skip(2)) as u32) as i32
            &&& r == s.skip(6)
        },
        spec_tag_time_pos(s) matches Ok((r, g)) ==> {
            &&& s.len() >= 22
            &&& s.take(2) == time_pos_tag_id()
            &&& g.time == (le4(s.skip(2)) as u32) as i32
            &&& g.position_x == le8(s.skip(6)) as u64
            &&& g.position_y == le8(s.skip(14)) as u64
            &&& r == s.skip(22)
        },
{
    broadcast use vstd::seq_lib::lemma_seq_skip_of_skip;
    if let Ok((r, g)) = spec_tag_time(s) {
        assert(s.skip(2).skip(4) == s.skip(6));
    }
    if let Ok((r, g)) = spec_tag_time_pos(s) {
        assert(s.skip(2).skip(4) == s.skip(6));
        assert(s.skip(6).skip(8) == s.skip(14));
        assert(s.skip(14).skip(8) == s.skip(22));
    }
}

/// The layout of a dimension description: its size (byte 0), its
/// calibration (offset, delta and element at bytes 4, 12 and 20), the length
/// of its description (byte 24) and that many bytes of UTF-8, then the
/// length of its units and that many bytes of UTF-8, with which it ends.
pub proof fn lemma_dim_array_layout(s: Seq<u8>)
    ensures
        spec_dim_array(s) matches Ok((r, d)) ==> {
            let dl = ((le4(s.skip(24)) as u32) as i32) as usize;
            let ul = ((le4(s.skip(28 + dl)) as u32) as i32) as usize;
            &&& s.len() >= 32 + dl + ul
            &&& d.dimension_size == (le4(s) as u32) as i32
            &&& d.calibration_offset == le8(s.skip(4)) as u64
            &&& d.calibration_delta == le8(s.skip(12)) as u64
            &&& d.calibration_element == (le4(s.skip(20)) as u32) as i32
            &&& d.description == decode_utf8(s.subrange(28, 28 + dl))
            &&& d.units == decode_utf8(s.subrange(32 + dl, 32 + dl + ul))
            &&& r == s.skip(32 + dl + ul)
        },
{
    broadcast use vstd::seq_lib::lemma_seq_skip_of_skip;
    if let Ok((r, d)) = spec_dim_array(s) {
        let dl = ((le4(s.skip(24)) as u32) as i32) as usize;
        let ul = ((le4(s.skip(28 + dl)) as u32) as i32) as usize;
        assert(s.skip(4).skip(8) == s.skip(12));
        assert(s.skip(12).skip(8) == s.skip(20));
        assert(s.skip(20).skip(4) == s.skip(24));
        assert(s.skip(24).skip(4) == s.skip(28));
        assert(s.skip(28).skip(dl as int) == s.skip(28 + dl));
        assert(s.skip(28).take(dl as int) =~= s.subrange(28, 28 + dl));
        assert(s.skip(28 + dl).skip(4) == s.skip(32 + dl));
        assert(s.skip(32 + dl).skip(ul as int) == s.skip(32 + dl + ul));
        assert(s.skip(32 + dl).take(ul as int) =~= s.subrange(32 + dl, 32 + dl + ul));
    }
}

/// Where the parts of the first element of a file are read: the header at
/// the start of the file, the offset tables at the offset that the header
/// gives, the first tag at the first entry of the tag table and the first
/// data array at the first entry of the data table, each offset counted from
/// the start of the file.
pub proof fn lemma_first_frame_parts(file: Seq<u8>)
    ensures
        spec_first_frame(file) matches Ok(f) ==> {
            let a = f.header.array_offset as usize as int;
            let t = f.offsets.tag_offset[0] as usize as int;
            let d = f.offsets.data_offset[0] as usize as int;
            &&& (spec_ser_header(file) matches Ok((_, h)) && h == f.header)
            &&& a <= file.len()
            &&& (spec_ser_offsets(file.skip(a), f.header.series_version, f.header.total_element_count)
                matches Ok((_, o)) && o == f.offsets)
            &&& f.offsets.tag_offset.len() > 0
            &&& f.offsets.data_offset.len() > 0
            &&& t <= file.len()
            &&& (spec_data_tag(file.skip(t), f.header.tag_type) matches Ok((_, g)) && g == f.tag)
            &&& d <= file.len()
            &&& (spec_data(file.skip(d), f.header.array_dim) matches Ok((_, x)) && x == f.data)
        },
{
    if let Ok((_, h)) = spec_ser_header(file) {
        let a = h.array_offset as usize;
        if a <= file.len() {
            if let Ok((_, o)) = spec_ser_offsets(file.skip(a as int), h.series_version, h.total_element_count) {
                lemma_offsets_layout(file.skip(a as int), h.series_version, h.total_element_count);
            }
        }
    }
}

} // verus!
