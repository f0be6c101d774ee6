//! Little-endian integers, fixed byte tags, length-prefixed strings and
//! repetitions: the building blocks of the `.ser` grammar.
use vstd::prelude::*;
use vstd::slice::slice_subrange;
use vstd::utf8::{valid_utf8, decode_utf8};
use crate::error::{
    agree_on, agrees, agrees_value, error_at, local, shrinks, stable, ErrorKind, ParseError, SpecRes,
};

verus! {

/// The unsigned little-endian value of the first two bytes of `s`.
pub open spec fn le2(s: Seq<u8>) -> int {
    s[0] + 256 * s[1]
}

/// The unsigned little-endian value of the first four bytes of `s`.
pub open spec fn le4(s: Seq<u8>) -> int {
    le2(s) + 65536 * le2(s.skip(2))
}

/// The unsigned little-endian value of the first eight bytes of `s`.
pub open spec fn le8(s: Seq<u8>) -> int {
    le4(s) + 4294967296 * le4(s.skip(4))
}

/// The little-endian values weigh byte `k` by `256` to the power `k`.
pub proof fn lemma_le_values(s: Seq<u8>)
    ensures
        s.len() >= 2 ==> le2(s) == s[0] + 0x100 * s[1],
        s.len() >= 4 ==> le4(s) == s[0] + 0x100 * s[1] + 0x1_0000 * s[2] + 0x100_0000 * s[3],
        s.len() >= 8 ==> le8(s) == s[0] + 0x100 * s[1] + 0x1_0000 * s[2] + 0x100_0000 * s[3]
            + 0x1_0000_0000 * s[4] + 0x100_0000_0000 * s[5] + 0x1_0000_0000_0000 * s[6]
            + 0x100_0000_0000_0000 * s[7],
{
}

/// Reads a fixed-width item of `n` bytes whose value is `v`: the input must
/// hold at least `n` bytes, else the item is incomplete.
pub open spec fn fixed<T>(s: Seq<u8>, n: nat, v: T) -> SpecRes<T> {
    if s.len() < n {
        Err(ParseError::Incomplete(n as usize))
    } else {
        Ok((s.skip(n as int), v))
    }
}

pub open spec fn spec_le_u8(s: Seq<u8>) -> SpecRes<u8> {
    fixed(s, 1, s[0])
}

pub open spec fn spec_le_u16(s: Seq<u8>) -> SpecRes<u16> {
    fixed(s, 2, le2(s) as u16)
}

pub open spec fn spec_le_u32(s: Seq<u8>) -> SpecRes<u32> {
    fixed(s, 4, le4(s) as u32)
}

pub open spec fn spec_le_u64(s: Seq<u8>) -> SpecRes<u64> {
    fixed(s, 8, le8(s) as u64)
}

/// Signed integers are the unsigned ones reinterpreted in two's complement.
pub open spec fn spec_le_i8(s: Seq<u8>) -> SpecRes<i8> {
    fixed(s, 1, s[0] as i8)
}

pub open spec fn spec_le_i16(s: Seq<u8>) -> SpecRes<i16> {
    fixed(s, 2, (le2(s) as u16) as i16)
}

pub open spec fn spec_le_i32(s: Seq<u8>) -> SpecRes<i32> {
    fixed(s, 4, (le4(s) as u32) as i32)
}

pub open spec fn spec_le_i64(s: Seq<u8>) -> SpecRes<i64> {
    fixed(s, 8, (le8(s) as u64) as i64)
}

/// Matches the fixed byte sequence `t` at the start of `s`.  A byte that
/// differs rejects the input; an input that is a proper prefix of `t` is
/// incomplete.
pub open spec fn spec_tag(s: Seq<u8>, t: Seq<u8>) -> SpecRes<()> {
    if s.len() >= t.len() {
        if s.take(t.len() as int) == t {
            Ok((s.skip(t.len() as int), ()))
        } else {
            Err(error_at(ErrorKind::Tag, s))
        }
    } else {
        if s == t.take(s.len() as int) {
            Err(ParseError::Incomplete(t.len() as usize))
        } else {
            Err(error_at(ErrorKind::Tag, s))
        }
    }
}

/// Reads `n` bytes that must be UTF-8, as the characters they encode.
pub open spec fn spec_take_str(s: Seq<u8>, n: usize) -> SpecRes<Seq<char>> {
    if s.len() < n {
        Err(ParseError::Incomplete(n))
    } else if valid_utf8(s.take(n as int)) {
        Ok((s.skip(n as int), decode_utf8(s.take(n as int))))
    } else {
        Err(error_at(ErrorKind::MapRes, s))
    }
}

/// `n` items read one after the other by `p`; the first failure ends it.
pub open spec fn count_items<T>(p: spec_fn(Seq<u8>) -> SpecRes<T>, s: Seq<u8>, n: nat) -> SpecRes<Seq<T>>
    decreases n,
{
    if n == 0 {
        Ok((s, Seq::empty()))
    } else {
        match p(s) {
            Ok((r, v)) => match count_items(p, r, (n - 1) as nat) {
                Ok((r2, vs)) => Ok((r2, seq![v] + vs)),
                Err(e) => Err(e),
            },
            Err(e) => Err(e),
        }
    }
}

/// A field repeated `n` times: an item that is rejected rejects the whole
/// repetition at its start (`Count`), an incomplete item leaves it incomplete.
pub open spec fn spec_count<T>(p: spec_fn(Seq<u8>) -> SpecRes<T>, s: Seq<u8>, n: usize) -> SpecRes<Seq<T>> {
    match count_items(p, s, n as nat) {
        Err(ParseError::Error(_, _)) => Err(error_at(ErrorKind::Count, s)),
        other => other,
    }
}

/// The result of a partially run repetition: `vs` read so far, then `r`.
pub open spec fn after<T>(vs: Seq<T>, r: SpecRes<Seq<T>>) -> SpecRes<Seq<T>> {
    match r {
        Ok((rest, ws)) => Ok((rest, vs + ws)),
        Err(e) => Err(e),
    }
}

/// One step of a repetition.
pub proof fn lemma_count_step<T>(p: spec_fn(Seq<u8>) -> SpecRes<T>, s: Seq<u8>, n: nat, vs: Seq<T>)
    requires
        n > 0,
    ensures
        p(s) matches Ok((r, v)) ==> after(vs, count_items(p, s, n)) == after(vs.push(v), count_items(p, r, (n - 1) as nat)),
        p(s) matches Err(e) ==> after(vs, count_items(p, s, n)) == Err::<(Seq<u8>, Seq<T>), ParseError>(e),
{
    if let Ok((r, v)) = p(s) {
        match count_items(p, r, (n - 1) as nat) {
            Ok((r2, ws)) => {
                assert(vs + (seq![v] + ws) =~= vs.push(v) + ws);
            },
            Err(e) => {},
        }
    }
}

/// Returns the input after its first `n` bytes.
fn skip<'a>(i: &'a [u8], n: usize) -> (rest: &'a [u8])
    requires
        n <= i@.len(),
    ensures
        rest@ == i@.skip(n as int),
{
    slice_subrange(i, n, i.len())
}

/// Reads an unsigned byte.
pub fn le_u8<'a>(i: &'a [u8]) -> (r: Result<(&'a [u8], u8), ParseError>)
    ensures
        agrees(r, spec_le_u8(i@)),
{
    if i.len() < 1 {
        Err(ParseError::Incomplete(1))
    } else {
        Ok((skip(i, 1), i[0]))
    }
}

/// Reads a little-endian unsigned 16-bit integer.
pub fn le_u16<'a>(i: &'a [u8]) -> (r: Result<(&'a [u8], u16), ParseError>)
    ensures
        agrees(r, spec_le_u16(i@)),
{
    if i.len() < 2 {
        Err(ParseError::Incomplete(2))
    } else {
        let v: u16 = i[0] as u16 + 256 * (i[1] as u16);
        Ok((skip(i, 2), v))
    }
}

/// Reads a little-endian unsigned 32-bit integer.
pub fn le_u32<'a>(i: &'a [u8]) -> (r: Result<(&'a [u8], u32), ParseError>)
    ensures
        agrees(r, spec_le_u32(i@)),
{
    if i.len() < 4 {
        Err(ParseError::Incomplete(4))
    } else {
        let v: u32 = i[0] as u32 + 256 * (i[1] as u32) + 65536 * (i[2] as u32 + 256 * (i[3] as u32));
        Ok((skip(i, 4), v))
    }
}

/// Reads a little-endian unsigned 64-bit integer.
pub fn le_u64<'a>(i: &'a [u8]) -> (r: Result<(&'a [u8], u64), ParseError>)
    ensures
        agrees(r, spec_le_u64(i@)),
{
    if i.len() < 8 {
        Err(ParseError::Incomplete(8))
    } else {
        let lo: u64 = i[0] as u64 + 256 * (i[1] as u64) + 65536 * (i[2] as u64 + 256 * (i[3] as u64));
        let hi: u64 = i[4] as u64 + 256 * (i[5] as u64) + 65536 * (i[6] as u64 + 256 * (i[7] as u64));
        let v: u64 = lo + 4294967296 * hi;
        Ok((skip(i, 8), v))
    }
}

/// Reads a signed byte.
pub fn le_i8<'a>(i: &'a [u8]) -> (r: Result<(&'a [u8], i8), ParseError>)
    ensures
        agrees(r, spec_le_i8(i@)),
{
    match le_u8(i) {
        Ok((rest, v)) => Ok((rest, v as i8)),
        Err(e) => Err(e),
    }
}

/// Reads a little-endian signed 16-bit integer.
pub fn le_i16<'a>(i: &'a [u8]) -> (r: Result<(&'a [u8], i16), ParseError>)
    ensures
        agrees(r, spec_le_i16(i@)),
{
    match le_u16(i) {
        Ok((rest, v)) => Ok((rest, v as i16)),
        Err(e) => Err(e),
    }
}

/// Reads a little-endian signed 32-bit integer.
pub fn le_i32<'a>(i: &'a [u8]) -> (r: Result<(&'a [u8], i32), ParseError>)
    ensures
        agrees(r, spec_le_i32(i@)),
{
    match le_u32(i) {
        Ok((rest, v)) => Ok((rest, v as i32)),
        Err(e) => Err(e),
    }
}

/// Reads a little-endian signed 64-bit integer.
pub fn le_i64<'a>(i: &'a [u8]) -> (r: Result<(&'a [u8], i64), ParseError>)
    ensures
        agrees(r, spec_le_i64(i@)),
{
    match le_u64(i) {
        Ok((rest, v)) => Ok((rest, v as i64)),
        Err(e) => Err(e),
    }
}

/// Matches the fixed byte sequence `t` at the start of the input.
pub fn tag<'a>(i: &'a [u8], t: &[u8]) -> (r: Result<(&'a [u8], ()), ParseError>)
    ensures
        agrees(r, spec_tag(i@, t@)),
{
    let m: usize = if i.len() < t.len() { i.len() } else { t.len() };
    let mut k: usize = 0;
    while k < m
        invariant
            k <= m,
            m == if i@.len() < t@.len() { i@.len() } else { t@.len() },
            forall|j: int| 0 <= j < k ==> i@[j] == t@[j],
        decreases m - k,
    {
        if i[k] != t[k] {
            proof {
                if i@.len() >= t@.len() {
                    assert(i@.take(t@.len() as int)[k as int] != t@[k as int]);
                } else {
                    assert(t@.take(i@.len() as int)[k as int] != i@[k as int]);
                }
            }
            return Err(ParseError::Error(ErrorKind::Tag, i.len()));
        }
        k = k + 1;
    }
    if i.len() >= t.len() {
        assert(i@.take(t@.len() as int) =~= t@);
        Ok((skip(i, t.len()), ()))
    } else {
        assert(i@ =~= t@.take(i@.len() as int));
        Err(ParseError::Incomplete(t.len()))
    }
}

/// `std::str::from_utf8`: the bytes as a string slice when they are valid
/// UTF-8.  The contract claims that the standard library accepts exactly the
/// well-formed UTF-8 sequences as `vstd::utf8::valid_utf8` describes them,
/// and that the slice it returns holds the characters those bytes encode.
#[verifier::external_body]
fn str_from_utf8<'a>(v: &'a [u8]) -> (r: Option<&'a str>)
    ensures
        r is Some <==> valid_utf8(v@),
        r matches Some(s) ==> s@ == decode_utf8(v@),
{
    match std::str::from_utf8(v) {
        Ok(s) => Some(s),
        Err(_) => None,
    }
}

/// Reads `n` bytes that must form valid UTF-8, as a string slice.
pub fn take_str<'a>(i: &'a [u8], n: usize) -> (r: Result<(&'a [u8], &'a str), ParseError>)
    ensures
        agrees(r, spec_take_str(i@, n)),
{
    if i.len() < n {
        Err(ParseError::Incomplete(n))
    } else {
        let head = slice_subrange(i, 0, n);
        assert(head@ == i@.take(n as int));
        match str_from_utf8(head) {
            Some(s) => Ok((skip(i, n), s)),
            None => Err(ParseError::Error(ErrorKind::MapRes, i.len())),
        }
    }
}

/// The value of a hexadecimal digit, or -1 for any other character.
pub open spec fn hex_digit_value(c: char) -> int {
    let x = c as u32;
    if 0x30 <= x <= 0x39 {
        x - 0x30
    } else if 0x41 <= x <= 0x46 {
        x - 0x41 + 10
    } else if 0x61 <= x <= 0x66 {
        x - 0x61 + 10
    } else {
        -1
    }
}

/// An even number of hexadecimal digits.
pub open spec fn is_hex(s: Seq<char>) -> bool {
    &&& s.len() % 2 == 0
    &&& forall|k: int| 0 <= k < s.len() ==> hex_digit_value(#[trigger] s[k]) >= 0
}

/// The bytes that a string of hexadecimal digits spells, two digits each,
/// the high nibble first.
pub open spec fn hex_bytes(s: Seq<char>) -> Seq<u8> {
    Seq::new(s.len() / 2, |k: int| (16 * hex_digit_value(s[2 * k]) + hex_digit_value(s[2 * k + 1])) as u8)
}

/// `hex::decode`: the bytes spelled by a string of hexadecimal digits.  The
/// contract claims what its source shows: it fails on an odd number of bytes
/// or on a byte that is no hexadecimal digit (either case of `a`-`f`), and
/// otherwise turns each pair of digits into one byte, high nibble first.
#[verifier::external_body]
fn hex_decode(s: &str) -> (r: Option<Vec<u8>>)
    ensures
        r is Some <==> is_hex(s@),
        r matches Some(v) ==> v@ == hex_bytes(s@),
{
    match hex::decode(s) {
        Ok(v) => Some(v),
        Err(_) => None,
    }
}

/// The bytes spelled by a constant string of hexadecimal digits.
pub fn hex_constant(s: &str) -> (v: Vec<u8>)
    requires
        is_hex(s@),
    ensures
        v@ == hex_bytes(s@),
{
    hex_decode(s).unwrap()
}

/// A reader of the items of a repeated field.  `Item` is what it returns
/// for an input that lives for `'a`; `Model` is the mathematical value of an
/// item.
pub trait ItemReader<'a> {
    type Item;
    type Model;

    spec fn model(item: Self::Item) -> Self::Model;

    /// The reader as a specification function.
    spec fn spec_reader(&self) -> spec_fn(Seq<u8>) -> SpecRes<Self::Model>;

    fn read(&self, i: &'a [u8]) -> (r: Result<(&'a [u8], Self::Item), ParseError>)
        ensures
            match r {
                Ok((rest, v)) => self.spec_reader()(i@) matches Ok((srest, sv))
                    && rest@ == srest && Self::model(v) == sv,
                Err(e) => self.spec_reader()(i@) == Err::<(Seq<u8>, Self::Model), ParseError>(e),
            },
            r matches Ok((rest, _)) ==> rest@.len() < i@.len(),
    ;
}

/// The models of a sequence of items.
pub open spec fn models<'a, R: ItemReader<'a>>(v: Seq<R::Item>) -> Seq<R::Model> {
    v.map_values(|x: R::Item| R::model(x))
}

/// Reads `n` items one after the other.
pub fn count<'a, R: ItemReader<'a>>(reader: &R, i: &'a [u8], n: usize) -> (r: Result<(&'a [u8], Vec<R::Item>), ParseError>)
    ensures
        match r {
            Ok((rest, v)) => spec_count(reader.spec_reader(), i@, n) matches Ok((srest, sv))
                && rest@ == srest && models::<R>(v@) == sv,
            Err(e) => spec_count(reader.spec_reader(), i@, n) == Err::<(Seq<u8>, Seq<R::Model>), ParseError>(e),
        },
{
    let ghost p = reader.spec_reader();
    let mut cur = i;
    let mut out: Vec<R::Item> = Vec::new();
    assert(after(models::<R>(out@), count_items(p, i@, n as nat)) == count_items(p, i@, n as nat)) by {
        if let Ok((rest, ws)) = count_items(p, i@, n as nat) {
            assert(models::<R>(out@) + ws =~= ws);
        }
    }
    while out.len() < n
        invariant
            out@.len() <= n,
            p == reader.spec_reader(),
            after(models::<R>(out@), count_items(p, cur@, (n - out@.len()) as nat)) == count_items(p, i@, n as nat),
        decreases cur@.len(),
    {
        let ghost m = (n - out@.len()) as nat;
        proof {
            lemma_count_step(p, cur@, m, models::<R>(out@));
        }
        match reader.read(cur) {
            Ok((rest, v)) => {
                let ghost before = out@;
                out.push(v);
                assert(models::<R>(out@) =~= models::<R>(before).push(R::model(v)));
                cur = rest;
            },
            Err(e) => {
                return match e {
                    ParseError::Error(_, _) => Err(ParseError::Error(ErrorKind::Count, i.len())),
                    ParseError::Incomplete(k) => Err(ParseError::Incomplete(k)),
                };
            },
        }
    }
    assert(models::<R>(out@) + Seq::<R::Model>::empty() =~= models::<R>(out@));
    Ok((cur, out))
}

/// A little-endian integer type that the file stores element by element.
pub trait LeItem: Sized + Copy {
    /// The number of bytes an item takes.
    spec fn width() -> nat;

    spec fn spec_read(s: Seq<u8>) -> SpecRes<Self>;

    fn read<'a>(i: &'a [u8]) -> (r: Result<(&'a [u8], Self), ParseError>)
        ensures
            agrees_value(r, Self::spec_read(i@)),
            r matches Ok((rest, _)) ==> rest@.len() < i@.len(),
    ;

    /// Reading an item takes its width, keeps a decided answer when input is
    /// appended, and depends only on the bytes it takes.
    proof fn lemma_read(s: Seq<u8>, s2: Seq<u8>, t: Seq<u8>)
        ensures
            Self::spec_read(s) matches Ok((r, _)) ==> r.len() + Self::width() == s.len()
                && r == s.skip(Self::width() as int),
            s.len() >= Self::width() ==> Self::spec_read(s) is Ok,
            s.len() + t.len() <= usize::MAX ==> stable(Self::spec_read(s), Self::spec_read(s + t), t),
            local(Self::spec_read(s), s, Self::spec_read(s2), s2),
    ;
}

impl LeItem for u8 {
    open spec fn width() -> nat {
        1
    }

    open spec fn spec_read(s: Seq<u8>) -> SpecRes<u8> {
        spec_le_u8(s)
    }

    fn read<'a>(i: &'a [u8]) -> (r: Result<(&'a [u8], u8), ParseError>) {
        le_u8(i)
    }

    proof fn lemma_read(s: Seq<u8>, s2: Seq<u8>, t: Seq<u8>) {
        if s.len() + t.len() <= usize::MAX {
            lemma_stable_le(s, t);
        }
        lemma_local_le(s, s2);
    }
}

impl LeItem for u16 {
    open spec fn width() -> nat {
        2
    }

    open spec fn spec_read(s: Seq<u8>) -> SpecRes<u16> {
        spec_le_u16(s)
    }

    fn read<'a>(i: &'a [u8]) -> (r: Result<(&'a [u8], u16), ParseError>) {
        le_u16(i)
    }

    proof fn lemma_read(s: Seq<u8>, s2: Seq<u8>, t: Seq<u8>) {
        if s.len() + t.len() <= usize::MAX {
            lemma_stable_le(s, t);
        }
        lemma_local_le(s, s2);
    }
}

impl LeItem for u32 {
    open spec fn width() -> nat {
        4
    }

    open spec fn spec_read(s: Seq<u8>) -> SpecRes<u32> {
        spec_le_u32(s)
    }

    fn read<'a>(i: &'a [u8]) -> (r: Result<(&'a [u8], u32), ParseError>) {
        le_u32(i)
    }

    proof fn lemma_read(s: Seq<u8>, s2: Seq<u8>, t: Seq<u8>) {
        if s.len() + t.len() <= usize::MAX {
            lemma_stable_le(s, t);
        }
        lemma_local_le(s, s2);
    }
}

impl LeItem for u64 {
    open spec fn width() -> nat {
        8
    }

    open spec fn spec_read(s: Seq<u8>) -> SpecRes<u64> {
        spec_le_u64(s)
    }

    fn read<'a>(i: &'a [u8]) -> (r: Result<(&'a [u8], u64), ParseError>) {
        le_u64(i)
    }

    proof fn lemma_read(s: Seq<u8>, s2: Seq<u8>, t: Seq<u8>) {
        if s.len() + t.len() <= usize::MAX {
            lemma_stable_le(s, t);
        }
        lemma_local_le(s, s2);
    }
}

impl LeItem for i8 {
    open spec fn width() -> nat {
        1
    }

    open spec fn spec_read(s: Seq<u8>) -> SpecRes<i8> {
        spec_le_i8(s)
    }

    fn read<'a>(i: &'a [u8]) -> (r: Result<(&'a [u8], i8), ParseError>) {
        le_i8(i)
    }

    proof fn lemma_read(s: Seq<u8>, s2: Seq<u8>, t: Seq<u8>) {
        if s.len() + t.len() <= usize::MAX {
            lemma_stable_le(s, t);
        }
        lemma_local_le(s, s2);
    }
}

impl LeItem for i16 {
    open spec fn width() -> nat {
        2
    }

    open spec fn spec_read(s: Seq<u8>) -> SpecRes<i16> {
        spec_le_i16(s)
    }

    fn read<'a>(i: &'a [u8]) -> (r: Result<(&'a [u8], i16), ParseError>) {
        le_i16(i)
    }

    proof fn lemma_read(s: Seq<u8>, s2: Seq<u8>, t: Seq<u8>) {
        if s.len() + t.len() <= usize::MAX {
            lemma_stable_le(s, t);
        }
        lemma_local_le(s, s2);
    }
}

impl LeItem for i32 {
    open spec fn width() -> nat {
        4
    }

    open spec fn spec_read(s: Seq<u8>) -> SpecRes<i32> {
        spec_le_i32(s)
    }

    fn read<'a>(i: &'a [u8]) -> (r: Result<(&'a [u8], i32), ParseError>) {
        le_i32(i)
    }

    proof fn lemma_read(s: Seq<u8>, s2: Seq<u8>, t: Seq<u8>) {
        if s.len() + t.len() <= usize::MAX {
            lemma_stable_le(s, t);
        }
        lemma_local_le(s, s2);
    }
}

/// The reader of a little-endian item type, as a specification function.
pub open spec fn le_reader<T: LeItem>() -> spec_fn(Seq<u8>) -> SpecRes<T> {
    |s: Seq<u8>| T::spec_read(s)
}

/// The reader of the items of a little-endian integer type.
pub struct LeReader<T> {
    pub marker: core::marker::PhantomData<T>,
}

impl<'a, T: LeItem> ItemReader<'a> for LeReader<T> {
    type Item = T;
    type Model = T;

    open spec fn model(item: T) -> T {
        item
    }

    open spec fn spec_reader(&self) -> spec_fn(Seq<u8>) -> SpecRes<T> {
        le_reader::<T>()
    }

    fn read(&self, i: &'a [u8]) -> (r: Result<(&'a [u8], T), ParseError>) {
        T::read(i)
    }
}

/// Reads `n` little-endian items one after the other.
pub fn count_le<'a, T: LeItem>(i: &'a [u8], n: usize) -> (r: Result<(&'a [u8], Vec<T>), ParseError>)
    ensures
        agrees(r, spec_count(le_reader::<T>(), i@, n)),
{
    let reader = LeReader::<T> { marker: core::marker::PhantomData };
    let r = count(&reader, i, n);
    if let Ok((_, v)) = &r {
        assert(models::<LeReader<T>>(v@) =~= v@);
    }
    r
}

/// A repetition of a little-endian item type takes the width of an item per
/// item, keeps a decided answer when input is appended, and depends only on
/// the bytes it takes.
pub proof fn lemma_le_count<T: LeItem>(s: Seq<u8>, s2: Seq<u8>, t: Seq<u8>, n: usize)
    ensures
        spec_count(le_reader::<T>(), s, n) matches Ok((r, vs)) ==> r.len() + n * T::width() == s.len() && vs.len() == n,
        s.len() + t.len() <= usize::MAX ==> stable(spec_count(le_reader::<T>(), s, n), spec_count(le_reader::<T>(), s + t, n), t),
        shrinks(spec_count(le_reader::<T>(), s, n), s),
        local(spec_count(le_reader::<T>(), s, n), s, spec_count(le_reader::<T>(), s2, n), s2),
{
    let p = le_reader::<T>();
    assert forall|x: Seq<u8>, y: Seq<u8>| local(#[trigger] p(x), x, #[trigger] p(y), y) by {
        T::lemma_read(x, y, Seq::empty());
    }
    assert forall|x: Seq<u8>| (#[trigger] p(x)) matches Ok((r, _)) ==> r.len() + T::width() == x.len() by {
        T::lemma_read(x, x, Seq::empty());
    }
    lemma_count_width(p, s, n as nat, T::width());
    if s.len() + t.len() <= usize::MAX {
        assert forall|x: Seq<u8>| x.len() <= s.len() implies stable(#[trigger] p(x), p(x + t), t) && shrinks(p(x), x) by {
            T::lemma_read(x, x, t);
        }
        lemma_stable_count(p, s, t, n);
    }
    lemma_local_count(p, s, s2, n);
}

/// Item `k` of a repetition of a little-endian item type is the item read
/// at byte `k` times the width of an item; the repetition ends right after
/// its last item, and it succeeds exactly when the input holds all of them.
pub proof fn lemma_le_count_positions<T: LeItem>(s: Seq<u8>, n: usize)
    ensures
        spec_count(le_reader::<T>(), s, n) matches Ok((r, vs)) ==> {
            &&& r == s.skip(n * T::width())
            &&& vs.len() == n
            &&& forall|k: int| 0 <= k < n ==> T::spec_read(s.skip(k * T::width()))
                == Ok::<(Seq<u8>, T), ParseError>((s.skip((k + 1) * T::width()), #[trigger] vs[k]))
        },
        spec_count(le_reader::<T>(), s, n) is Ok <==> s.len() >= n * T::width(),
{
    let p = le_reader::<T>();
    assert forall|x: Seq<u8>| (#[trigger] p(x)) matches Ok((r, _)) ==> x.len() >= T::width() && r == x.skip(T::width() as int) by {
        T::lemma_read(x, x, Seq::empty());
    }
    assert forall|x: Seq<u8>| x.len() >= T::width() implies (#[trigger] p(x)) is Ok by {
        T::lemma_read(x, x, Seq::empty());
    }
    lemma_count_positions(p, s, n as nat, T::width());
}

/// A repetition that succeeds holds exactly as many items as it was asked
/// for.
pub proof fn lemma_count_len<T>(p: spec_fn(Seq<u8>) -> SpecRes<T>, s: Seq<u8>, n: nat)
    ensures
        count_items(p, s, n) matches Ok((_, vs)) ==> vs.len() == n,
    decreases n,
{
    if n > 0 {
        if let Ok((r, v)) = p(s) {
            lemma_count_len(p, r, (n - 1) as nat);
        }
    }
}

// ---------------------------------------------------------------------------
// Laws of the building blocks.
// ---------------------------------------------------------------------------

pub proof fn lemma_skip_append(s: Seq<u8>, t: Seq<u8>, n: int)
    requires
        0 <= n <= s.len(),
    ensures
        #[trigger] (s + t).skip(n) == s.skip(n) + t,
        (s + t).take(n) == s.take(n),
{
    assert((s + t).skip(n) =~= s.skip(n) + t);
    assert((s + t).take(n) =~= s.take(n));
}

pub proof fn lemma_le_prefix(s: Seq<u8>, t: Seq<u8>)
    ensures
        s.len() >= 2 ==> le2(s + t) == le2(s),
        s.len() >= 4 ==> le4(s + t) == le4(s),
        s.len() >= 8 ==> le8(s + t) == le8(s),
{
    if s.len() >= 4 {
        lemma_skip_append(s, t, 2);
    }
    if s.len() >= 8 {
        lemma_skip_append(s, t, 4);
        lemma_skip_append(s.skip(4), t, 2);
    }
}

pub broadcast proof fn lemma_stable_le(s: Seq<u8>, t: Seq<u8>)
    requires
        s.len() + t.len() <= usize::MAX,
    ensures
        #![trigger spec_le_u8(s + t)]
        #![trigger spec_le_u16(s + t)]
        #![trigger spec_le_u32(s + t)]
        #![trigger spec_le_u64(s + t)]
        #![trigger spec_le_i8(s + t)]
        #![trigger spec_le_i16(s + t)]
        #![trigger spec_le_i32(s + t)]
        #![trigger spec_le_i64(s + t)]
        stable(spec_le_u8(s), spec_le_u8(s + t), t),
        stable(spec_le_u16(s), spec_le_u16(s + t), t),
        stable(spec_le_u32(s), spec_le_u32(s + t), t),
        stable(spec_le_u64(s), spec_le_u64(s + t), t),
        stable(spec_le_i8(s), spec_le_i8(s + t), t),
        stable(spec_le_i16(s), spec_le_i16(s + t), t),
        stable(spec_le_i32(s), spec_le_i32(s + t), t),
        stable(spec_le_i64(s), spec_le_i64(s + t), t),
{
    lemma_le_prefix(s, t);
    if s.len() >= 1 {
        lemma_skip_append(s, t, 1);
    }
    if s.len() >= 2 {
        lemma_skip_append(s, t, 2);
    }
    if s.len() >= 4 {
        lemma_skip_append(s, t, 4);
    }
    if s.len() >= 8 {
        lemma_skip_append(s, t, 8);
    }
}

pub broadcast proof fn lemma_stable_tag(s: Seq<u8>, t: Seq<u8>, tg: Seq<u8>)
    requires
        s.len() + t.len() <= usize::MAX,
    ensures
        #[trigger] stable(spec_tag(s, tg), spec_tag(s + t, tg), t),
{
    if s.len() >= tg.len() {
        lemma_skip_append(s, t, tg.len() as int);
    } else if s != tg.take(s.len() as int) {
        assert(!(s =~= tg.take(s.len() as int)));
        let k = choose|k: int| 0 <= k < s.len() && s[k] != tg.take(s.len() as int)[k];
        if (s + t).len() >= tg.len() {
            assert((s + t).take(tg.len() as int)[k] != tg[k]);
        } else {
            assert(tg.take((s + t).len() as int)[k] != (s + t)[k]);
        }
    }
}

pub broadcast proof fn lemma_shrinks_primitives(s: Seq<u8>, tg: Seq<u8>, n: usize)
    ensures
        #![trigger spec_tag(s, tg), spec_take_str(s, n)]
        shrinks(spec_tag(s, tg), s),
        shrinks(spec_take_str(s, n), s),
{
}

pub broadcast proof fn lemma_shrinks_le(s: Seq<u8>)
    ensures
        #![trigger spec_le_u8(s)]
        #![trigger spec_le_u16(s)]
        #![trigger spec_le_u32(s)]
        #![trigger spec_le_u64(s)]
        #![trigger spec_le_i8(s)]
        #![trigger spec_le_i16(s)]
        #![trigger spec_le_i32(s)]
        #![trigger spec_le_i64(s)]
        shrinks(spec_le_u8(s), s),
        shrinks(spec_le_u16(s), s),
        shrinks(spec_le_u32(s), s),
        shrinks(spec_le_u64(s), s),
        shrinks(spec_le_i8(s), s),
        shrinks(spec_le_i16(s), s),
        shrinks(spec_le_i32(s), s),
        shrinks(spec_le_i64(s), s),
{
}

pub broadcast proof fn lemma_stable_take_str(s: Seq<u8>, t: Seq<u8>, n: usize)
    requires
        s.len() + t.len() <= usize::MAX,
    ensures
        #[trigger] stable(spec_take_str(s, n), spec_take_str(s + t, n), t),
{
    if s.len() >= n {
        lemma_skip_append(s, t, n as int);
    }
}

/// A repetition of a parser that keeps decided answers keeps them too.
pub proof fn lemma_stable_count_items<T>(p: spec_fn(Seq<u8>) -> SpecRes<T>, s: Seq<u8>, t: Seq<u8>, n: nat)
    requires
        s.len() + t.len() <= usize::MAX,
        forall|x: Seq<u8>| x.len() <= s.len() ==> stable(#[trigger] p(x), p(x + t), t) && shrinks(p(x), x),
    ensures
        stable(count_items(p, s, n), count_items(p, s + t, n), t),
        shrinks(count_items(p, s, n), s),
    decreases n,
{
    if n > 0 {
        assert(stable(p(s), p(s + t), t) && shrinks(p(s), s));
        if let Ok((r, v)) = p(s) {
            lemma_stable_count_items(p, r, t, (n - 1) as nat);
        }
    }
}

pub proof fn lemma_stable_count<T>(p: spec_fn(Seq<u8>) -> SpecRes<T>, s: Seq<u8>, t: Seq<u8>, n: usize)
    requires
        s.len() + t.len() <= usize::MAX,
        forall|x: Seq<u8>| x.len() <= s.len() ==> stable(#[trigger] p(x), p(x + t), t) && shrinks(p(x), x),
    ensures
        stable(spec_count(p, s, n), spec_count(p, s + t, n), t),
        shrinks(spec_count(p, s, n), s),
{
    lemma_stable_count_items(p, s, t, n as nat);
}

pub broadcast proof fn lemma_local_le(s: Seq<u8>, s2: Seq<u8>)
    ensures
        #![trigger spec_le_u8(s), spec_le_u8(s2)]
        #![trigger spec_le_u16(s), spec_le_u16(s2)]
        #![trigger spec_le_u32(s), spec_le_u32(s2)]
        #![trigger spec_le_u64(s), spec_le_u64(s2)]
        #![trigger spec_le_i8(s), spec_le_i8(s2)]
        #![trigger spec_le_i16(s), spec_le_i16(s2)]
        #![trigger spec_le_i32(s), spec_le_i32(s2)]
        #![trigger spec_le_i64(s), spec_le_i64(s2)]
        local(spec_le_u8(s), s, spec_le_u8(s2), s2),
        local(spec_le_u16(s), s, spec_le_u16(s2), s2),
        local(spec_le_u32(s), s, spec_le_u32(s2), s2),
        local(spec_le_u64(s), s, spec_le_u64(s2), s2),
        local(spec_le_i8(s), s, spec_le_i8(s2), s2),
        local(spec_le_i16(s), s, spec_le_i16(s2), s2),
        local(spec_le_i32(s), s, spec_le_i32(s2), s2),
        local(spec_le_i64(s), s, spec_le_i64(s2), s2),
{
    if s.len() >= 8 && agree_on(s, s2, 8) {
        assert(s2.skip(2)[0] == s.skip(2)[0] && s2.skip(2)[1] == s.skip(2)[1]);
        assert(s2.skip(4).skip(2)[0] == s.skip(4).skip(2)[0] && s2.skip(4).skip(2)[1] == s.skip(4).skip(2)[1]);
        assert(s2.skip(4)[0] == s.skip(4)[0] && s2.skip(4)[1] == s.skip(4)[1]);
    }
    if s.len() >= 4 && agree_on(s, s2, 4) {
        assert(s2.skip(2)[0] == s.skip(2)[0] && s2.skip(2)[1] == s.skip(2)[1]);
    }
}

pub broadcast proof fn lemma_local_tag(s: Seq<u8>, s2: Seq<u8>, tg: Seq<u8>)
    ensures
        #[trigger] local(spec_tag(s, tg), s, spec_tag(s2, tg), s2),
{
    if s.len() >= tg.len() && agree_on(s, s2, tg.len() as int) {
        assert(s2.take(tg.len() as int) =~= s.take(tg.len() as int));
    }
}

pub broadcast proof fn lemma_local_take_str(s: Seq<u8>, s2: Seq<u8>, n: usize)
    ensures
        #[trigger] local(spec_take_str(s, n), s, spec_take_str(s2, n), s2),
{
    if s.len() >= n && agree_on(s, s2, n as int) {
        assert(s2.take(n as int) =~= s.take(n as int));
    }
}

/// A repetition of a reader whose successes depend only on what they consume
/// has the same property.
pub proof fn lemma_local_count_items<T>(p: spec_fn(Seq<u8>) -> SpecRes<T>, s: Seq<u8>, s2: Seq<u8>, n: nat)
    requires
        forall|x: Seq<u8>, y: Seq<u8>| local(#[trigger] p(x), x, #[trigger] p(y), y),
    ensures
        local(count_items(p, s, n), s, count_items(p, s2, n), s2),
    decreases n,
{
    broadcast use vstd::seq_lib::lemma_seq_skip_of_skip;
    if n == 0 {
        assert(s.skip(0) =~= s);
        assert(s2.skip(0) =~= s2);
    } else {
        if let Ok((r, v)) = p(s) {
            let n1 = s.len() - r.len();
            assert(local(p(s), s, p(s2), s2));
            lemma_local_count_items(p, r, s2.skip(n1), (n - 1) as nat);
            if let Ok((rest, vs)) = count_items(p, r, (n - 1) as nat) {
                let m = r.len() - rest.len();
                assert(rest == s.skip(n1 + m));
                if agree_on(s, s2, n1 + m) {
                    assert(agree_on(s, s2, n1));
                    assert(agree_on(r, s2.skip(n1), m));
                    assert(s2.skip(n1).skip(m) == s2.skip(n1 + m));
                }
            }
        }
    }
}

pub proof fn lemma_local_count<T>(p: spec_fn(Seq<u8>) -> SpecRes<T>, s: Seq<u8>, s2: Seq<u8>, n: usize)
    requires
        forall|x: Seq<u8>, y: Seq<u8>| local(#[trigger] p(x), x, #[trigger] p(y), y),
    ensures
        local(spec_count(p, s, n), s, spec_count(p, s2, n), s2),
{
    lemma_local_count_items(p, s, s2, n as nat);
}

/// A repetition of a reader that always takes `w` bytes takes `n * w`
/// bytes and gives `n` items.
pub proof fn lemma_count_width<T>(p: spec_fn(Seq<u8>) -> SpecRes<T>, s: Seq<u8>, n: nat, w: nat)
    requires
        forall|x: Seq<u8>| (#[trigger] p(x)) matches Ok((r, _)) ==> r.len() + w == x.len(),
    ensures
        count_items(p, s, n) matches Ok((r, vs)) ==> r.len() + n * w == s.len() && vs.len() == n,
    decreases n,
{
    if n > 0 {
        if let Ok((r, v)) = p(s) {
            lemma_count_width(p, r, (n - 1) as nat, w);
            assert((n - 1) * w + w == n * w) by (nonlinear_arith);
        }
    }
}

/// Item `k` of a repetition of a reader that always takes `w` bytes is what
/// that reader gives at byte `k * w` of the input, and the repetition ends at
/// byte `n * w`; it succeeds whenever the input holds `n * w` bytes and the
/// reader succeeds on any `w` bytes.
pub proof fn lemma_count_positions<T>(p: spec_fn(Seq<u8>) -> SpecRes<T>, s: Seq<u8>, n: nat, w: nat)
    requires
        forall|x: Seq<u8>| (#[trigger] p(x)) matches Ok((r, _)) ==> x.len() >= w && r == x.skip(w as int),
        forall|x: Seq<u8>| x.len() >= w ==> (#[trigger] p(x)) is Ok,
    ensures
        count_items(p, s, n) matches Ok((r, vs)) ==> {
            &&& s.len() >= n * w
            &&& r == s.skip((n * w) as int)
            &&& vs.len() == n
            &&& forall|k: int| 0 <= k < n ==> p(s.skip(k * w)) == Ok::<(Seq<u8>, T), ParseError>((s.skip((k + 1) * w), #[trigger] vs[k]))
        },
        s.len() >= n * w ==> count_items(p, s, n) is Ok,
    decreases n,
{
    if n == 0 {
        assert(0 * w == 0);
        assert(s.skip(0) =~= s);
    } else {
        assert(n * w == w + (n - 1) * w && (n - 1) * w >= 0) by (nonlinear_arith)
            requires
                n > 0,
        ;
        if let Ok((r1, v)) = p(s) {
            lemma_count_positions(p, r1, (n - 1) as nat, w);
            if let Ok((r, ws)) = count_items(p, r1, (n - 1) as nat) {
                let vs = seq![v] + ws;
                assert(r =~= s.skip((n * w) as int));
                assert forall|k: int| 0 <= k < n implies p(s.skip(k * w)) == Ok::<(Seq<u8>, T), ParseError>((s.skip((k + 1) * w), #[trigger] vs[k])) by {
                    if k == 0 {
                        assert(0 * w == 0 && (0 + 1) * w == w);
                        assert(s.skip(0) =~= s);
                        assert(vs[0] == v);
                    } else {
                        assert(k * w == w + (k - 1) * w && (k - 1) * w >= 0 && (k + 1) * w <= n * w
                            && (k + 1) * w == w + k * w) by (nonlinear_arith)
                            requires
                                0 < k < n,
                        ;
                        assert(r1.skip((k - 1) * w) =~= s.skip(k * w));
                        assert(r1.skip(k * w) =~= s.skip((k + 1) * w));
                        assert(vs[k] == ws[k - 1]);
                    }
                }
                assert(count_items(p, s, n) == Ok::<(Seq<u8>, Seq<T>), ParseError>((r, vs)));
            }
        }
    }
}

/// `items` are read by `p` one after the other from `s`: the first from
/// byte `start`, each next one from the byte right after the one before it,
/// and the last one ends at byte `end`.
pub open spec fn items_in_order<T>(p: spec_fn(Seq<u8>) -> SpecRes<T>, s: Seq<u8>, start: int, items: Seq<T>, end: int) -> bool
    decreases items.len(),
{
    if items.len() == 0 {
        start == end
    } else {
        &&& 0 <= start <= s.len()
        &&& match p(s.skip(start)) {
            Ok((r, v)) => v == items[0] && items_in_order(p, s, s.len() - r.len(), items.drop_first(), end),
            Err(_) => false,
        }
    }
}

/// A repetition, run from byte `start` of `s`, reads its items in the order
/// of the input, when each success of the reader leaves what follows the
/// bytes it takes.
pub proof fn lemma_count_in_order<T>(p: spec_fn(Seq<u8>) -> SpecRes<T>, s: Seq<u8>, start: int, n: nat)
    requires
        0 <= start <= s.len(),
        forall|x: Seq<u8>| local(#[trigger] p(x), x, p(x), x),
    ensures
        count_items(p, s.skip(start), n) matches Ok((r, items))
            ==> items_in_order(p, s, start, items, s.len() - r.len()),
    decreases n,
{
    broadcast use vstd::seq_lib::lemma_seq_skip_of_skip;
    let x = s.skip(start);
    if n > 0 {
        assert(local(p(x), x, p(x), x));
        if let Ok((r1, v)) = p(x) {
            let m = x.len() - r1.len();
            assert(r1 == s.skip(start + m));
            lemma_count_in_order(p, s, start + m, (n - 1) as nat);
            if let Ok((r, ws)) = count_items(p, r1, (n - 1) as nat) {
                let items = seq![v] + ws;
                assert(items.drop_first() =~= ws);
                assert(items[0] == v);
                assert(count_items(p, x, n) == Ok::<(Seq<u8>, Seq<T>), ParseError>((r, items)));
            }
        }
    }
}

/// Every item of a repetition has the properties that every item of its
/// reader has.
pub proof fn lemma_count_values<T>(p: spec_fn(Seq<u8>) -> SpecRes<T>, s: Seq<u8>, n: nat, good: spec_fn(T) -> bool)
    requires
        forall|x: Seq<u8>| (#[trigger] p(x)) matches Ok((_, v)) ==> good(v),
    ensures
        count_items(p, s, n) matches Ok((_, vs)) ==> forall|k: int| 0 <= k < vs.len() ==> good(#[trigger] vs[k]),
    decreases n,
{
    if n > 0 {
        if let Ok((r, v)) = p(s) {
            lemma_count_values(p, r, (n - 1) as nat, good);
            if let Ok((_, ws)) = count_items(p, r, (n - 1) as nat) {
                assert forall|k: int| 0 <= k < ws.len() + 1 implies good(#[trigger] (seq![v] + ws)[k]) by {
                    if k > 0 {
                        assert((seq![v] + ws)[k] == ws[k - 1]);
                    }
                }
            }
        }
    }
}

} // verus!
