//! The structured-points block: metadata lines and the binary payload.
//!
//! After the `DATASET STRUCTURED_POINTS` line the stream must hold, in this
//! exact order, the lines `DIMENSIONS`, `ORIGIN`, `SPACING` (or its legacy
//! alias `ASPECT_RATIO`), `POINT_DATA`, `SCALARS` and `LOOKUP_TABLE`,
//! followed by the raw payload: one byte per sample, read to the end of the
//! stream.  [`spec_parse`] is the reference model of the whole block;
//! [`parse`] is proved to agree with it.
//!
//! Two consistency rules are enforced beyond line structure.  The declared
//! point count must equal the product of the three dimensions, so a decoded
//! volume always carries a consistent geometry; and the payload must hold
//! exactly the declared number of bytes — a short or long payload is a hard
//! failure, never clamped or padded.  Component counts above one are parsed
//! and kept but the payload is never reinterpreted by them; samples are
//! single bytes.

use vstd::prelude::*;

use crate::error::{HeaderField, Unsupported, VTKparseError};
use crate::text::{
    bytes_eq, copy_range, find_line_end, is_real_token, is_uint_token, line_end, parse_u32,
    parse_u8_value, parse_usize, range_starts_with, starts_with, subvec, tokenize, tokens_of,
    uint_value,
};

verus! {

/// The keyword opening the `DIMENSIONS` line, trailing space included.
pub open spec fn dims_kw() -> Seq<u8> {
    seq![68u8, 73, 77, 69, 78, 83, 73, 79, 78, 83, 32]
}

fn dims_kw_vec() -> (r: Vec<u8>)
    ensures
        r@ == dims_kw(),
{
    let v: Vec<u8> = vec![68u8, 73, 77, 69, 78, 83, 73, 79, 78, 83, 32];
    proof {
        assert(v@ =~= dims_kw());
    }
    v
}

/// The keyword opening the `ORIGIN` line, trailing space included.
pub open spec fn origin_kw() -> Seq<u8> {
    seq![79u8, 82, 73, 71, 73, 78, 32]
}

fn origin_kw_vec() -> (r: Vec<u8>)
    ensures
        r@ == origin_kw(),
{
    let v: Vec<u8> = vec![79u8, 82, 73, 71, 73, 78, 32];
    proof {
        assert(v@ =~= origin_kw());
    }
    v
}

/// The keyword opening the `SPACING` line, trailing space included.
pub open spec fn spacing_kw() -> Seq<u8> {
    seq![83u8, 80, 65, 67, 73, 78, 71, 32]
}

fn spacing_kw_vec() -> (r: Vec<u8>)
    ensures
        r@ == spacing_kw(),
{
    let v: Vec<u8> = vec![83u8, 80, 65, 67, 73, 78, 71, 32];
    proof {
        assert(v@ =~= spacing_kw());
    }
    v
}

/// The legacy alias for the spacing line, trailing space included.
pub open spec fn aspect_ratio_kw() -> Seq<u8> {
    seq![65u8, 83, 80, 69, 67, 84, 95, 82, 65, 84, 73, 79, 32]
}

fn aspect_ratio_kw_vec() -> (r: Vec<u8>)
    ensures
        r@ == aspect_ratio_kw(),
{
    let v: Vec<u8> = vec![65u8, 83, 80, 69, 67, 84, 95, 82, 65, 84, 73, 79, 32];
    proof {
        assert(v@ =~= aspect_ratio_kw());
    }
    v
}

/// The keyword opening the `POINT_DATA` line, trailing space included.
pub open spec fn point_data_kw() -> Seq<u8> {
    seq![80u8, 79, 73, 78, 84, 95, 68, 65, 84, 65, 32]
}

fn point_data_kw_vec() -> (r: Vec<u8>)
    ensures
        r@ == point_data_kw(),
{
    let v: Vec<u8> = vec![80u8, 79, 73, 78, 84, 95, 68, 65, 84, 65, 32];
    proof {
        assert(v@ =~= point_data_kw());
    }
    v
}

/// The keyword opening the `SCALARS` line, trailing space included.
pub open spec fn scalars_kw() -> Seq<u8> {
    seq![83u8, 67, 65, 76, 65, 82, 83, 32]
}

fn scalars_kw_vec() -> (r: Vec<u8>)
    ensures
        r@ == scalars_kw(),
{
    let v: Vec<u8> = vec![83u8, 67, 65, 76, 65, 82, 83, 32];
    proof {
        assert(v@ =~= scalars_kw());
    }
    v
}

/// The keyword opening the `LOOKUP_TABLE` line.  No trailing space: a bare
/// `LOOKUP_TABLE` line is accepted and falls back to the default table.
pub open spec fn lookup_table_kw() -> Seq<u8> {
    seq![76u8, 79, 79, 75, 85, 80, 95, 84, 65, 66, 76, 69]
}

fn lookup_table_kw_vec() -> (r: Vec<u8>)
    ensures
        r@ == lookup_table_kw(),
{
    let v: Vec<u8> = vec![76u8, 79, 79, 75, 85, 80, 95, 84, 65, 66, 76, 69];
    proof {
        assert(v@ =~= lookup_table_kw());
    }
    v
}

/// The one scalar type this decoder supports: `unsigned_char`.
pub open spec fn unsigned_char_name() -> Seq<u8> {
    seq![117u8, 110, 115, 105, 103, 110, 101, 100, 95, 99, 104, 97, 114]
}

fn unsigned_char_name_vec() -> (r: Vec<u8>)
    ensures
        r@ == unsigned_char_name(),
{
    let v: Vec<u8> = vec![117u8, 110, 115, 105, 103, 110, 101, 100, 95, 99, 104, 97, 114];
    proof {
        assert(v@ =~= unsigned_char_name());
    }
    v
}

/// The lookup-table name used when the line names none: `default`.
pub open spec fn default_table_name() -> Seq<u8> {
    seq![100u8, 101, 102, 97, 117, 108, 116]
}

fn default_table_name_vec() -> (r: Vec<u8>)
    ensures
        r@ == default_table_name(),
{
    let v: Vec<u8> = vec![100u8, 101, 102, 97, 117, 108, 116];
    proof {
        assert(v@ =~= default_table_name());
    }
    v
}

/// A decoded structured-points volume: a dense 3D grid of single-byte
/// scalar samples with its world-space geometry.
///
/// The origin and spacing components are kept as the validated numeric
/// tokens read from the file, so nothing is lost to rounding; each is
/// guaranteed to be a token the standard real-number parser accepts.
#[derive(Debug)]
pub struct StructuredPoints {
    /// Grid extent along each axis; each at least one.
    pub dims: (u32, u32, u32),
    /// World-space offset of the first sample, one token per axis.
    pub origin: (Vec<u8>, Vec<u8>, Vec<u8>),
    /// World-space pitch between samples, one token per axis.
    pub spacing: (Vec<u8>, Vec<u8>, Vec<u8>),
    /// The samples, x varying fastest, exactly one byte each.
    pub data: Vec<u8>,
    /// The declared scalar type; always `unsigned_char` here.
    pub datatype: Vec<u8>,
    /// The declared name of the scalar field.
    pub dataname: Vec<u8>,
    /// The declared per-sample component count; the payload is not
    /// reinterpreted by it.
    pub numcomp: u8,
    /// The declared lookup-table name, `default` when none is given.
    pub tablename: Vec<u8>,
}

/// The mathematical image of a decoded volume.
pub ghost struct SpointsView {
    pub dims: (u32, u32, u32),
    pub origin: (Seq<u8>, Seq<u8>, Seq<u8>),
    pub spacing: (Seq<u8>, Seq<u8>, Seq<u8>),
    pub data: Seq<u8>,
    pub datatype: Seq<u8>,
    pub dataname: Seq<u8>,
    pub numcomp: u8,
    pub tablename: Seq<u8>,
}

impl View for StructuredPoints {
    type V = SpointsView;

    open spec fn view(&self) -> SpointsView {
        SpointsView {
            dims: self.dims,
            origin: (self.origin.0@, self.origin.1@, self.origin.2@),
            spacing: (self.spacing.0@, self.spacing.1@, self.spacing.2@),
            data: self.data@,
            datatype: self.datatype@,
            dataname: self.dataname@,
            numcomp: self.numcomp,
            tablename: self.tablename@,
        }
    }
}

impl SpointsView {
    /// What every decoded volume satisfies: positive dimensions, a payload
    /// of exactly one byte per grid point, valid geometry tokens, and the
    /// one supported scalar type.
    pub open spec fn wf(self) -> bool {
        &&& self.dims.0 >= 1
        &&& self.dims.1 >= 1
        &&& self.dims.2 >= 1
        &&& self.data.len() == self.dims.0 as int * self.dims.1 as int * self.dims.2 as int
        &&& is_real_token(self.origin.0)
        &&& is_real_token(self.origin.1)
        &&& is_real_token(self.origin.2)
        &&& is_real_token(self.spacing.0)
        &&& is_real_token(self.spacing.1)
        &&& is_real_token(self.spacing.2)
        &&& self.datatype == unsigned_char_name()
    }
}

/// A token holding an unsigned value that fits the given bound.
pub open spec fn fits_uint(t: Seq<u8>, bound: int) -> bool {
    is_uint_token(t) && uint_value(t) <= bound
}

/// What the `DIMENSIONS` line declares: three grid extents after the
/// keyword token; further tokens are ignored.
pub open spec fn spec_get_dimensions(line: Seq<u8>) -> Result<(u32, u32, u32), VTKparseError> {
    let ts = tokenize(line);
    if ts.len() < 4 {
        Err(VTKparseError::MalformedFormat(HeaderField::Dimensions))
    } else if !(fits_uint(ts[1], u32::MAX as int) && fits_uint(ts[2], u32::MAX as int)
        && fits_uint(ts[3], u32::MAX as int)) {
        Err(VTKparseError::MalformedFormat(HeaderField::Dimensions))
    } else {
        Ok((uint_value(ts[1]) as u32, uint_value(ts[2]) as u32, uint_value(ts[3]) as u32))
    }
}

/// What an `ORIGIN` or `SPACING` line declares: three real-number tokens
/// after the keyword token; further tokens are ignored.
pub open spec fn spec_get_triple(line: Seq<u8>, field: HeaderField) -> Result<
    (Seq<u8>, Seq<u8>, Seq<u8>),
    VTKparseError,
> {
    let ts = tokenize(line);
    if ts.len() < 4 {
        Err(VTKparseError::MalformedFormat(field))
    } else if !(is_real_token(ts[1]) && is_real_token(ts[2]) && is_real_token(ts[3])) {
        Err(VTKparseError::MalformedFormat(field))
    } else {
        Ok((ts[1], ts[2], ts[3]))
    }
}

/// What the `POINT_DATA` line declares: its last token is the total point
/// count.
pub open spec fn spec_point_count(line: Seq<u8>) -> Result<usize, VTKparseError> {
    let ts = tokenize(line);
    if ts.len() == 0 {
        Err(VTKparseError::MalformedFormat(HeaderField::PointData))
    } else if !fits_uint(ts.last(), usize::MAX as int) {
        Err(VTKparseError::MalformedFormat(HeaderField::PointData))
    } else {
        Ok(uint_value(ts.last()) as usize)
    }
}

/// What the `SCALARS` line declares: field name, scalar type, and an
/// optional component count that defaults to one.
pub open spec fn spec_get_scalars(line: Seq<u8>) -> Result<(Seq<u8>, Seq<u8>, u8), VTKparseError> {
    let ts = tokenize(line);
    if ts.len() < 2 {
        Err(VTKparseError::MalformedFormat(HeaderField::ScalarName))
    } else if ts.len() < 3 {
        Err(VTKparseError::MalformedFormat(HeaderField::ScalarType))
    } else if ts.len() >= 4 && !fits_uint(ts[3], u8::MAX as int) {
        Err(VTKparseError::MalformedFormat(HeaderField::ScalarComponents))
    } else {
        Ok((ts[1], ts[2], if ts.len() >= 4 { uint_value(ts[3]) as u8 } else { 1u8 }))
    }
}

/// What the `LOOKUP_TABLE` line declares: the token after the keyword, or
/// `default` when there is none.
pub open spec fn spec_get_lookup(line: Seq<u8>) -> Seq<u8> {
    let ts = tokenize(line);
    if ts.len() >= 2 {
        ts[1]
    } else {
        default_table_name()
    }
}

/// The reference model of the whole structured-points block: what `parse`
/// returns for every stream and encoding mode.
pub open spec fn spec_parse(s: Seq<u8>, binary: bool) -> Result<SpointsView, VTKparseError> {
    let e1 = line_end(s, 0);
    let l1 = s.subrange(0, e1);
    let e2 = line_end(s, e1);
    let l2 = s.subrange(e1, e2);
    let e3 = line_end(s, e2);
    let l3 = s.subrange(e2, e3);
    let e4 = line_end(s, e3);
    let l4 = s.subrange(e3, e4);
    let e5 = line_end(s, e4);
    let l5 = s.subrange(e4, e5);
    let e6 = line_end(s, e5);
    let l6 = s.subrange(e5, e6);
    let payload = s.skip(e6);
    if !starts_with(l1, dims_kw()) {
        Err(VTKparseError::MalformedFormat(HeaderField::Dimensions))
    } else {
        match spec_get_dimensions(l1) {
            Err(e) => Err(e),
            Ok(dims) => if dims.0 == 0 || dims.1 == 0 || dims.2 == 0 {
                Err(VTKparseError::MalformedFormat(HeaderField::Dimensions))
            } else if !starts_with(l2, origin_kw()) {
                Err(VTKparseError::MalformedFormat(HeaderField::Origin))
            } else {
                match spec_get_triple(l2, HeaderField::Origin) {
                    Err(e) => Err(e),
                    Ok(origin) => if !(starts_with(l3, spacing_kw()) || starts_with(
                        l3,
                        aspect_ratio_kw(),
                    )) {
                        Err(VTKparseError::MalformedFormat(HeaderField::Spacing))
                    } else {
                        match spec_get_triple(l3, HeaderField::Spacing) {
                            Err(e) => Err(e),
                            Ok(spacing) => if !starts_with(l4, point_data_kw()) {
                                Err(VTKparseError::MalformedFormat(HeaderField::PointData))
                            } else {
                                match spec_point_count(l4) {
                                    Err(e) => Err(e),
                                    Ok(n) => spec_parse_tail(
                                        l5,
                                        l6,
                                        payload,
                                        binary,
                                        dims,
                                        origin,
                                        spacing,
                                        n,
                                    ),
                                }
                            },
                        }
                    },
                }
            },
        }
    }
}

/// The model of the block from the `SCALARS` line on, once the geometry
/// lines have been accepted.
pub open spec fn spec_parse_tail(
    l5: Seq<u8>,
    l6: Seq<u8>,
    payload: Seq<u8>,
    binary: bool,
    dims: (u32, u32, u32),
    origin: (Seq<u8>, Seq<u8>, Seq<u8>),
    spacing: (Seq<u8>, Seq<u8>, Seq<u8>),
    n: usize,
) -> Result<SpointsView, VTKparseError> {
    if n != dims.0 as int * dims.1 as int * dims.2 as int {
        Err(
            VTKparseError::InconsistentDimensions {
                declared: n,
                nx: dims.0,
                ny: dims.1,
                nz: dims.2,
            },
        )
    } else if !starts_with(l5, scalars_kw()) {
        Err(VTKparseError::MalformedFormat(HeaderField::Scalars))
    } else {
        match spec_get_scalars(l5) {
            Err(e) => Err(e),
            Ok(sc) => if !starts_with(l6, lookup_table_kw()) {
                Err(VTKparseError::MalformedFormat(HeaderField::LookupTable))
            } else if sc.1 != unsigned_char_name() {
                Err(VTKparseError::NotImplemented(Unsupported::ScalarKind))
            } else if !binary {
                Err(VTKparseError::NotImplemented(Unsupported::AsciiPayload))
            } else if payload.len() != n {
                Err(
                    VTKparseError::InconsistentPayloadLength {
                        expected: n,
                        actual: payload.len() as usize,
                    },
                )
            } else {
                Ok(
                    SpointsView {
                        dims,
                        origin,
                        spacing,
                        data: payload,
                        datatype: sc.1,
                        dataname: sc.0,
                        numcomp: sc.2,
                        tablename: spec_get_lookup(l6),
                    },
                )
            },
        }
    }
}

/// Reads the three grid extents off a `DIMENSIONS` line.
pub fn get_dimensions(line: &[u8]) -> (r: Result<(u32, u32, u32), VTKparseError>)
    ensures
        r == spec_get_dimensions(line@),
{
    let ts = tokens_of(line, 0, line.len());
    proof {
        assert(line@.subrange(0, line@.len() as int) =~= line@);
    }
    if ts.len() < 4 {
        return Err(VTKparseError::MalformedFormat(HeaderField::Dimensions));
    }
    proof {
        assert(ts@[1].deep_view() =~= ts@[1]@);
        assert(ts@[2].deep_view() =~= ts@[2]@);
        assert(ts@[3].deep_view() =~= ts@[3]@);
    }
    let a = parse_u32(&ts[1]);
    let b = parse_u32(&ts[2]);
    let c = parse_u32(&ts[3]);
    match (a, b, c) {
        (Some(x), Some(y), Some(z)) => Ok((x, y, z)),
        _ => Err(VTKparseError::MalformedFormat(HeaderField::Dimensions)),
    }
}

/// Reads three real-number tokens off a geometry line, blaming `field`
/// when the line does not hold them.
fn triple_reals(line: &[u8], field: HeaderField) -> (r: Result<
    (Vec<u8>, Vec<u8>, Vec<u8>),
    VTKparseError,
>)
    ensures
        match r {
            Ok(t) => spec_get_triple(line@, field) == Ok::<_, VTKparseError>((t.0@, t.1@, t.2@)),
            Err(e) => spec_get_triple(line@, field) == Err::<(Seq<u8>, Seq<u8>, Seq<u8>), _>(e),
        },
{
    let ts = tokens_of(line, 0, line.len());
    proof {
        assert(line@.subrange(0, line@.len() as int) =~= line@);
    }
    if ts.len() < 4 {
        return Err(VTKparseError::MalformedFormat(field));
    }
    proof {
        assert(ts@[1].deep_view() =~= ts@[1]@);
        assert(ts@[2].deep_view() =~= ts@[2]@);
        assert(ts@[3].deep_view() =~= ts@[3]@);
    }
    let ok1 = crate::text::check_real_token(&ts[1]);
    let ok2 = crate::text::check_real_token(&ts[2]);
    let ok3 = crate::text::check_real_token(&ts[3]);
    if !(ok1 && ok2 && ok3) {
        return Err(VTKparseError::MalformedFormat(field));
    }
    let t0 = subvec(&ts[1], 0, ts[1].len());
    let t1 = subvec(&ts[2], 0, ts[2].len());
    let t2 = subvec(&ts[3], 0, ts[3].len());
    proof {
        assert(t0@ =~= ts@[1]@);
        assert(t1@ =~= ts@[2]@);
        assert(t2@ =~= ts@[3]@);
    }
    Ok((t0, t1, t2))
}

/// Reads the three origin components off an `ORIGIN` line.
pub fn get_origo(line: &[u8]) -> (r: Result<(Vec<u8>, Vec<u8>, Vec<u8>), VTKparseError>)
    ensures
        match r {
            Ok(t) => spec_get_triple(line@, HeaderField::Origin) == Ok::<_, VTKparseError>(
                (t.0@, t.1@, t.2@),
            ),
            Err(e) => spec_get_triple(line@, HeaderField::Origin) == Err::<
                (Seq<u8>, Seq<u8>, Seq<u8>),
                _,
            >(e),
        },
{
    triple_reals(line, HeaderField::Origin)
}

/// Reads the three spacing components off a `SPACING` or `ASPECT_RATIO`
/// line.
pub fn get_spacing(line: &[u8]) -> (r: Result<(Vec<u8>, Vec<u8>, Vec<u8>), VTKparseError>)
    ensures
        match r {
            Ok(t) => spec_get_triple(line@, HeaderField::Spacing) == Ok::<_, VTKparseError>(
                (t.0@, t.1@, t.2@),
            ),
            Err(e) => spec_get_triple(line@, HeaderField::Spacing) == Err::<
                (Seq<u8>, Seq<u8>, Seq<u8>),
                _,
            >(e),
        },
{
    triple_reals(line, HeaderField::Spacing)
}

/// Reads the declared point count off a `POINT_DATA` line.
fn point_count(line: &[u8]) -> (r: Result<usize, VTKparseError>)
    ensures
        r == spec_point_count(line@),
{
    let ts = tokens_of(line, 0, line.len());
    proof {
        assert(line@.subrange(0, line@.len() as int) =~= line@);
    }
    if ts.len() == 0 {
        return Err(VTKparseError::MalformedFormat(HeaderField::PointData));
    }
    let last = ts.len() - 1;
    proof {
        assert(ts@[last as int].deep_view() =~= ts@[last as int]@);
        assert(tokenize(line@).last() == tokenize(line@)[last as int]);
    }
    match parse_usize(&ts[last]) {
        Some(v) => Ok(v),
        None => Err(VTKparseError::MalformedFormat(HeaderField::PointData)),
    }
}

/// Reads field name, scalar type and component count off a `SCALARS`
/// line.
fn scalars_line(line: &[u8]) -> (r: Result<(Vec<u8>, Vec<u8>, u8), VTKparseError>)
    ensures
        match r {
            Ok(t) => spec_get_scalars(line@) == Ok::<_, VTKparseError>((t.0@, t.1@, t.2)),
            Err(e) => spec_get_scalars(line@) == Err::<(Seq<u8>, Seq<u8>, u8), _>(e),
        },
{
    let ts = tokens_of(line, 0, line.len());
    proof {
        assert(line@.subrange(0, line@.len() as int) =~= line@);
    }
    if ts.len() < 2 {
        return Err(VTKparseError::MalformedFormat(HeaderField::ScalarName));
    }
    if ts.len() < 3 {
        return Err(VTKparseError::MalformedFormat(HeaderField::ScalarType));
    }
    proof {
        assert(ts@[1].deep_view() =~= ts@[1]@);
        assert(ts@[2].deep_view() =~= ts@[2]@);
    }
    let numcomp: u8 = if ts.len() >= 4 {
        proof {
            assert(ts@[3].deep_view() =~= ts@[3]@);
        }
        match parse_u8_value(&ts[3]) {
            Some(v) => v,
            None => {
                return Err(VTKparseError::MalformedFormat(HeaderField::ScalarComponents));
            },
        }
    } else {
        1
    };
    let name = subvec(&ts[1], 0, ts[1].len());
    let ty = subvec(&ts[2], 0, ts[2].len());
    proof {
        assert(name@ =~= ts@[1]@);
        assert(ty@ =~= ts@[2]@);
    }
    Ok((name, ty, numcomp))
}

/// Reads the lookup-table name off a `LOOKUP_TABLE` line, falling back to
/// `default`.
fn lookup_line(line: &[u8]) -> (r: Vec<u8>)
    ensures
        r@ == spec_get_lookup(line@),
{
    let ts = tokens_of(line, 0, line.len());
    proof {
        assert(line@.subrange(0, line@.len() as int) =~= line@);
    }
    if ts.len() >= 2 {
        proof {
            assert(ts@[1].deep_view() =~= ts@[1]@);
        }
        let t = subvec(&ts[1], 0, ts[1].len());
        proof {
            assert(t@ =~= ts@[1]@);
        }
        t
    } else {
        default_table_name_vec()
    }
}

/// Decodes the structured-points block: the six metadata lines in their
/// required order, then the binary payload read to the end of the stream.
///
/// Returns the decoded volume exactly when the model [`spec_parse`] does,
/// and the model's failure otherwise; a returned volume is always
/// well formed.
pub fn parse(s: &[u8], binary: bool) -> (r: Result<StructuredPoints, VTKparseError>)
    ensures
        match r {
            Ok(sp) => spec_parse(s@, binary) == Ok::<SpointsView, VTKparseError>(sp@) && sp@.wf(),
            Err(e) => spec_parse(s@, binary) == Err::<SpointsView, VTKparseError>(e),
        },
{
    let e1 = find_line_end(s, 0);
    let kw_dims = dims_kw_vec();
    if !range_starts_with(s, 0, e1, &kw_dims) {
        return Err(VTKparseError::MalformedFormat(HeaderField::Dimensions));
    }
    let dims = match get_dimensions(&s[0..e1]) {
        Ok(d) => d,
        Err(e) => {
            return Err(e);
        },
    };
    if dims.0 == 0 || dims.1 == 0 || dims.2 == 0 {
        return Err(VTKparseError::MalformedFormat(HeaderField::Dimensions));
    }
    let e2 = find_line_end(s, e1);
    let kw_origin = origin_kw_vec();
    if !range_starts_with(s, e1, e2, &kw_origin) {
        return Err(VTKparseError::MalformedFormat(HeaderField::Origin));
    }
    let origin = match get_origo(&s[e1..e2]) {
        Ok(t) => t,
        Err(e) => {
            return Err(e);
        },
    };
    let e3 = find_line_end(s, e2);
    let kw_spacing = spacing_kw_vec();
    let kw_aspect = aspect_ratio_kw_vec();
    let has_spacing = range_starts_with(s, e2, e3, &kw_spacing);
    let has_aspect = range_starts_with(s, e2, e3, &kw_aspect);
    if !(has_spacing || has_aspect) {
        return Err(VTKparseError::MalformedFormat(HeaderField::Spacing));
    }
    let spacing = match get_spacing(&s[e2..e3]) {
        Ok(t) => t,
        Err(e) => {
            return Err(e);
        },
    };
    let e4 = find_line_end(s, e3);
    let kw_pd = point_data_kw_vec();
    if !range_starts_with(s, e3, e4, &kw_pd) {
        return Err(VTKparseError::MalformedFormat(HeaderField::PointData));
    }
    let n = match point_count(&s[e3..e4]) {
        Ok(v) => v,
        Err(e) => {
            return Err(e);
        },
    };
    proof {
        let dx = dims.0 as int;
        let dy = dims.1 as int;
        let dz = dims.2 as int;
        assert(dx * dy * dz < 0x1000000000000000000000000int && dx * dy
            < 0x10000000000000000int) by (nonlinear_arith)
            requires
                0 <= dx < 0x100000000,
                0 <= dy < 0x100000000,
                0 <= dz < 0x100000000,
        ;
    }
    if (n as u128) != (dims.0 as u128) * (dims.1 as u128) * (dims.2 as u128) {
        return Err(
            VTKparseError::InconsistentDimensions {
                declared: n,
                nx: dims.0,
                ny: dims.1,
                nz: dims.2,
            },
        );
    }
    let e5 = find_line_end(s, e4);
    let kw_scalars = scalars_kw_vec();
    if !range_starts_with(s, e4, e5, &kw_scalars) {
        return Err(VTKparseError::MalformedFormat(HeaderField::Scalars));
    }
    let sc = match scalars_line(&s[e4..e5]) {
        Ok(t) => t,
        Err(e) => {
            return Err(e);
        },
    };
    let e6 = find_line_end(s, e5);
    let kw_lookup = lookup_table_kw_vec();
    if !range_starts_with(s, e5, e6, &kw_lookup) {
        return Err(VTKparseError::MalformedFormat(HeaderField::LookupTable));
    }
    let tablename = lookup_line(&s[e5..e6]);
    let uchar = unsigned_char_name_vec();
    if !bytes_eq(&sc.1, &uchar) {
        return Err(VTKparseError::NotImplemented(Unsupported::ScalarKind));
    }
    if !binary {
        return Err(VTKparseError::NotImplemented(Unsupported::AsciiPayload));
    }
    let payload = copy_range(s, e6, s.len());
    proof {
        assert(payload@ =~= s@.skip(e6 as int));
    }
    if payload.len() != n {
        return Err(
            VTKparseError::InconsistentPayloadLength { expected: n, actual: payload.len() },
        );
    }
    let sp = StructuredPoints {
        dims,
        origin,
        spacing,
        data: payload,
        datatype: sc.1,
        dataname: sc.0,
        numcomp: sc.2,
        tablename,
    };
    Ok(sp)
}

} // verus!
