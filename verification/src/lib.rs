//! Decoder for legacy structured-points volume files and a fixed-point
//! volumetric raycaster over the decoded scalar field.
//!
//! A file holds a four-line text preamble (version, comment, encoding,
//! dataset kind) followed, for structured points, by a block of metadata
//! lines and a raw binary payload of one byte per sample.  `decode` turns
//! such a byte stream into a [`Data`] value or reports precisely why it
//! cannot.  The raycaster walks rays through the decoded field and
//! composites one colour per pixel under one of two policies.

use vstd::prelude::*;

pub mod cube;
pub mod error;
pub mod raycast;
pub mod spoints;
pub mod text;

pub use crate::error::VTKparseError;
pub use crate::spoints::StructuredPoints;

use crate::error::HeaderField;
use crate::spoints::{spec_parse, SpointsView};
use crate::text::{
    copy_range, find_byte, find_line_end, is_uint_token, line_end, parse_usize, range_starts_with,
    starts_with, subvec, to_upper, tokenize, tokens_of, uint_value, upper_seq,
};

verus! {

/// The fixed prefix of the first line: `# vtk DataFile Version `.
pub open spec fn version_prefix() -> Seq<u8> {
    seq![
        35u8,
        32,
        118,
        116,
        107,
        32,
        68,
        97,
        116,
        97,
        70,
        105,
        108,
        101,
        32,
        86,
        101,
        114,
        115,
        105,
        111,
        110,
        32,
    ]
}

fn version_prefix_vec() -> (r: Vec<u8>)
    ensures
        r@ == version_prefix(),
{
    let v: Vec<u8> = vec![
        35u8,
        32,
        118,
        116,
        107,
        32,
        68,
        97,
        116,
        97,
        70,
        105,
        108,
        101,
        32,
        86,
        101,
        114,
        115,
        105,
        111,
        110,
        32,
    ];
    proof {
        assert(v@ =~= version_prefix());
    }
    v
}

/// The encoding line that selects text samples: `ASCII` with its newline.
pub open spec fn ascii_line() -> Seq<u8> {
    seq![65u8, 83, 67, 73, 73, 10]
}

fn ascii_line_vec() -> (r: Vec<u8>)
    ensures
        r@ == ascii_line(),
{
    let v: Vec<u8> = vec![65u8, 83, 67, 73, 73, 10];
    proof {
        assert(v@ =~= ascii_line());
    }
    v
}

/// The encoding line that selects raw samples: `BINARY` with its newline.
pub open spec fn binary_line() -> Seq<u8> {
    seq![66u8, 73, 78, 65, 82, 89, 10]
}

fn binary_line_vec() -> (r: Vec<u8>)
    ensures
        r@ == binary_line(),
{
    let v: Vec<u8> = vec![66u8, 73, 78, 65, 82, 89, 10];
    proof {
        assert(v@ =~= binary_line());
    }
    v
}

/// The keyword opening the dataset line, trailing space included.
pub open spec fn dataset_kw() -> Seq<u8> {
    seq![68u8, 65, 84, 65, 83, 69, 84, 32]
}

fn dataset_kw_vec() -> (r: Vec<u8>)
    ensures
        r@ == dataset_kw(),
{
    let v: Vec<u8> = vec![68u8, 65, 84, 65, 83, 69, 84, 32];
    proof {
        assert(v@ =~= dataset_kw());
    }
    v
}

/// The dataset keyword `STRUCTURED_POINTS`.
pub open spec fn structured_points_name() -> Seq<u8> {
    seq![83u8, 84, 82, 85, 67, 84, 85, 82, 69, 68, 95, 80, 79, 73, 78, 84, 83]
}

fn structured_points_name_vec() -> (r: Vec<u8>)
    ensures
        r@ == structured_points_name(),
{
    let v: Vec<u8> = vec![83u8, 84, 82, 85, 67, 84, 85, 82, 69, 68, 95, 80, 79, 73, 78, 84, 83];
    proof {
        assert(v@ =~= structured_points_name());
    }
    v
}

/// The dataset keyword `STRUCTURED_GRID`.
pub open spec fn structured_grid_name() -> Seq<u8> {
    seq![83u8, 84, 82, 85, 67, 84, 85, 82, 69, 68, 95, 71, 82, 73, 68]
}

fn structured_grid_name_vec() -> (r: Vec<u8>)
    ensures
        r@ == structured_grid_name(),
{
    let v: Vec<u8> = vec![83u8, 84, 82, 85, 67, 84, 85, 82, 69, 68, 95, 71, 82, 73, 68];
    proof {
        assert(v@ =~= structured_grid_name());
    }
    v
}

/// The dataset keyword `RECTILINEAR_GRID`.
pub open spec fn rectilinear_grid_name() -> Seq<u8> {
    seq![82u8, 69, 67, 84, 73, 76, 73, 78, 69, 65, 82, 95, 71, 82, 73, 68]
}

fn rectilinear_grid_name_vec() -> (r: Vec<u8>)
    ensures
        r@ == rectilinear_grid_name(),
{
    let v: Vec<u8> = vec![82u8, 69, 67, 84, 73, 76, 73, 78, 69, 65, 82, 95, 71, 82, 73, 68];
    proof {
        assert(v@ =~= rectilinear_grid_name());
    }
    v
}

/// The dataset keyword `POLYGONAL_DATA`.
pub open spec fn polygonal_data_name() -> Seq<u8> {
    seq![80u8, 79, 76, 89, 71, 79, 78, 65, 76, 95, 68, 65, 84, 65]
}

fn polygonal_data_name_vec() -> (r: Vec<u8>)
    ensures
        r@ == polygonal_data_name(),
{
    let v: Vec<u8> = vec![80u8, 79, 76, 89, 71, 79, 78, 65, 76, 95, 68, 65, 84, 65];
    proof {
        assert(v@ =~= polygonal_data_name());
    }
    v
}

/// The dataset keyword `UNSTRUCTURED_GRID`.
pub open spec fn unstructured_grid_name() -> Seq<u8> {
    seq![85u8, 78, 83, 84, 82, 85, 67, 84, 85, 82, 69, 68, 95, 71, 82, 73, 68]
}

fn unstructured_grid_name_vec() -> (r: Vec<u8>)
    ensures
        r@ == unstructured_grid_name(),
{
    let v: Vec<u8> = vec![85u8, 78, 83, 84, 82, 85, 67, 84, 85, 82, 69, 68, 95, 71, 82, 73, 68];
    proof {
        assert(v@ =~= unstructured_grid_name());
    }
    v
}

/// The dataset keyword `FIELD`.
pub open spec fn field_name() -> Seq<u8> {
    seq![70u8, 73, 69, 76, 68]
}

fn field_name_vec() -> (r: Vec<u8>)
    ensures
        r@ == field_name(),
{
    let v: Vec<u8> = vec![70u8, 73, 69, 76, 68];
    proof {
        assert(v@ =~= field_name());
    }
    v
}

/// The fixed preamble of a file: version, free-form comment, and encoding.
#[derive(Debug)]
pub struct Header {
    /// The two integers after the version prefix, `(0, 0)` when the line
    /// carries no version token at all.
    pub file_version: (usize, usize),
    /// The second line, kept verbatim including its line terminator.
    pub header: Vec<u8>,
    /// Whether the payload is raw bytes (`BINARY`) rather than text
    /// (`ASCII`).
    pub binary: bool,
}

/// The mathematical image of a header.
pub ghost struct HeaderView {
    pub file_version: (usize, usize),
    pub header: Seq<u8>,
    pub binary: bool,
}

impl View for Header {
    type V = HeaderView;

    open spec fn view(&self) -> HeaderView {
        HeaderView { file_version: self.file_version, header: self.header@, binary: self.binary }
    }
}

/// The dataset a file declares.  Only structured points carry a payload;
/// the other recognized kinds are markers, and a missing dataset line is
/// the deliberate lenient fallback `Empty`, not a failure.
#[derive(Debug)]
pub enum Datatype {
    StructuredPoints(StructuredPoints),
    StructuredGrid,
    RectilinearGrid,
    PolyData,
    UnstructuredGrid,
    Field,
    Empty,
}

/// The mathematical image of a dataset.
pub ghost enum DatatypeView {
    StructuredPoints(SpointsView),
    StructuredGrid,
    RectilinearGrid,
    PolyData,
    UnstructuredGrid,
    Field,
    Empty,
}

impl View for Datatype {
    type V = DatatypeView;

    open spec fn view(&self) -> DatatypeView {
        match self {
            Datatype::StructuredPoints(sp) => DatatypeView::StructuredPoints(sp@),
            Datatype::StructuredGrid => DatatypeView::StructuredGrid,
            Datatype::RectilinearGrid => DatatypeView::RectilinearGrid,
            Datatype::PolyData => DatatypeView::PolyData,
            Datatype::UnstructuredGrid => DatatypeView::UnstructuredGrid,
            Datatype::Field => DatatypeView::Field,
            Datatype::Empty => DatatypeView::Empty,
        }
    }
}

/// The kinds of per-point attribute sections the format defines.  Only
/// scalars with a lookup table are decoded here; the enumeration is kept
/// for callers that classify files.
pub enum DatasetAttributes {
    Scalars,
    LookupTable,
    Vectors,
    Normals,
    TextureCoordinates,
    Tensors,
    FieldData,
}

/// A fully decoded file: the preamble and the dataset it declares.
#[derive(Debug)]
pub struct Data {
    pub header: Header,
    pub dataset: Datatype,
}

/// The mathematical image of a decoded file.
pub ghost struct DataView {
    pub header: HeaderView,
    pub dataset: DatatypeView,
}

impl View for Data {
    type V = DataView;

    open spec fn view(&self) -> DataView {
        DataView { header: self.header@, dataset: self.dataset@ }
    }
}

impl Data {
    /// The decoded volume, when the file declared structured points.
    pub fn structured_points(&self) -> (r: Option<&StructuredPoints>)
        ensures
            match r {
                Some(sp) => self.dataset@ == DatatypeView::StructuredPoints(sp@),
                None => forall|v: SpointsView|
                    self.dataset@ != DatatypeView::StructuredPoints(v),
            },
    {
        if let Datatype::StructuredPoints(ref x) = self.dataset {
            return Some(x);
        }
        None
    }
}

/// A token holding an unsigned value that fits a `usize`.
pub open spec fn fits_usize(t: Seq<u8>) -> bool {
    is_uint_token(t) && uint_value(t) <= usize::MAX
}

/// What the version line declares.  The line must start with the fixed
/// prefix.  The last whitespace token after the prefix is split on its
/// points: the first two parts are the major and minor version, a missing
/// part is zero, and a line with no token after the prefix at all is
/// version `(0, 0)`.
pub open spec fn spec_get_version(line: Seq<u8>) -> Result<(usize, usize), VTKparseError> {
    if !starts_with(line, version_prefix()) {
        Err(VTKparseError::UnrecognizedFormat)
    } else {
        let ts = tokenize(line.skip(version_prefix().len() as int));
        if ts.len() == 0 {
            Ok((0, 0))
        } else {
            let tok = ts.last();
            let d = find_byte(tok, 46);
            let major = tok.take(d);
            if d == tok.len() {
                if fits_usize(major) {
                    Ok((uint_value(major) as usize, 0))
                } else {
                    Err(VTKparseError::IntegerParseFailure)
                }
            } else {
                let rest = tok.skip(d + 1);
                let minor = rest.take(find_byte(rest, 46));
                if fits_usize(major) && fits_usize(minor) {
                    Ok((uint_value(major) as usize, uint_value(minor) as usize))
                } else {
                    Err(VTKparseError::IntegerParseFailure)
                }
            }
        }
    }
}

/// What the dataset line and everything after it decode to.  A stream
/// whose next line does not start with the dataset keyword — including an
/// exhausted stream — is the lenient `Empty`; a recognized keyword selects
/// the kind; anything else is malformed.
pub open spec fn spec_dataset_parse(s: Seq<u8>, binary: bool) -> Result<
    DatatypeView,
    VTKparseError,
> {
    let e = line_end(s, 0);
    let l = s.subrange(0, e);
    if !starts_with(l, dataset_kw()) {
        Ok(DatatypeView::Empty)
    } else {
        let kind = upper_seq(tokenize(l).last());
        if kind == structured_points_name() {
            match spec_parse(s.skip(e), binary) {
                Ok(v) => Ok(DatatypeView::StructuredPoints(v)),
                Err(err) => Err(err),
            }
        } else if kind == structured_grid_name() {
            Ok(DatatypeView::StructuredGrid)
        } else if kind == rectilinear_grid_name() {
            Ok(DatatypeView::RectilinearGrid)
        } else if kind == polygonal_data_name() {
            Ok(DatatypeView::PolyData)
        } else if kind == unstructured_grid_name() {
            Ok(DatatypeView::UnstructuredGrid)
        } else if kind == field_name() {
            Ok(DatatypeView::Field)
        } else {
            Err(VTKparseError::MalformedFormat(HeaderField::Dataset))
        }
    }
}

/// What a whole byte stream decodes to: the version line, the verbatim
/// comment line, the exact `ASCII` or `BINARY` encoding line, then the
/// dataset.
pub open spec fn spec_decode(s: Seq<u8>) -> Result<DataView, VTKparseError> {
    let e1 = line_end(s, 0);
    match spec_get_version(s.subrange(0, e1)) {
        Err(e) => Err(e),
        Ok(ver) => {
            let e2 = line_end(s, e1);
            let comment = s.subrange(e1, e2);
            let e3 = line_end(s, e2);
            let l3 = s.subrange(e2, e3);
            if l3 != ascii_line() && l3 != binary_line() {
                Err(VTKparseError::MalformedFormat(HeaderField::Encoding))
            } else {
                let binary = l3 == binary_line();
                match spec_dataset_parse(s.skip(e3), binary) {
                    Err(e) => Err(e),
                    Ok(dv) => Ok(
                        DataView {
                            header: HeaderView { file_version: ver, header: comment, binary },
                            dataset: dv,
                        },
                    ),
                }
            }
        },
    }
}

/// The version line that declares `major.minor`: the fixed prefix, the two
/// numbers with a point between them, and a newline.
pub open spec fn version_line(major: usize, minor: usize) -> Seq<u8> {
    version_prefix() + text::dec_digits(major as nat) + seq![46u8] + text::dec_digits(minor as nat)
        + seq![10u8]
}

/// The version pair round-trips: a well-formed version line decodes to
/// exactly the two integers written after the prefix, and the version
/// defaults to `(0, 0)` only when the line carries no token after the
/// prefix at all.
pub proof fn lemma_version_round_trip(major: usize, minor: usize)
    ensures
        spec_get_version(version_line(major, minor)) == Ok::<(usize, usize), VTKparseError>(
            (major, minor),
        ),
        spec_get_version(version_prefix() + seq![10u8]) == Ok::<(usize, usize), VTKparseError>(
            (0, 0),
        ),
{
    let ma = text::dec_digits(major as nat);
    let mi = text::dec_digits(minor as nat);
    text::lemma_dec_digits(major as nat);
    text::lemma_dec_digits(minor as nat);
    let line = version_line(major, minor);
    let plen = version_prefix().len() as int;
    assert(starts_with(line, version_prefix())) by {
        assert(line.take(plen) =~= version_prefix());
    }
    let suffix = line.skip(plen);
    let tok = ma + seq![46u8] + mi;
    assert(suffix =~= tok + seq![10u8]);
    assert(forall|i: int| 0 <= i < tok.len() ==> !text::is_space(#[trigger] tok[i])) by {
        assert(forall|i: int| 0 <= i < ma.len() ==> tok[i] == ma[i]);
        assert(tok[ma.len() as int] == 46);
        assert(forall|i: int|
            ma.len() + 1 <= i < tok.len() ==> tok[i] == mi[i - ma.len() - 1]);
    }
    assert(forall|i: int| 0 <= i < tok.len() ==> !text::is_space(#[trigger] suffix[i]));
    assert(!text::is_space(suffix[0]));
    text::lemma_token_len_is(suffix, tok.len() as int);
    assert(suffix.take(tok.len() as int) =~= tok);
    assert(suffix.skip(tok.len() as int) =~= seq![10u8]);
    assert(tokenize(seq![10u8]) =~= Seq::<Seq<u8>>::empty()) by {
        assert(seq![10u8].drop_first() =~= Seq::<u8>::empty());
        assert(tokenize(Seq::<u8>::empty()) =~= Seq::<Seq<u8>>::empty());
    }
    assert(tokenize(suffix) =~= seq![tok]);
    assert(tokenize(suffix).last() == tok);
    assert(forall|i: int| 0 <= i < ma.len() ==> #[trigger] tok[i] != 46);
    text::lemma_find_byte_is(tok, 46, ma.len() as int);
    assert(tok.take(ma.len() as int) =~= ma);
    let rest = tok.skip(ma.len() as int + 1);
    assert(rest =~= mi);
    assert(forall|i: int| 0 <= i < mi.len() ==> #[trigger] mi[i] != 46);
    text::lemma_find_byte_is(mi, 46, mi.len() as int);
    assert(mi.take(mi.len() as int) =~= mi);
    assert(text::uint_body(ma) == ma && text::uint_body(mi) == mi);
    assert(fits_usize(ma) && uint_value(ma) == major);
    assert(fits_usize(mi) && uint_value(mi) == minor);
    // The absent-token case: the prefix followed by a bare newline.
    let bare = version_prefix() + seq![10u8];
    assert(starts_with(bare, version_prefix())) by {
        assert(bare.take(plen) =~= version_prefix());
    }
    assert(bare.skip(plen) =~= seq![10u8]);
    assert(tokenize(seq![10u8]) =~= Seq::<Seq<u8>>::empty()) by {
        assert(seq![10u8].drop_first() =~= Seq::<u8>::empty());
        assert(tokenize(Seq::<u8>::empty()) =~= Seq::<Seq<u8>>::empty());
    }
}

/// Reads the major and minor version off the first line.
pub fn get_version(line: &[u8]) -> (r: Result<(usize, usize), VTKparseError>)
    ensures
        r == spec_get_version(line@),
{
    let prefix = version_prefix_vec();
    let plen = prefix.len();
    if !range_starts_with(line, 0, line.len(), &prefix) {
        proof {
            assert(line@.subrange(0, line@.len() as int) =~= line@);
        }
        return Err(VTKparseError::UnrecognizedFormat);
    }
    proof {
        assert(line@.subrange(0, line@.len() as int) =~= line@);
        assert(line@.subrange(plen as int, line@.len() as int) =~= line@.skip(
            version_prefix().len() as int,
        ));
    }
    let ts = tokens_of(line, plen, line.len());
    if ts.len() == 0 {
        return Ok((0, 0));
    }
    let last = ts.len() - 1;
    let ghost tok = tokenize(line@.skip(version_prefix().len() as int)).last();
    proof {
        assert(ts@[last as int].deep_view() =~= ts@[last as int]@);
        assert(ts@[last as int]@ == tok);
    }
    let t = &ts[last];
    let mut di: usize = 0;
    while di < t.len() && t[di] != 46
        invariant
            0 <= di <= t@.len(),
            forall|k: int| 0 <= k < di ==> t@[k] != 46,
        decreases t@.len() - di,
    {
        di = di + 1;
    }
    proof {
        text::lemma_find_byte_is(t@, 46, di as int);
    }
    let major_tok = subvec(t, 0, di);
    proof {
        assert(major_tok@ =~= tok.take(di as int));
    }
    if di == t.len() {
        match parse_usize(&major_tok) {
            Some(v) => Ok((v, 0)),
            None => Err(VTKparseError::IntegerParseFailure),
        }
    } else {
        let ghost rest = tok.skip(di + 1);
        let mut dj: usize = di + 1;
        while dj < t.len() && t[dj] != 46
            invariant
                di + 1 <= dj <= t@.len(),
                forall|k: int| di + 1 <= k < dj ==> t@[k] != 46,
            decreases t@.len() - dj,
        {
            dj = dj + 1;
        }
        proof {
            assert(rest =~= t@.subrange(di + 1, t@.len() as int));
            assert(forall|k: int| 0 <= k < dj - di - 1 ==> #[trigger] rest[k] != 46);
            text::lemma_find_byte_is(rest, 46, dj - di - 1);
        }
        let minor_tok = subvec(t, di + 1, dj);
        proof {
            assert(minor_tok@ =~= rest.take(dj - di - 1));
        }
        let ma = parse_usize(&major_tok);
        let mi = parse_usize(&minor_tok);
        match (ma, mi) {
            (Some(a), Some(b)) => Ok((a, b)),
            _ => Err(VTKparseError::IntegerParseFailure),
        }
    }
}

/// Reads the dataset line at the front of `s` and decodes what follows it.
pub fn dataset_parse(s: &[u8], binary: bool) -> (r: Result<Datatype, VTKparseError>)
    ensures
        match r {
            Ok(d) => spec_dataset_parse(s@, binary) == Ok::<DatatypeView, VTKparseError>(d@),
            Err(e) => spec_dataset_parse(s@, binary) == Err::<DatatypeView, VTKparseError>(e),
        },
        (match r {
            Ok(d) => d@ matches DatatypeView::StructuredPoints(v) ==> v.wf(),
            Err(e) => true,
        }),
{
    let e = find_line_end(s, 0);
    let kw = dataset_kw_vec();
    if !range_starts_with(s, 0, e, &kw) {
        return Ok(Datatype::Empty);
    }
    let ghost l = s@.subrange(0, e as int);
    let ts = tokens_of(s, 0, e);
    proof {
        // The keyword itself is a token, so the line has at least one.
        assert(l[0] == 68);
        assert(!text::is_space(l[0]));
        assert(tokenize(l).len() >= 1) by {
            assert(tokenize(l) == seq![l.take(text::token_len(l))] + tokenize(
                l.skip(text::token_len(l)),
            ));
        }
    }
    let last = ts.len() - 1;
    proof {
        assert(ts@[last as int].deep_view() =~= ts@[last as int]@);
        assert(ts@[last as int]@ == tokenize(l).last());
    }
    let kind = to_upper(&ts[last]);
    let sp_name = structured_points_name_vec();
    let sg_name = structured_grid_name_vec();
    let rg_name = rectilinear_grid_name_vec();
    let pd_name = polygonal_data_name_vec();
    let ug_name = unstructured_grid_name_vec();
    let f_name = field_name_vec();
    if text::bytes_eq(&kind, &sp_name) {
        match spoints::parse(&s[e..s.len()], binary) {
            Ok(sp) => {
                proof {
                    assert(s@.subrange(e as int, s@.len() as int) =~= s@.skip(e as int));
                }
                Ok(Datatype::StructuredPoints(sp))
            },
            Err(err) => {
                proof {
                    assert(s@.subrange(e as int, s@.len() as int) =~= s@.skip(e as int));
                }
                Err(err)
            },
        }
    } else if text::bytes_eq(&kind, &sg_name) {
        Ok(Datatype::StructuredGrid)
    } else if text::bytes_eq(&kind, &rg_name) {
        Ok(Datatype::RectilinearGrid)
    } else if text::bytes_eq(&kind, &pd_name) {
        Ok(Datatype::PolyData)
    } else if text::bytes_eq(&kind, &ug_name) {
        Ok(Datatype::UnstructuredGrid)
    } else if text::bytes_eq(&kind, &f_name) {
        Ok(Datatype::Field)
    } else {
        Err(VTKparseError::MalformedFormat(HeaderField::Dataset))
    }
}

/// Decodes a whole in-memory byte stream into a file value.
///
/// This is the library's one entry point for decoding: a caller reads a
/// file into memory and hands the bytes here.  The result agrees exactly
/// with the model [`spec_decode`], and a decoded structured-points volume
/// is always well formed.
pub fn decode(s: &[u8]) -> (r: Result<Data, VTKparseError>)
    ensures
        match r {
            Ok(d) => spec_decode(s@) == Ok::<DataView, VTKparseError>(d@),
            Err(e) => spec_decode(s@) == Err::<DataView, VTKparseError>(e),
        },
        (match r {
            Ok(d) => d.dataset@ matches DatatypeView::StructuredPoints(v) ==> v.wf(),
            Err(e) => true,
        }),
{
    let e1 = find_line_end(s, 0);
    let version = match get_version(&s[0..e1]) {
        Ok(v) => v,
        Err(e) => {
            return Err(e);
        },
    };
    let e2 = find_line_end(s, e1);
    let comment = copy_range(s, e1, e2);
    let e3 = find_line_end(s, e2);
    let l3 = copy_range(s, e2, e3);
    let ascii = ascii_line_vec();
    let binary_l = binary_line_vec();
    let is_ascii = text::bytes_eq(&l3, &ascii);
    let is_binary = text::bytes_eq(&l3, &binary_l);
    if !is_ascii && !is_binary {
        return Err(VTKparseError::MalformedFormat(HeaderField::Encoding));
    }
    let binary = is_binary;
    match dataset_parse(&s[e3..s.len()], binary) {
        Ok(dataset) => {
            proof {
                assert(s@.subrange(e3 as int, s@.len() as int) =~= s@.skip(e3 as int));
            }
            Ok(
                Data {
                    header: Header { file_version: version, header: comment, binary },
                    dataset,
                },
            )
        },
        Err(e) => {
            proof {
                assert(s@.subrange(e3 as int, s@.len() as int) =~= s@.skip(e3 as int));
            }
            Err(e)
        },
    }
}

} // verus!
