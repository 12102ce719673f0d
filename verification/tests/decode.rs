use vtk_parser::decode;
use vtk_parser::error::{HeaderField, Unsupported, VTKparseError};
use vtk_parser::spoints::{get_dimensions, get_origo, get_spacing, parse};
use vtk_parser::{dataset_parse, get_version, Datatype};

fn volume_file(encoding: &str, scalar_type: &str, point_data: usize, payload: &[u8]) -> Vec<u8> {
    let mut f = Vec::new();
    f.extend_from_slice(b"# vtk DataFile Version 3.0\n");
    f.extend_from_slice(b"a tiny test volume\n");
    f.extend_from_slice(encoding.as_bytes());
    f.extend_from_slice(b"\n");
    f.extend_from_slice(b"DATASET STRUCTURED_POINTS\n");
    f.extend_from_slice(b"DIMENSIONS 2 2 2\n");
    f.extend_from_slice(b"ORIGIN 0 0 0\n");
    f.extend_from_slice(b"SPACING 1 1 1\n");
    f.extend_from_slice(format!("POINT_DATA {}\n", point_data).as_bytes());
    f.extend_from_slice(format!("SCALARS s {} 1\n", scalar_type).as_bytes());
    f.extend_from_slice(b"LOOKUP_TABLE default\n");
    f.extend_from_slice(payload);
    f
}

#[test]
fn decode_small_volume_byte_for_byte() {
    let payload = [0u8, 32, 64, 96, 128, 160, 192, 224];
    let data = decode(&volume_file("BINARY", "unsigned_char", 8, &payload)).unwrap();
    assert_eq!(data.header.file_version, (3, 0));
    assert_eq!(data.header.header, b"a tiny test volume\n".to_vec());
    assert!(data.header.binary);
    let sp = data.structured_points().unwrap();
    assert_eq!(sp.dims, (2, 2, 2));
    assert_eq!(sp.data, payload.to_vec());
    assert_eq!(sp.dataname, b"s".to_vec());
    assert_eq!(sp.datatype, b"unsigned_char".to_vec());
    assert_eq!(sp.numcomp, 1);
    assert_eq!(sp.tablename, b"default".to_vec());
    assert_eq!(sp.origin.0, b"0".to_vec());
    assert_eq!(sp.spacing.2, b"1".to_vec());
}

#[test]
fn short_payload_reports_both_counts() {
    let payload = [0u8, 32, 64, 96, 128, 160, 192];
    let err = decode(&volume_file("BINARY", "unsigned_char", 8, &payload)).unwrap_err();
    assert_eq!(err, VTKparseError::InconsistentPayloadLength { expected: 8, actual: 7 });
}

#[test]
fn long_payload_reports_both_counts() {
    let payload = [0u8, 32, 64, 96, 128, 160, 192, 224, 255];
    let err = decode(&volume_file("BINARY", "unsigned_char", 8, &payload)).unwrap_err();
    assert_eq!(err, VTKparseError::InconsistentPayloadLength { expected: 8, actual: 9 });
}

#[test]
fn float_scalars_are_not_implemented() {
    let payload = [0u8; 8];
    let err = decode(&volume_file("BINARY", "float", 8, &payload)).unwrap_err();
    assert_eq!(err, VTKparseError::NotImplemented(Unsupported::ScalarKind));
}

#[test]
fn ascii_payload_is_not_implemented() {
    let payload = b"0 32 64 96 128 160 192 224\n";
    let err = decode(&volume_file("ASCII", "unsigned_char", 8, payload)).unwrap_err();
    assert_eq!(err, VTKparseError::NotImplemented(Unsupported::AsciiPayload));
}

#[test]
fn stream_ending_before_dataset_line_is_empty() {
    let data = decode(b"# vtk DataFile Version 3.0\ncomment\nBINARY\n").unwrap();
    assert!(matches!(data.dataset, Datatype::Empty));
}

#[test]
fn fourth_line_without_dataset_keyword_is_empty() {
    let data = decode(b"# vtk DataFile Version 3.0\ncomment\nBINARY\nPOINTS 8 float\n").unwrap();
    assert!(matches!(data.dataset, Datatype::Empty));
}

#[test]
fn version_round_trips() {
    assert_eq!(get_version(b"# vtk DataFile Version 3.0\n").unwrap(), (3, 0));
    assert_eq!(get_version(b"# vtk DataFile Version 4.2\n").unwrap(), (4, 2));
    assert_eq!(get_version(b"# vtk DataFile Version 12.345\n").unwrap(), (12, 345));
}

#[test]
fn version_minor_defaults_to_zero() {
    assert_eq!(get_version(b"# vtk DataFile Version 7\n").unwrap(), (7, 0));
}

#[test]
fn absent_version_token_defaults_to_zero_zero() {
    assert_eq!(get_version(b"# vtk DataFile Version \n").unwrap(), (0, 0));
}

#[test]
fn version_parts_past_the_second_are_ignored() {
    assert_eq!(get_version(b"# vtk DataFile Version 4.2.9\n").unwrap(), (4, 2));
}

#[test]
fn bad_version_prefix_is_unrecognized() {
    let err = get_version(b"# wtk DataFile Version 3.0\n").unwrap_err();
    assert_eq!(err, VTKparseError::UnrecognizedFormat);
    assert_eq!(decode(b"junk\n").unwrap_err(), VTKparseError::UnrecognizedFormat);
}

#[test]
fn non_numeric_version_fails_integer_parse() {
    let err = get_version(b"# vtk DataFile Version x.0\n").unwrap_err();
    assert_eq!(err, VTKparseError::IntegerParseFailure);
    let err = get_version(b"# vtk DataFile Version 3.\n").unwrap_err();
    assert_eq!(err, VTKparseError::IntegerParseFailure);
}

#[test]
fn encoding_line_must_be_exact() {
    let err = decode(b"# vtk DataFile Version 3.0\ncomment\nBINARY");
    assert_eq!(err.unwrap_err(), VTKparseError::MalformedFormat(HeaderField::Encoding));
    let err = decode(b"# vtk DataFile Version 3.0\ncomment\nEBCDIC\n");
    assert_eq!(err.unwrap_err(), VTKparseError::MalformedFormat(HeaderField::Encoding));
}

#[test]
fn dimensions_line_parses_three_extents() {
    assert_eq!(get_dimensions(b"DIMENSIONS 10 20 30\n").unwrap(), (10, 20, 30));
}

#[test]
fn dimensions_line_with_missing_extent_is_malformed() {
    let err = get_dimensions(b"DIMENSIONS 10 20\n").unwrap_err();
    assert_eq!(err, VTKparseError::MalformedFormat(HeaderField::Dimensions));
}

#[test]
fn dimensions_line_with_non_numeric_extent_is_malformed() {
    let err = get_dimensions(b"DIMENSIONS 10 twenty 30\n").unwrap_err();
    assert_eq!(err, VTKparseError::MalformedFormat(HeaderField::Dimensions));
}

#[test]
fn origin_accepts_exotic_reals() {
    let (a, b, c) = get_origo(b"ORIGIN -3.25 1e5 NaN\n").unwrap();
    assert_eq!(a, b"-3.25".to_vec());
    assert_eq!(b, b"1e5".to_vec());
    assert_eq!(c, b"NaN".to_vec());
    assert!(a.iter().map(|&x| x as char).collect::<String>().parse::<f32>().is_ok());
    assert!(b.iter().map(|&x| x as char).collect::<String>().parse::<f32>().is_ok());
    assert!(c.iter().map(|&x| x as char).collect::<String>().parse::<f32>().is_ok());
}

#[test]
fn origin_accepts_what_the_standard_parser_accepts() {
    // Each form a float parse accepts must pass validation, and each
    // stored token must indeed parse.
    for token in ["3.", ".5", "+2", "-0.0", "1E-9", "infinity", "INF", "-inf", "nan", "12e03"] {
        let line = format!("ORIGIN {} 0 0\n", token);
        let (a, _, _) = get_origo(line.as_bytes()).unwrap();
        assert_eq!(a, token.as_bytes().to_vec());
        assert!(token.parse::<f32>().is_ok());
    }
}

#[test]
fn origin_rejects_what_the_standard_parser_rejects() {
    for token in [".", "--5", "++2", "1e", "1e+", "2.3.4", "0x10", "five", "in", "infinit"] {
        let line = format!("ORIGIN {} 0 0\n", token);
        let err = get_origo(line.as_bytes()).unwrap_err();
        assert_eq!(err, VTKparseError::MalformedFormat(HeaderField::Origin));
        assert!(token.parse::<f32>().is_err());
    }
}

#[test]
fn version_accepts_a_leading_plus_sign() {
    // The standard unsigned parser accepts one leading plus sign.
    assert_eq!(get_version(b"# vtk DataFile Version +3.0\n").unwrap(), (3, 0));
}

#[test]
fn origin_rejects_non_reals() {
    let err = get_origo(b"ORIGIN 0 0 zero\n").unwrap_err();
    assert_eq!(err, VTKparseError::MalformedFormat(HeaderField::Origin));
    let err = get_origo(b"ORIGIN 1e 0 0\n").unwrap_err();
    assert_eq!(err, VTKparseError::MalformedFormat(HeaderField::Origin));
}

#[test]
fn spacing_accepts_the_aspect_ratio_alias() {
    let mut block = Vec::new();
    block.extend_from_slice(b"DIMENSIONS 1 1 1\n");
    block.extend_from_slice(b"ORIGIN 0 0 0\n");
    block.extend_from_slice(b"ASPECT_RATIO 2.5 2.5 2.5\n");
    block.extend_from_slice(b"POINT_DATA 1\n");
    block.extend_from_slice(b"SCALARS s unsigned_char\n");
    block.extend_from_slice(b"LOOKUP_TABLE\n");
    block.push(42);
    let sp = parse(&block, true).unwrap();
    assert_eq!(sp.spacing.0, b"2.5".to_vec());
    assert_eq!(sp.tablename, b"default".to_vec());
    assert_eq!(sp.numcomp, 1);
    assert_eq!(sp.data, vec![42u8]);
    assert_eq!(get_spacing(b"ASPECT_RATIO 2.5 2.5 2.5\n").unwrap().1, b"2.5".to_vec());
}

#[test]
fn scalars_component_count_is_kept() {
    let payload = [7u8; 8];
    let mut f = Vec::new();
    f.extend_from_slice(b"DIMENSIONS 2 2 2\n");
    f.extend_from_slice(b"ORIGIN 0 0 0\n");
    f.extend_from_slice(b"SPACING 1 1 1\n");
    f.extend_from_slice(b"POINT_DATA 8\n");
    f.extend_from_slice(b"SCALARS density unsigned_char 3\n");
    f.extend_from_slice(b"LOOKUP_TABLE hot\n");
    f.extend_from_slice(&payload);
    let sp = parse(&f, true).unwrap();
    assert_eq!(sp.numcomp, 3);
    assert_eq!(sp.dataname, b"density".to_vec());
    assert_eq!(sp.tablename, b"hot".to_vec());
}

#[test]
fn scalars_component_count_over_255_is_malformed() {
    let mut f = Vec::new();
    f.extend_from_slice(b"DIMENSIONS 2 2 2\n");
    f.extend_from_slice(b"ORIGIN 0 0 0\n");
    f.extend_from_slice(b"SPACING 1 1 1\n");
    f.extend_from_slice(b"POINT_DATA 8\n");
    f.extend_from_slice(b"SCALARS s unsigned_char 300\n");
    f.extend_from_slice(b"LOOKUP_TABLE default\n");
    let err = parse(&f, true).unwrap_err();
    assert_eq!(err, VTKparseError::MalformedFormat(HeaderField::ScalarComponents));
}

#[test]
fn point_count_must_match_the_dimensions() {
    let payload = [0u8; 7];
    let err = decode(&volume_file("BINARY", "unsigned_char", 7, &payload)).unwrap_err();
    assert_eq!(
        err,
        VTKparseError::InconsistentDimensions { declared: 7, nx: 2, ny: 2, nz: 2 }
    );
}

#[test]
fn zero_dimension_is_malformed() {
    let mut f = Vec::new();
    f.extend_from_slice(b"DIMENSIONS 0 2 2\n");
    f.extend_from_slice(b"ORIGIN 0 0 0\n");
    f.extend_from_slice(b"SPACING 1 1 1\n");
    f.extend_from_slice(b"POINT_DATA 0\n");
    f.extend_from_slice(b"SCALARS s unsigned_char\n");
    f.extend_from_slice(b"LOOKUP_TABLE default\n");
    let err = parse(&f, true).unwrap_err();
    assert_eq!(err, VTKparseError::MalformedFormat(HeaderField::Dimensions));
}

#[test]
fn missing_lines_name_the_missing_field() {
    assert_eq!(
        parse(b"ORIGIN 0 0 0\n", true).unwrap_err(),
        VTKparseError::MalformedFormat(HeaderField::Dimensions)
    );
    assert_eq!(
        parse(b"DIMENSIONS 1 1 1\nSPACING 1 1 1\n", true).unwrap_err(),
        VTKparseError::MalformedFormat(HeaderField::Origin)
    );
    assert_eq!(
        parse(b"DIMENSIONS 1 1 1\nORIGIN 0 0 0\nPOINT_DATA 1\n", true).unwrap_err(),
        VTKparseError::MalformedFormat(HeaderField::Spacing)
    );
    assert_eq!(
        parse(b"DIMENSIONS 1 1 1\nORIGIN 0 0 0\nSPACING 1 1 1\nSCALARS s t\n", true)
            .unwrap_err(),
        VTKparseError::MalformedFormat(HeaderField::PointData)
    );
    assert_eq!(
        parse(b"DIMENSIONS 1 1 1\nORIGIN 0 0 0\nSPACING 1 1 1\nPOINT_DATA 1\nVECTORS v t\n", true)
            .unwrap_err(),
        VTKparseError::MalformedFormat(HeaderField::Scalars)
    );
    assert_eq!(
        parse(
            b"DIMENSIONS 1 1 1\nORIGIN 0 0 0\nSPACING 1 1 1\nPOINT_DATA 1\nSCALARS s unsigned_char\nCOLOR_SCALARS c 1\n",
            true,
        )
        .unwrap_err(),
        VTKparseError::MalformedFormat(HeaderField::LookupTable)
    );
}

#[test]
fn scalars_line_without_name_or_type_is_malformed() {
    let head = b"DIMENSIONS 1 1 1\nORIGIN 0 0 0\nSPACING 1 1 1\nPOINT_DATA 1\n";
    let mut f1 = head.to_vec();
    f1.extend_from_slice(b"SCALARS \n");
    assert_eq!(
        parse(&f1, true).unwrap_err(),
        VTKparseError::MalformedFormat(HeaderField::ScalarName)
    );
    let mut f2 = head.to_vec();
    f2.extend_from_slice(b"SCALARS s\n");
    assert_eq!(
        parse(&f2, true).unwrap_err(),
        VTKparseError::MalformedFormat(HeaderField::ScalarType)
    );
}

#[test]
fn dataset_keyword_is_case_normalized() {
    let d = dataset_parse(b"DATASET structured_grid\n", true).unwrap();
    assert!(matches!(d, Datatype::StructuredGrid));
}

#[test]
fn recognized_dataset_kinds_are_markers() {
    assert!(matches!(
        dataset_parse(b"DATASET RECTILINEAR_GRID\n", true).unwrap(),
        Datatype::RectilinearGrid
    ));
    assert!(matches!(
        dataset_parse(b"DATASET POLYGONAL_DATA\n", true).unwrap(),
        Datatype::PolyData
    ));
    assert!(matches!(
        dataset_parse(b"DATASET UNSTRUCTURED_GRID\n", true).unwrap(),
        Datatype::UnstructuredGrid
    ));
    assert!(matches!(dataset_parse(b"DATASET FIELD\n", true).unwrap(), Datatype::Field));
}

#[test]
fn unknown_dataset_kind_is_malformed() {
    let err = dataset_parse(b"DATASET TRIANGLE_SOUP\n", true).unwrap_err();
    assert_eq!(err, VTKparseError::MalformedFormat(HeaderField::Dataset));
}

#[test]
fn structured_points_accessor_is_none_for_markers() {
    let data = decode(b"# vtk DataFile Version 1.0\nc\nBINARY\nDATASET FIELD\n").unwrap();
    assert!(data.structured_points().is_none());
}

#[test]
fn error_messages_name_the_failure() {
    assert_eq!(
        VTKparseError::UnrecognizedFormat.message(),
        "version prefix is not recognized"
    );
    assert_eq!(
        VTKparseError::MalformedFormat(HeaderField::Dimensions).message(),
        "does not contain dimensions"
    );
    assert_eq!(
        VTKparseError::NotImplemented(Unsupported::AsciiPayload).message(),
        "ASCII extraction is not implemented"
    );
    assert_eq!(
        VTKparseError::InconsistentPayloadLength { expected: 8, actual: 7 }.message(),
        "number of elements in binary payload is not correct"
    );
    assert_eq!(
        VTKparseError::InconsistentDimensions { declared: 7, nx: 2, ny: 2, nz: 2 }.message(),
        "point count does not match the dimensions"
    );
    assert_eq!(VTKparseError::IoFailure.message(), "stream could not be read");
    assert_eq!(
        VTKparseError::IntegerParseFailure.message(),
        "version component is not an integer"
    );
}
