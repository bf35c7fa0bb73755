//! Parameters whose values are supplied at execution, in pieces.

use mssql_odbc::conversion::dae::{
    dae_length_limit, dae_plan, dae_streamed_declaration, utf16_units_of_utf8_byte, DaeBound,
    DaeLengthLimit, DaePlan, PadUnit, StreamedSqlType,
};
use mssql_odbc::conversion::param_convert::{
    trim_blank_overflow, trim_zero_overflow, AppText, SqlType,
};
use mssql_odbc::conversion::param_error::{ParamBuildError, SQLSTATE_HYC00};
use mssql_odbc::conversion::transcode::{
    incomplete_utf16_tail, incomplete_utf8_tail, DaeSource, DaeTarget, DaeTranscode, Encoded,
    SqlCollation,
};
use mssql_odbc::odbc_types::{
    SQL_BIGINT, SQL_BINARY, SQL_CHAR, SQL_C_BINARY, SQL_C_CHAR, SQL_C_LONG, SQL_C_WCHAR,
    SQL_INTEGER, SQL_LONGVARBINARY, SQL_LONGVARCHAR, SQL_PREC_BIGCHARBINARY, SQL_PREC_NCHAR,
    SQL_SS_VECTOR, SQL_VARBINARY, SQL_VARCHAR, SQL_WCHAR, SQL_WLONGVARCHAR, SQL_WVARCHAR,
};

/// Re-encodes to the bytes of the wire, with Windows-1252 for every code page.
struct Transcoder(DaeTranscode);

impl Transcoder {
    fn new(c_type: i16, sql_type: i16, collation: SqlCollation) -> Self {
        Self(DaeTranscode::new(c_type, sql_type, collation))
    }

    fn is_passthrough(&self) -> bool {
        self.0.is_passthrough()
    }

    fn push(&self, carry: &mut Vec<u8>, chunk: &[u8]) -> Vec<u8> {
        wire_bytes(self.0.push(carry, chunk))
    }

    fn finish(&self, carry: &mut Vec<u8>) -> Vec<u8> {
        wire_bytes(self.0.finish(carry))
    }
}

fn wire_bytes(encoded: Encoded) -> Vec<u8> {
    match encoded {
        Encoded::Bytes(bytes) => bytes,
        Encoded::Text(text) => text
            .into_iter()
            .map(|c| u8::try_from(u32::from(c)).unwrap_or(b'?'))
            .collect(),
    }
}

fn utf8_collation() -> SqlCollation {
    SqlCollation {
        info: 0,
        lcid_language_id: 0,
        col_flags: 0x40,
        sort_id: 0,
    }
}

fn windows_1252_collation() -> SqlCollation {
    SqlCollation {
        info: 0x0409,
        lcid_language_id: 0,
        col_flags: 0,
        sort_id: 0,
    }
}

#[test]
fn dae_plan_covers_the_supported_c_types() {
    assert_eq!(
        dae_plan(SQL_C_CHAR, SQL_VARCHAR),
        Ok(DaePlan::Stream(StreamedSqlType::VarcharMax))
    );
    assert_eq!(
        dae_plan(SQL_C_WCHAR, SQL_WVARCHAR),
        Ok(DaePlan::Stream(StreamedSqlType::NVarcharMax))
    );
    assert_eq!(
        dae_plan(SQL_C_BINARY, SQL_VARBINARY),
        Ok(DaePlan::Stream(StreamedSqlType::VarBinaryMax))
    );

    let err = dae_plan(SQL_C_LONG, SQL_VARCHAR).unwrap_err();
    assert!(matches!(err, ParamBuildError::UnsupportedCType(SQL_C_LONG)));
    assert_eq!(err.diag().state, SQLSTATE_HYC00);
}

#[test]
fn dae_plan_streams_every_partial_length_type() {
    for (c_type, sql_type) in [
        (SQL_C_CHAR, SQL_VARCHAR),
        (SQL_C_CHAR, SQL_LONGVARCHAR),
        (SQL_C_WCHAR, SQL_WVARCHAR),
        (SQL_C_WCHAR, SQL_WLONGVARCHAR),
        (SQL_C_BINARY, SQL_VARBINARY),
        (SQL_C_BINARY, SQL_LONGVARBINARY),
    ] {
        assert!(
            matches!(dae_plan(c_type, sql_type), Ok(DaePlan::Stream(_))),
            "{c_type}/{sql_type} is PLP-framable and should stream"
        );
    }
}

#[test]
fn dae_plan_buffers_what_cannot_be_plp_framed() {
    for (c_type, sql_type) in [
        (SQL_C_CHAR, SQL_CHAR),
        (SQL_C_WCHAR, SQL_WCHAR),
        (SQL_C_BINARY, SQL_BINARY),
        (SQL_C_CHAR, SQL_INTEGER),
        (SQL_C_WCHAR, SQL_BIGINT),
    ] {
        assert_eq!(
            dae_plan(c_type, sql_type),
            Ok(DaePlan::Buffer),
            "{c_type}/{sql_type} cannot be PLP-framed"
        );
    }
}

#[test]
fn dae_streamed_declaration_narrows_only_a_bounded_parameter() {
    assert_eq!(dae_streamed_declaration(SQL_VARCHAR, 0), Ok(None));
    assert_eq!(
        dae_streamed_declaration(SQL_VARCHAR, 10),
        Ok(Some(SqlType::Varchar(None, 10)))
    );
    assert_eq!(
        dae_streamed_declaration(SQL_WVARCHAR, 10),
        Ok(Some(SqlType::NVarchar(None, 10)))
    );
    assert_eq!(
        dae_streamed_declaration(SQL_VARBINARY, 10),
        Ok(Some(SqlType::VarBinary(None, 10)))
    );
    assert_eq!(dae_streamed_declaration(SQL_LONGVARCHAR, 10), Ok(None));
}

#[test]
fn transcode_carries_a_split_utf8_sequence_into_the_next_chunk() {
    let transcode = Transcoder::new(SQL_C_CHAR, SQL_WVARCHAR, SqlCollation::default());
    let mut carry = Vec::new();
    let first = transcode.push(&mut carry, &[b'c', b'a', b'f', 0xC3]);
    assert_eq!(
        first,
        b"c\0a\0f\0".to_vec(),
        "the partial byte is held back"
    );
    let second = transcode.push(&mut carry, &[0xA9]);
    assert_eq!(second, vec![0xE9, 0x00], "the completed sequence follows");
    assert!(transcode.finish(&mut carry).is_empty());
}

#[test]
fn transcode_carries_every_utf8_sequence_width() {
    let transcode = Transcoder::new(SQL_C_CHAR, SQL_WVARCHAR, SqlCollation::default());
    for split in 1..4 {
        let mut carry = Vec::new();
        let full = "\u{1F600}".as_bytes();
        let mut out = transcode.push(&mut carry, &full[..split]);
        out.extend(transcode.push(&mut carry, &full[split..]));
        out.extend(transcode.finish(&mut carry));
        assert_eq!(
            out,
            vec![0x3D, 0xD8, 0x00, 0xDE],
            "split after {split} byte(s)"
        );
    }
}

#[test]
fn transcode_carries_a_split_utf16_unit() {
    let transcode = Transcoder::new(SQL_C_WCHAR, SQL_VARCHAR, SqlCollation::default());
    let mut carry = Vec::new();
    assert!(transcode.push(&mut carry, &[0xE9]).is_empty());
    assert_eq!(transcode.push(&mut carry, &[0x00]), vec![0xE9]);
    assert!(transcode.finish(&mut carry).is_empty());

    let pair = [0x3D, 0xD8, 0x00, 0xDE];
    let mut whole_carry = Vec::new();
    let whole = transcode.push(&mut whole_carry, &pair);
    assert!(transcode.finish(&mut whole_carry).is_empty());
    for split in 1..pair.len() {
        let mut carry = Vec::new();
        let mut out = transcode.push(&mut carry, &pair[..split]);
        out.extend(transcode.push(&mut carry, &pair[split..]));
        out.extend(transcode.finish(&mut carry));
        assert_eq!(out, whole, "split after {split} byte(s) changed the value");
    }
}

#[test]
fn transcode_flushes_a_truncated_tail_as_a_replacement() {
    let transcode = Transcoder::new(SQL_C_CHAR, SQL_WVARCHAR, SqlCollation::default());
    let mut carry = Vec::new();
    assert!(transcode.push(&mut carry, &[0xC3]).is_empty());
    assert_eq!(transcode.finish(&mut carry), vec![0xFD, 0xFF], "U+FFFD");
}

#[test]
fn transcode_passes_matching_encodings_through() {
    let collation = SqlCollation::default();
    assert!(Transcoder::new(SQL_C_BINARY, SQL_VARBINARY, collation).is_passthrough());
    assert!(Transcoder::new(SQL_C_WCHAR, SQL_WVARCHAR, collation).is_passthrough());
    assert!(!Transcoder::new(SQL_C_CHAR, SQL_WVARCHAR, collation).is_passthrough());
}

#[test]
fn dae_length_limit_scales_column_size_by_the_buffer_unit() {
    let limit = dae_length_limit(SQL_C_BINARY, SQL_VARBINARY, 2)
        .unwrap()
        .expect("a bounded varbinary is limited");
    assert_eq!(limit.bound, DaeBound::Bytes(2));
    assert_eq!(limit.pad, PadUnit::Zero);

    let limit = dae_length_limit(SQL_C_CHAR, SQL_VARCHAR, 4)
        .unwrap()
        .expect("a bounded varchar is limited");
    assert_eq!(limit.bound, DaeBound::Utf16Units(4));
    assert_eq!(limit.pad, PadUnit::Blank);

    let limit = dae_length_limit(SQL_C_WCHAR, SQL_WVARCHAR, 4)
        .unwrap()
        .expect("a bounded nvarchar is limited");
    assert_eq!(limit.bound, DaeBound::Bytes(8));
    assert_eq!(limit.pad, PadUnit::WideBlank);
}

#[test]
fn dae_length_limit_is_absent_for_the_max_declarations() {
    for (c_type, sql_type, column_size) in [
        (SQL_C_BINARY, SQL_VARBINARY, 0),
        (SQL_C_CHAR, SQL_VARCHAR, 0),
        (SQL_C_WCHAR, SQL_WVARCHAR, 0),
        (SQL_C_BINARY, SQL_VARBINARY, SQL_PREC_BIGCHARBINARY + 1),
        (SQL_C_CHAR, SQL_VARCHAR, SQL_PREC_BIGCHARBINARY + 1),
        (SQL_C_WCHAR, SQL_WVARCHAR, SQL_PREC_NCHAR + 1),
    ] {
        assert_eq!(
            dae_length_limit(c_type, sql_type, column_size).unwrap(),
            None,
            "{c_type} -> {sql_type} at {column_size} should be unbounded"
        );
    }
}

#[test]
fn dae_length_limit_bounds_the_long_types_by_column_size() {
    let limit = dae_length_limit(SQL_C_BINARY, SQL_LONGVARBINARY, 3)
        .unwrap()
        .expect("image is bounded by ColumnSize");
    assert_eq!(limit.bound, DaeBound::Bytes(3));

    let limit = dae_length_limit(SQL_C_CHAR, SQL_LONGVARCHAR, 3)
        .unwrap()
        .expect("text is bounded by ColumnSize");
    assert_eq!(limit.bound, DaeBound::Utf16Units(3));
}

#[test]
fn dae_length_limit_rejects_a_zero_size_on_the_fixed_width_types() {
    for (c_type, sql_type) in [
        (SQL_C_BINARY, SQL_BINARY),
        (SQL_C_CHAR, SQL_CHAR),
        (SQL_C_WCHAR, SQL_WCHAR),
    ] {
        let err = dae_length_limit(c_type, sql_type, 0).unwrap_err();
        assert!(matches!(err, ParamBuildError::InvalidParameterSize(0)));
    }
}

#[test]
fn dae_limit_fit_measures_the_accumulated_total() {
    let limit = dae_length_limit(SQL_C_BINARY, SQL_VARBINARY, 4)
        .unwrap()
        .unwrap();

    assert_eq!(limit.fit(&[1, 2, 3], 0).unwrap(), (&[1, 2, 3][..], 3));
    assert_eq!(
        limit.fit(&[4, 5, 6], 3).unwrap_err(),
        ParamBuildError::StringTruncation
    );
}

#[test]
fn dae_limit_fit_trims_padding_and_reports_anything_else() {
    let binary = dae_length_limit(SQL_C_BINARY, SQL_VARBINARY, 2)
        .unwrap()
        .unwrap();
    assert_eq!(binary.fit(&[1, 2, 0, 0], 0).unwrap(), (&[1, 2][..], 2));
    assert_eq!(
        binary.fit(&[1, 2, 0, 3], 0).unwrap_err(),
        ParamBuildError::StringTruncation
    );

    let narrow = dae_length_limit(SQL_C_CHAR, SQL_VARCHAR, 2)
        .unwrap()
        .unwrap();
    assert_eq!(narrow.fit(b"ab  ", 0).unwrap(), (&b"ab"[..], 2));
    assert_eq!(
        narrow.fit(b"abcd", 0).unwrap_err(),
        ParamBuildError::StringTruncation
    );

    let wide = dae_length_limit(SQL_C_WCHAR, SQL_WVARCHAR, 1)
        .unwrap()
        .unwrap();
    assert_eq!(
        wide.fit(&[b'a', 0, b' ', 0], 0).unwrap(),
        (&[b'a', 0][..], 2)
    );
    assert_eq!(
        wide.fit(&[b'a', 0, b'b', 0], 0).unwrap_err(),
        ParamBuildError::StringTruncation
    );
}

#[test]
fn dae_limit_fit_measures_a_narrow_buffer_in_utf16_units() {
    let limit = dae_length_limit(SQL_C_CHAR, SQL_VARCHAR, 1)
        .unwrap()
        .unwrap();
    assert_eq!(limit.fit("é".as_bytes(), 0).unwrap(), ("é".as_bytes(), 1));

    let limit = dae_length_limit(SQL_C_CHAR, SQL_VARCHAR, 4)
        .unwrap()
        .unwrap();
    assert_eq!(limit.fit("café".as_bytes(), 0).unwrap().1, 4);
    assert_eq!(limit.fit("𝄞ab".as_bytes(), 0).unwrap().1, 4);
}

#[test]
fn dae_limit_fit_counts_a_split_character_once() {
    let limit = dae_length_limit(SQL_C_CHAR, SQL_VARCHAR, 2)
        .unwrap()
        .unwrap();
    let (_, first) = limit.fit(&[0xC3], 0).unwrap();
    assert_eq!(first, 1, "the lead pays for the character");
    let (_, second) = limit.fit(&[0xA9], first).unwrap();
    assert_eq!(second, 0, "the continuation is already paid for");
    assert_eq!(limit.fit(b"z", first + second).unwrap().1, 1);
}

#[test]
fn a_passthrough_pairing_needs_no_transcode() {
    let collation = SqlCollation::default();
    for (c_type, sql_type) in [
        (SQL_C_BINARY, SQL_VARBINARY),
        (SQL_C_BINARY, SQL_LONGVARBINARY),
        (SQL_C_WCHAR, SQL_WVARCHAR),
    ] {
        assert!(
            Transcoder::new(c_type, sql_type, collation).is_passthrough(),
            "{c_type} -> {sql_type} is already the wire's bytes"
        );
    }

    assert!(
        !Transcoder::new(SQL_C_WCHAR, SQL_VARCHAR, collation).is_passthrough(),
        "a wide buffer against a narrow target has to be re-encoded"
    );
}

#[test]
fn dae_length_limit_measures_a_wideness_mismatch() {
    for sql_type in [SQL_WVARCHAR, SQL_WCHAR, SQL_WLONGVARCHAR] {
        assert_eq!(
            dae_length_limit(SQL_C_CHAR, sql_type, 10).unwrap(),
            Some(DaeLengthLimit {
                bound: DaeBound::Utf16Units(10),
                pad: PadUnit::Blank,
            }),
            "SQL_C_CHAR -> {sql_type} bounds 10 UTF-16 units of UTF-8"
        );
    }

    for sql_type in [SQL_VARCHAR, SQL_CHAR, SQL_LONGVARCHAR] {
        assert_eq!(
            dae_length_limit(SQL_C_WCHAR, sql_type, 10).unwrap(),
            Some(DaeLengthLimit {
                bound: DaeBound::Bytes(20),
                pad: PadUnit::WideBlank,
            }),
            "SQL_C_WCHAR -> {sql_type} bounds 10 units as 20 buffer bytes"
        );
    }
}

#[test]
fn dae_length_limit_is_absent_across_families() {
    for (c_type, sql_type) in [
        (SQL_C_BINARY, SQL_VARCHAR),
        (SQL_C_BINARY, SQL_WVARCHAR),
        (SQL_C_CHAR, SQL_VARBINARY),
        (SQL_C_WCHAR, SQL_VARBINARY),
    ] {
        assert_eq!(
            dae_length_limit(c_type, sql_type, 10).unwrap(),
            None,
            "{c_type} -> {sql_type} counts different things on each side"
        );
    }
}

#[test]
fn dae_limit_fit_admits_only_padding_past_the_budget() {
    let limit = dae_length_limit(SQL_C_BINARY, SQL_VARBINARY, 2)
        .unwrap()
        .unwrap();
    assert!(limit.fit(&[0, 0], 2).unwrap().0.is_empty());
    assert_eq!(
        limit.fit(&[0, 1], 2).unwrap_err(),
        ParamBuildError::StringTruncation
    );
}

#[test]
fn dae_limit_fit_accepts_a_pad_unit_split_across_chunks() {
    let wide = dae_length_limit(SQL_C_WCHAR, SQL_WVARCHAR, 1)
        .unwrap()
        .unwrap();
    assert_eq!(
        wide.fit(&[b'a', 0, b' '], 0).unwrap(),
        (&[b'a', 0][..], 2),
        "a split blank is padding, not truncation"
    );
    assert_eq!(
        wide.fit(&[b'a', 0, b'z'], 0).unwrap_err(),
        ParamBuildError::StringTruncation
    );
}

#[test]
fn cross_family_dae_is_accepted() {
    for (c_type, sql_type) in [
        (SQL_C_CHAR, SQL_WVARCHAR),
        (SQL_C_CHAR, SQL_WLONGVARCHAR),
        (SQL_C_WCHAR, SQL_VARCHAR),
        (SQL_C_WCHAR, SQL_LONGVARCHAR),
        (SQL_C_BINARY, SQL_VARCHAR),
        (SQL_C_CHAR, SQL_VARBINARY),
    ] {
        assert!(
            matches!(dae_plan(c_type, sql_type), Ok(DaePlan::Stream(_))),
            "{c_type} -> {sql_type} should stream"
        );
    }

    for (c_type, sql_type) in [
        (SQL_C_CHAR, SQL_WCHAR),
        (SQL_C_WCHAR, SQL_CHAR),
        (SQL_C_CHAR, SQL_INTEGER),
        (SQL_C_WCHAR, SQL_BIGINT),
    ] {
        assert_eq!(
            dae_plan(c_type, sql_type),
            Ok(DaePlan::Buffer),
            "{c_type} -> {sql_type} should buffer"
        );
    }

    let err = dae_plan(SQL_C_CHAR, SQL_SS_VECTOR).unwrap_err();
    assert_eq!(err.diag().state, SQLSTATE_HYC00);
}

#[test]
fn wideness_mismatched_dae_streams_and_transcodes() {
    for (c_type, sql_type, streamed) in [
        (SQL_C_WCHAR, SQL_VARCHAR, StreamedSqlType::VarcharMax),
        (SQL_C_WCHAR, SQL_LONGVARCHAR, StreamedSqlType::VarcharMax),
        (SQL_C_CHAR, SQL_WVARCHAR, StreamedSqlType::NVarcharMax),
        (SQL_C_CHAR, SQL_WLONGVARCHAR, StreamedSqlType::NVarcharMax),
    ] {
        assert_eq!(
            dae_plan(c_type, sql_type),
            Ok(DaePlan::Stream(streamed)),
            "{c_type} -> {sql_type}"
        );
        assert!(
            !Transcoder::new(c_type, sql_type, utf8_collation()).is_passthrough(),
            "{c_type} -> {sql_type} must re-encode rather than pass through"
        );
    }
}

#[test]
fn transcode_wide_round_trips() {
    let wide_bytes: Vec<u8> = "caf\u{e9}"
        .encode_utf16()
        .flat_map(u16::to_le_bytes)
        .collect();
    let transcode = Transcoder::new(SQL_C_WCHAR, SQL_VARCHAR, utf8_collation());
    let mut carry = Vec::new();
    let mut narrow = transcode.push(&mut carry, &wide_bytes);
    narrow.extend(transcode.finish(&mut carry));
    assert_eq!(String::from_utf8(narrow).unwrap(), "caf\u{e9}");

    let transcode = Transcoder::new(SQL_C_CHAR, SQL_WVARCHAR, utf8_collation());
    let mut carry = Vec::new();
    let mut wide = transcode.push(&mut carry, "caf\u{e9}".as_bytes());
    wide.extend(transcode.finish(&mut carry));
    let wide_units: Vec<u16> = wide
        .chunks_exact(2)
        .map(|p| u16::from_le_bytes([p[0], p[1]]))
        .collect();
    assert_eq!(String::from_utf16(&wide_units).unwrap(), "caf\u{e9}");
}

#[test]
fn transcode_narrow_uses_the_connection_collation() {
    let wide_bytes: Vec<u8> = "caf\u{e9}"
        .encode_utf16()
        .flat_map(u16::to_le_bytes)
        .collect();
    let transcode = Transcoder::new(SQL_C_WCHAR, SQL_VARCHAR, windows_1252_collation());
    let mut carry = Vec::new();
    let mut narrow = transcode.push(&mut carry, &wide_bytes);
    narrow.extend(transcode.finish(&mut carry));
    assert_eq!(narrow, b"caf\xe9");

    let transcode = Transcoder::new(SQL_C_CHAR, SQL_VARCHAR, windows_1252_collation());
    let mut carry = Vec::new();
    let mut narrow = transcode.push(&mut carry, "caf\u{e9}".as_bytes());
    narrow.extend(transcode.finish(&mut carry));
    assert_eq!(narrow, b"caf\xe9");
}

#[test]
fn a_code_page_target_is_handed_on_as_text() {
    let transcode = DaeTranscode::new(SQL_C_WCHAR, SQL_VARCHAR, windows_1252_collation());
    assert_eq!(transcode.source, DaeSource::Utf16);
    assert_eq!(transcode.target, DaeTarget::Narrow(windows_1252_collation()));
    let mut carry = Vec::new();
    assert_eq!(
        transcode.push(&mut carry, &[0xE9, 0, 0x3D, 0xD8]),
        Encoded::Text(vec!['\u{e9}'])
    );
    assert_eq!(carry, vec![0x3D, 0xD8]);
    assert_eq!(
        transcode.push(&mut carry, &[0x00, 0xDE]),
        Encoded::Text(vec!['\u{1F600}'])
    );
    assert!(carry.is_empty());
}

#[test]
fn a_matching_encoding_is_not_touched() {
    let transcode = DaeTranscode::new(SQL_C_BINARY, SQL_VARCHAR, utf8_collation());
    assert!(transcode.is_passthrough());
    let mut carry = Vec::new();
    assert_eq!(
        transcode.push(&mut carry, &[0xFF, 0xC3]),
        Encoded::Bytes(vec![0xFF, 0xC3])
    );
    assert_eq!(transcode.finish(&mut carry), Encoded::Bytes(Vec::new()));
}

#[test]
fn incomplete_tails_are_measured() {
    assert_eq!(incomplete_utf8_tail(b"abc"), 0);
    assert_eq!(incomplete_utf8_tail(&[b'a', 0xE2, 0x98]), 2);
    assert_eq!(incomplete_utf8_tail(&[0xE2, 0x98, 0x95]), 0);
    assert_eq!(incomplete_utf8_tail(&[0xF0, 0x9F, 0x98]), 3);
    assert_eq!(incomplete_utf8_tail(&[0x80, 0x80, 0x80, 0x80]), 0);
    assert_eq!(incomplete_utf16_tail(&[]), 0);
    assert_eq!(incomplete_utf16_tail(&[1, 0, 2]), 1);
    assert_eq!(incomplete_utf16_tail(&[0x3D, 0xD8]), 2);
    assert_eq!(incomplete_utf16_tail(&[0x3D, 0xD8, 0x00]), 3);
    assert_eq!(incomplete_utf16_tail(&[0x00, 0xDE]), 0);
}

#[test]
fn any_cut_of_a_text_gives_the_same_bytes() {
    let text = "a\u{e9}\u{2615}\u{1F600}z";
    let transcode = Transcoder::new(SQL_C_CHAR, SQL_WVARCHAR, SqlCollation::default());
    let whole: Vec<u8> = text.encode_utf16().flat_map(u16::to_le_bytes).collect();
    let bytes = text.as_bytes();
    for first in 0..=bytes.len() {
        for second in first..=bytes.len() {
            let mut carry = Vec::new();
            let mut out = transcode.push(&mut carry, &bytes[..first]);
            out.extend(transcode.push(&mut carry, &bytes[first..second]));
            out.extend(transcode.push(&mut carry, &bytes[second..]));
            out.extend(transcode.finish(&mut carry));
            assert_eq!(out, whole, "cut at {first} and {second}");
        }
    }
}

#[test]
fn any_cut_of_invalid_bytes_gives_the_same_bytes() {
    let samples: [u8; 12] =
        [0x41, 0x80, 0x9F, 0xA0, 0xBF, 0xC0, 0xC3, 0xE0, 0xE2, 0xED, 0xF0, 0xFF];
    let transcode = Transcoder::new(SQL_C_CHAR, SQL_WVARCHAR, SqlCollation::default());
    for choice in 0..samples.len().pow(4) {
        let bytes: Vec<u8> =
            (0..4).map(|k| samples[choice / samples.len().pow(k) % samples.len()]).collect();
        let whole: Vec<u8> = String::from_utf8_lossy(&bytes)
            .encode_utf16()
            .flat_map(u16::to_le_bytes)
            .collect();
        for cut in 0..=bytes.len() {
            let mut carry = Vec::new();
            let mut out = transcode.push(&mut carry, &bytes[..cut]);
            out.extend(transcode.push(&mut carry, &bytes[cut..]));
            out.extend(transcode.finish(&mut carry));
            assert_eq!(out, whole, "{bytes:?} cut at {cut}");
            assert!(carry.is_empty());
        }
    }
}

#[test]
fn a_byte_of_utf8_pays_for_its_units() {
    assert_eq!(utf16_units_of_utf8_byte(b'a'), 1);
    assert_eq!(utf16_units_of_utf8_byte(0x80), 0);
    assert_eq!(utf16_units_of_utf8_byte(0xE2), 1);
    assert_eq!(utf16_units_of_utf8_byte(0xF0), 2);
    assert_eq!(utf16_units_of_utf8_byte(0xFF), 1);
}

#[test]
fn only_a_collected_value_is_buffered() {
    assert!(DaePlan::Buffer.is_buffered());
    assert!(!DaePlan::Stream(StreamedSqlType::VarcharMax).is_buffered());
}

#[test]
fn byte_units_are_the_utf16_length() {
    for text in ["", "abc", "\u{E9}\u{20AC}", "a\u{1F600}b", "\u{1F600}\u{10FFFF}"] {
        let units: usize = text.bytes().map(utf16_units_of_utf8_byte).sum();
        assert_eq!(units, text.encode_utf16().count(), "{text:?}");
    }
}

#[test]
fn an_incomplete_tail_is_the_cut_character() {
    let text = "a\u{E9}\u{20AC}\u{1F600}b";
    for cut in 0..=text.len() {
        let whole = (0..=cut).rev().find(|at| text.is_char_boundary(*at)).unwrap();
        assert_eq!(incomplete_utf8_tail(&text.as_bytes()[..cut]), cut - whole, "{cut}");
    }
    let wide: Vec<u8> = text.encode_utf16().flat_map(u16::to_le_bytes).collect();
    let mut starts = vec![0];
    for c in text.chars() {
        starts.push(starts.last().unwrap() + 2 * c.len_utf16());
    }
    for cut in 0..=wide.len() {
        let whole = *starts.iter().rev().find(|at| **at <= cut).unwrap();
        assert_eq!(incomplete_utf16_tail(&wide[..cut]), cut - whole, "{cut}");
    }
}

#[test]
fn a_piece_is_fitted_as_the_whole_is_trimmed() {
    for text in ["", "ab", "ab  ", "abc ", "\u{E9} ", "\u{1F600}  ", " a  ", "   "] {
        let wide: Vec<u8> = text.encode_utf16().flat_map(u16::to_le_bytes).collect();
        for column_size in 1..=4 {
            for (c_type, bytes, whole) in [
                (SQL_C_CHAR, text.as_bytes().to_vec(), AppText::Utf8(text.as_bytes().to_vec())),
                (SQL_C_WCHAR, wide.clone(), AppText::Utf16(wide.clone())),
            ] {
                let limit = dae_length_limit(c_type, SQL_VARCHAR, column_size).unwrap().unwrap();
                let kept = limit.fit(&bytes, 0).map(|(kept, _)| kept.to_vec());
                let trimmed = trim_blank_overflow(whole, column_size).map(|text| match text {
                    AppText::Utf8(bytes) | AppText::Utf16(bytes) => bytes,
                });
                assert_eq!(kept, trimmed, "{text:?} {c_type} {column_size}");
            }
        }
    }
    for bytes in [vec![], vec![1, 2], vec![1, 0, 0], vec![1, 0, 2], vec![0; 5]] {
        for column_size in 1..=4 {
            let limit = dae_length_limit(SQL_C_BINARY, SQL_VARBINARY, column_size).unwrap().unwrap();
            assert_eq!(
                limit.fit(&bytes, 0).map(|(kept, _)| kept.to_vec()),
                trim_zero_overflow(bytes.clone(), column_size),
                "{bytes:?} {column_size}"
            );
        }
    }
}
