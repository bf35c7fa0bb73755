//! Conversion of bound parameters to the values sent to the server.

use mssql_odbc::conversion::error::ConvError;
use mssql_odbc::conversion::param_buffer::BoundParam;
use mssql_odbc::conversion::param_convert::{
    bound_param_to_rpc, bound_param_to_value, buffered_dae_to_rpc, convert_character_sql,
    is_supported_conversion, param_number_text, sql_family, trim_blank_overflow, typed_null,
    vector_metadata, AppText, EncodingType, RpcTypeMetadata,
    SqlFamily, SqlString, SqlType, VectorBaseType,
};
use mssql_odbc::conversion::param_error::ParamBuildError;
use mssql_odbc::odbc_types::{
    SqlLen, SqlSmallInt, SqlULen, SQL_BIGINT, SQL_BINARY, SQL_CHAR, SQL_C_BINARY, SQL_C_CHAR,
    SQL_C_DEFAULT, SQL_C_FLOAT, SQL_C_SBIGINT, SQL_C_SLONG, SQL_C_STINYINT, SQL_C_TINYINT,
    SQL_C_UBIGINT, SQL_C_WCHAR, SQL_DATA_AT_EXEC, SQL_DECIMAL, SQL_DEFAULT_PARAM, SQL_INTEGER,
    SQL_LEN_DATA_AT_EXEC_OFFSET, SQL_LONGVARBINARY, SQL_LONGVARCHAR, SQL_NO_TOTAL, SQL_NTS,
    SQL_NULL_DATA, SQL_NUMERIC, SQL_PARAM_INPUT, SQL_PREC_BIGCHARBINARY, SQL_PREC_NCHAR,
    SQL_SMALLINT, SQL_SS_TIME2, SQL_SS_TIMESTAMPOFFSET, SQL_SS_UDT, SQL_SS_VECTOR_ELEMENT_SIZE,
    SQL_SS_VECTOR_HEADER_SIZE, SQL_TINYINT, SQL_TYPE_TIMESTAMP, SQL_VARBINARY, SQL_VARCHAR,
    SQL_WCHAR, SQL_WLONGVARCHAR, SQL_WVARCHAR,
};

/// A column size past every declarable one.
const OVERSIZED_COLUMN_SIZE: SqlULen = 2_147_483_647;

fn param(c_type: SqlSmallInt, value: Option<Vec<u8>>, ind: Option<SqlLen>) -> BoundParam {
    BoundParam {
        input_output_type: SQL_PARAM_INPUT,
        c_type,
        sql_type: 0,
        column_size: 0,
        decimal_digits: 0,
        value,
        buffer_length: 0,
        indicator: ind,
        octet_length: ind,
    }
}

fn default_param(sql_type: SqlSmallInt, ind: Option<SqlLen>) -> BoundParam {
    let mut p = param(SQL_C_CHAR, None, ind);
    p.sql_type = sql_type;
    p
}

fn binary_param(value: Option<Vec<u8>>, ind: Option<SqlLen>) -> BoundParam {
    let mut p = param(SQL_C_BINARY, value, ind);
    p.sql_type = SQL_VARBINARY;
    p
}

fn int_param(
    c_type: SqlSmallInt,
    sql_type: SqlSmallInt,
    value: Vec<u8>,
    ind: SqlLen,
) -> BoundParam {
    let mut p = param(c_type, Some(value), Some(ind));
    p.sql_type = sql_type;
    p
}

/// The double that a binding's number text parses to.
fn double_of(p: &BoundParam) -> Option<u64> {
    let number: String = param_number_text(p)?.into_iter().collect();
    number.parse::<f64>().ok().map(f64::to_bits)
}

fn convert(p: &BoundParam) -> Result<(SqlType, Option<RpcTypeMetadata>), ParamBuildError> {
    bound_param_to_value(p, double_of(p))
}

fn convert_binary(
    sql_type: SqlSmallInt,
    column_size: usize,
    bytes: &[u8],
) -> Result<SqlType, ParamBuildError> {
    let mut p = param(SQL_C_BINARY, Some(bytes.to_vec()), Some(bytes.len() as SqlLen));
    p.sql_type = sql_type;
    p.column_size = column_size;
    convert(&p).map(|(value, _)| value)
}

fn convert_char(
    c_type: SqlSmallInt,
    sql_type: SqlSmallInt,
    column_size: usize,
    text: &str,
) -> Result<SqlType, ParamBuildError> {
    let buffer: Vec<u8> = if c_type == SQL_C_WCHAR {
        text.encode_utf16().flat_map(u16::to_le_bytes).collect()
    } else {
        text.as_bytes().to_vec()
    };
    let length = buffer.len() as SqlLen;
    let mut p = param(c_type, Some(buffer), Some(length));
    p.sql_type = sql_type;
    p.column_size = column_size;
    convert(&p).map(|(value, _)| value)
}

fn convert_int_to_char(
    c_type: SqlSmallInt,
    v: i64,
    sql_type: SqlSmallInt,
    column_size: usize,
) -> Result<SqlType, ParamBuildError> {
    let mut p = int_param(c_type, sql_type, v.to_le_bytes().to_vec(), 0);
    p.column_size = column_size;
    convert(&p).map(|(value, _)| value)
}

fn string_text(s: &SqlString) -> String {
    match s.encoding {
        EncodingType::Utf8 => String::from_utf8(s.bytes.clone()).unwrap(),
        EncodingType::Utf16 => {
            let units: Vec<u16> = s
                .bytes
                .chunks_exact(2)
                .map(|pair| u16::from_le_bytes([pair[0], pair[1]]))
                .collect();
            String::from_utf16(&units).unwrap()
        }
    }
}

fn utf16_bytes(s: &SqlString) -> Option<&[u8]> {
    match s.encoding {
        EncodingType::Utf16 => Some(&s.bytes),
        EncodingType::Utf8 => None,
    }
}

#[test]
fn data_at_exec_not_staged_maps_to_a_driver_error() {
    assert_eq!(
        ParamBuildError::DataAtExecNotStaged.diag().state,
        *b"HY000"
    );
}

#[test]
fn parameter_type_names_the_binary_wire_type() {
    let value = convert_binary(SQL_BINARY, 4, &[1, 2, 3, 4]).unwrap();
    assert_eq!(value, SqlType::Binary(Some(vec![1, 2, 3, 4]), 4));

    let value = convert_binary(SQL_VARBINARY, 4, &[1, 2]).unwrap();
    assert_eq!(value, SqlType::VarBinary(Some(vec![1, 2]), 4));

    let value = convert_binary(SQL_VARBINARY, 0, &[1, 2]).unwrap();
    assert_eq!(value, SqlType::VarBinaryMax(Some(vec![1, 2])));

    let value = convert_binary(SQL_LONGVARBINARY, 16, &[1, 2]).unwrap();
    assert_eq!(value, SqlType::VarBinaryMax(Some(vec![1, 2])));
}

#[test]
fn an_all_zero_binary_overflow_is_trimmed_silently() {
    let value = convert_binary(SQL_VARBINARY, 4, &[1, 2, 3, 4, 0, 0, 0]).unwrap();
    assert_eq!(value, SqlType::VarBinary(Some(vec![1, 2, 3, 4]), 4));

    let value = convert_binary(SQL_BINARY, 2, &[0xAB, 0xCD, 0, 0]).unwrap();
    assert_eq!(value, SqlType::Binary(Some(vec![0xAB, 0xCD]), 2));

    let value = convert_binary(SQL_LONGVARBINARY, 2, &[1, 2, 0, 0]).unwrap();
    assert_eq!(value, SqlType::VarBinaryMax(Some(vec![1, 2])));
}

#[test]
fn a_binary_overflow_carrying_data_is_22001() {
    assert_eq!(
        convert_binary(SQL_VARBINARY, 4, &[1, 2, 3, 4, 5]),
        Err(ParamBuildError::StringTruncation)
    );
    assert_eq!(
        convert_binary(SQL_BINARY, 2, &[1, 2, 3]),
        Err(ParamBuildError::StringTruncation)
    );
    assert_eq!(
        convert_binary(SQL_LONGVARBINARY, 2, &[1, 2, 3]),
        Err(ParamBuildError::StringTruncation)
    );
}

#[test]
fn a_partially_zero_binary_overflow_is_22001() {
    assert_eq!(
        convert_binary(SQL_VARBINARY, 3, &[1, 2, 3, 9, 0, 0]),
        Err(ParamBuildError::StringTruncation)
    );
    assert_eq!(
        convert_binary(SQL_VARBINARY, 3, &[1, 2, 3, 0, 0, 9]),
        Err(ParamBuildError::StringTruncation)
    );
    assert_eq!(
        convert_binary(SQL_VARBINARY, 3, &[1, 2, 3, 0, 9, 0]),
        Err(ParamBuildError::StringTruncation)
    );
}

#[test]
fn a_binary_value_that_fits_keeps_its_interior_zeros() {
    let value = convert_binary(SQL_VARBINARY, 4, &[1, 0, 0, 2]).unwrap();
    assert_eq!(value, SqlType::VarBinary(Some(vec![1, 0, 0, 2]), 4));

    let value = convert_binary(SQL_BINARY, 4, &[1, 2]).unwrap();
    assert_eq!(value, SqlType::Binary(Some(vec![1, 2]), 4));
}

#[test]
fn an_empty_binary_value_is_never_truncated() {
    let value = convert_binary(SQL_VARBINARY, 4, &[]).unwrap();
    assert_eq!(value, SqlType::VarBinary(Some(Vec::new()), 4));

    let value = convert_binary(SQL_LONGVARBINARY, 0, &[]).unwrap();
    assert_eq!(value, SqlType::VarBinaryMax(Some(Vec::new())));
}

#[test]
fn an_oversized_varbinary_column_size_widens_to_max() {
    let value = convert_binary(SQL_VARBINARY, SQL_PREC_BIGCHARBINARY, &[1, 2]).unwrap();
    assert_eq!(value, SqlType::VarBinary(Some(vec![1, 2]), 8000));

    let value = convert_binary(SQL_VARBINARY, SQL_PREC_BIGCHARBINARY + 1, &[1, 2]).unwrap();
    assert_eq!(value, SqlType::VarBinaryMax(Some(vec![1, 2])));
}

#[test]
fn a_zero_column_size_on_fixed_binary_is_rejected() {
    assert_eq!(
        convert_binary(SQL_BINARY, 0, &[1, 2]),
        Err(ParamBuildError::InvalidParameterSize(0))
    );
    assert_eq!(
        convert_binary(SQL_BINARY, SQL_PREC_BIGCHARBINARY + 1, &[1, 2]),
        Err(ParamBuildError::InvalidParameterSize(
            SQL_PREC_BIGCHARBINARY + 1
        ))
    );
}

#[test]
fn parameter_type_names_the_character_wire_type() {
    let cases: &[(SqlSmallInt, SqlType)] = &[
        (SQL_CHAR, SqlType::Char(None, 8)),
        (SQL_VARCHAR, SqlType::Varchar(None, 8)),
        (SQL_LONGVARCHAR, SqlType::VarcharMax(None)),
        (SQL_WCHAR, SqlType::NChar(None, 8)),
        (SQL_WVARCHAR, SqlType::NVarchar(None, 8)),
        (SQL_WLONGVARCHAR, SqlType::NVarcharMax(None)),
    ];
    for c_type in [SQL_C_CHAR, SQL_C_WCHAR] {
        for (sql_type, expected) in cases {
            let value = convert_char(c_type, *sql_type, 8, "abc").unwrap();
            assert_eq!(
                std::mem::discriminant(&value),
                std::mem::discriminant(expected),
                "{c_type} -> {sql_type} named the wrong wire type: {value:?}"
            );
        }
    }
}

#[test]
fn cross_family_pairings_transcode() {
    let text = "caf\u{e9} \u{2615}";
    match convert_char(SQL_C_CHAR, SQL_WVARCHAR, 0, text).unwrap() {
        SqlType::NVarcharMax(Some(s)) => assert_eq!(string_text(&s), text),
        other => panic!("expected NVarcharMax(Some), got {other:?}"),
    }
    match convert_char(SQL_C_WCHAR, SQL_VARCHAR, 0, text).unwrap() {
        SqlType::VarcharMax(Some(s)) => assert_eq!(string_text(&s), text),
        other => panic!("expected VarcharMax(Some), got {other:?}"),
    }
}

#[test]
fn unbounded_column_size_selects_the_max_types() {
    assert!(matches!(
        convert_char(SQL_C_CHAR, SQL_VARCHAR, 0, "abc").unwrap(),
        SqlType::VarcharMax(Some(_))
    ));
    assert!(matches!(
        convert_char(SQL_C_WCHAR, SQL_WVARCHAR, 0, "abc").unwrap(),
        SqlType::NVarcharMax(Some(_))
    ));
}

#[test]
fn column_size_at_and_past_the_ceiling() {
    assert!(matches!(
        convert_char(SQL_C_CHAR, SQL_VARCHAR, SQL_PREC_BIGCHARBINARY, "abc").unwrap(),
        SqlType::Varchar(_, 8000)
    ));
    assert!(matches!(
        convert_char(SQL_C_CHAR, SQL_VARCHAR, SQL_PREC_BIGCHARBINARY + 1, "abc").unwrap(),
        SqlType::VarcharMax(_)
    ));
    assert!(matches!(
        convert_char(SQL_C_WCHAR, SQL_WVARCHAR, SQL_PREC_NCHAR, "abc").unwrap(),
        SqlType::NVarchar(_, 4000)
    ));
    assert!(matches!(
        convert_char(SQL_C_WCHAR, SQL_WVARCHAR, SQL_PREC_NCHAR + 1, "abc").unwrap(),
        SqlType::NVarcharMax(_)
    ));
}

#[test]
fn overlong_value_is_22001() {
    for c_type in [SQL_C_CHAR, SQL_C_WCHAR] {
        for sql_type in [SQL_CHAR, SQL_VARCHAR, SQL_WCHAR, SQL_WVARCHAR] {
            let err = convert_char(c_type, sql_type, 3, "abcd").unwrap_err();
            assert!(
                matches!(err, ParamBuildError::StringTruncation),
                "{c_type} -> {sql_type} gave {err:?}"
            );
            assert_eq!(err.diag().state, *b"22001");
        }
    }
}

#[test]
fn cross_family_boundary_is_exact() {
    for (c_type, sql_type) in [
        (SQL_C_CHAR, SQL_WVARCHAR),
        (SQL_C_WCHAR, SQL_VARCHAR),
        (SQL_C_CHAR, SQL_WCHAR),
        (SQL_C_WCHAR, SQL_CHAR),
    ] {
        assert!(
            convert_char(c_type, sql_type, 3, "abc").is_ok(),
            "{c_type} -> {sql_type} rejected a value that exactly fits"
        );
        assert_eq!(
            convert_char(c_type, sql_type, 3, "abcd").unwrap_err(),
            ParamBuildError::StringTruncation,
            "{c_type} -> {sql_type} accepted one unit past the limit"
        );
    }
}

#[test]
fn an_astral_char_costs_two_units_but_four_bytes() {
    let emoji = "\u{1F600}";
    match convert_char(SQL_C_WCHAR, SQL_CHAR, 2, emoji).unwrap() {
        SqlType::Char(Some(s), 2) => {
            assert_eq!(string_text(&s), emoji);
            assert_eq!(string_text(&s).len(), 4);
        }
        other => panic!("expected Char(Some, 2), got {other:?}"),
    }
    assert_eq!(
        convert_char(SQL_C_WCHAR, SQL_CHAR, 1, emoji).unwrap_err(),
        ParamBuildError::StringTruncation
    );
}

#[test]
fn overflowing_blanks_are_trimmed_silently() {
    match convert_char(SQL_C_CHAR, SQL_VARCHAR, 3, "abc   ").unwrap() {
        SqlType::Varchar(Some(s), 3) => assert_eq!(string_text(&s), "abc"),
        other => panic!("expected Varchar(Some, 3), got {other:?}"),
    }
    match convert_char(SQL_C_WCHAR, SQL_WVARCHAR, 3, "abc ").unwrap() {
        SqlType::NVarchar(Some(s), 3) => assert_eq!(string_text(&s), "abc"),
        other => panic!("expected NVarchar(Some, 3), got {other:?}"),
    }
}

#[test]
fn a_partially_blank_overflow_is_truncation() {
    for (c_type, sql_type) in [
        (SQL_C_CHAR, SQL_VARCHAR),
        (SQL_C_CHAR, SQL_WVARCHAR),
        (SQL_C_WCHAR, SQL_WVARCHAR),
        (SQL_C_WCHAR, SQL_VARCHAR),
    ] {
        assert_eq!(
            convert_char(c_type, sql_type, 2, "ab c").unwrap_err(),
            ParamBuildError::StringTruncation,
            "c_type {c_type} -> sql_type {sql_type}"
        );
    }
}

#[test]
fn a_multibyte_narrow_source_trims_blanks_on_a_char_boundary() {
    match convert_char(SQL_C_CHAR, SQL_WVARCHAR, 1, "\u{e9}   ").unwrap() {
        SqlType::NVarchar(Some(s), 1) => assert_eq!(string_text(&s), "\u{e9}"),
        other => panic!("expected NVarchar(Some, 1), got {other:?}"),
    }
    match convert_char(SQL_C_CHAR, SQL_VARCHAR, 1, "\u{e9}   ").unwrap() {
        SqlType::Varchar(Some(s), 1) => assert_eq!(string_text(&s), "\u{e9}"),
        other => panic!("expected Varchar(Some, 1), got {other:?}"),
    }
}

#[test]
fn a_wide_source_is_measured_in_utf16_units_for_both_families() {
    let text = "caf\u{e9}";
    assert!(convert_char(SQL_C_WCHAR, SQL_VARCHAR, 4, text).is_ok());
    assert!(convert_char(SQL_C_WCHAR, SQL_WVARCHAR, 4, text).is_ok());
    assert_eq!(
        convert_char(SQL_C_WCHAR, SQL_VARCHAR, 3, text).unwrap_err(),
        ParamBuildError::StringTruncation
    );
}

#[test]
fn both_character_c_types_measure_a_value_alike() {
    for text in ["caf\u{e9}", "\u{2615}\u{2615}\u{2615}", "\u{1F600}"] {
        let units = text.encode_utf16().count();
        for sql_type in [SQL_VARCHAR, SQL_WVARCHAR] {
            for c_type in [SQL_C_CHAR, SQL_C_WCHAR] {
                assert!(
                    convert_char(c_type, sql_type, units, text).is_ok(),
                    "{c_type} -> {sql_type} rejected {text:?} at its own unit count"
                );
                assert_eq!(
                    convert_char(c_type, sql_type, units - 1, text).unwrap_err(),
                    ParamBuildError::StringTruncation,
                    "{c_type} -> {sql_type} accepted {text:?} one unit past the limit"
                );
            }
        }
    }
}

#[test]
fn a_surrogate_pair_costs_two_units() {
    let emoji = "\u{1F600}";
    assert_eq!(
        convert_char(SQL_C_WCHAR, SQL_WVARCHAR, 1, emoji).unwrap_err(),
        ParamBuildError::StringTruncation
    );
    match convert_char(SQL_C_WCHAR, SQL_WVARCHAR, 2, emoji).unwrap() {
        SqlType::NVarchar(Some(s), 2) => assert_eq!(string_text(&s), emoji),
        other => panic!("expected NVarchar(Some, 2), got {other:?}"),
    }
}

#[test]
fn an_integer_is_formatted_base_ten_into_a_character_target() {
    let cases: &[(i64, &str)] = &[(0, "0"), (7, "7"), (-42, "-42"), (1234567890, "1234567890")];
    for (v, expected) in cases {
        match convert_int_to_char(SQL_C_SBIGINT, *v, SQL_VARCHAR, 32).unwrap() {
            SqlType::Varchar(Some(s), 32) => assert_eq!(&string_text(&s), expected),
            other => panic!("{v}: expected Varchar(Some, 32), got {other:?}"),
        }
    }
}

#[test]
fn an_integer_reaches_a_wide_character_target_as_utf16() {
    match convert_int_to_char(SQL_C_SLONG, -1, SQL_WVARCHAR, 8).unwrap() {
        SqlType::NVarchar(Some(s), 8) => {
            assert_eq!(utf16_bytes(&s), Some(&[b'-', 0, b'1', 0][..]))
        }
        other => panic!("expected NVarchar(Some, 8), got {other:?}"),
    }
}

#[test]
fn an_integer_reaches_every_character_declaration() {
    let cases: &[(SqlSmallInt, SqlType)] = &[
        (SQL_CHAR, SqlType::Char(None, 4)),
        (SQL_VARCHAR, SqlType::Varchar(None, 4)),
        (SQL_LONGVARCHAR, SqlType::VarcharMax(None)),
        (SQL_WCHAR, SqlType::NChar(None, 4)),
        (SQL_WVARCHAR, SqlType::NVarchar(None, 4)),
        (SQL_WLONGVARCHAR, SqlType::NVarcharMax(None)),
    ];
    for (sql_type, expected) in cases {
        let got = convert_int_to_char(SQL_C_SLONG, 12, *sql_type, 4).unwrap();
        assert_eq!(
            std::mem::discriminant(&got),
            std::mem::discriminant(expected),
            "{sql_type} produced {got:?}"
        );
    }
}

#[test]
fn an_integer_too_wide_for_the_declared_length_is_22001() {
    assert_eq!(
        convert_int_to_char(SQL_C_SLONG, 12345, SQL_VARCHAR, 3),
        Err(ParamBuildError::StringTruncation)
    );
    assert_eq!(
        convert_int_to_char(SQL_C_SLONG, -123, SQL_VARCHAR, 3),
        Err(ParamBuildError::StringTruncation)
    );
    assert!(convert_int_to_char(SQL_C_SLONG, 123, SQL_VARCHAR, 3).is_ok());
}

#[test]
fn an_integer_literal_reaches_an_integer_target() {
    for c_type in [SQL_C_CHAR, SQL_C_WCHAR] {
        let cases: &[(&str, SqlType)] = &[
            ("0", SqlType::Int(Some(0))),
            ("42", SqlType::Int(Some(42))),
            ("-42", SqlType::Int(Some(-42))),
            ("+42", SqlType::Int(Some(42))),
            ("   42   ", SqlType::Int(Some(42))),
        ];
        for (text, expected) in cases {
            assert_eq!(
                convert_char(c_type, SQL_INTEGER, 0, text).unwrap(),
                *expected,
                "{c_type}: {text}"
            );
        }
    }
}

#[test]
fn a_literal_reaches_every_integer_declaration() {
    let cases: &[(SqlSmallInt, SqlType)] = &[
        (SQL_TINYINT, SqlType::TinyInt(Some(12))),
        (SQL_SMALLINT, SqlType::SmallInt(Some(12))),
        (SQL_INTEGER, SqlType::Int(Some(12))),
        (SQL_BIGINT, SqlType::BigInt(Some(12))),
    ];
    for (sql_type, expected) in cases {
        assert_eq!(
            convert_char(SQL_C_CHAR, *sql_type, 0, "12").unwrap(),
            *expected
        );
    }
}

#[test]
fn a_dropped_fraction_is_22001_not_a_warning() {
    for text in ["12.7", "-0.5", "0.001"] {
        assert_eq!(
            convert_char(SQL_C_CHAR, SQL_INTEGER, 0, text),
            Err(ParamBuildError::StringTruncation),
            "{text}"
        );
    }
}

#[test]
fn a_zero_fraction_loses_nothing_and_converts() {
    for text in ["12.", "12.0", "12.000", "-12.0"] {
        let expected = if text.starts_with('-') { -12 } else { 12 };
        assert_eq!(
            convert_char(SQL_C_CHAR, SQL_INTEGER, 0, text).unwrap(),
            SqlType::Int(Some(expected)),
            "{text}"
        );
    }
}

#[test]
fn overflow_outranks_a_dropped_fraction() {
    assert_eq!(
        convert_char(SQL_C_CHAR, SQL_TINYINT, 0, "999.5"),
        Err(ParamBuildError::Value(ConvError::OutOfRange))
    );
}

#[test]
fn a_literal_outside_the_target_range_is_22003() {
    let cases: &[(SqlSmallInt, &str)] = &[
        (SQL_TINYINT, "256"),
        (SQL_TINYINT, "-1"),
        (SQL_SMALLINT, "32768"),
        (SQL_INTEGER, "2147483648"),
        (SQL_BIGINT, "9223372036854775808"),
        (SQL_BIGINT, "9999999999999999999999999999999999999999999"),
    ];
    for (sql_type, text) in cases {
        assert_eq!(
            convert_char(SQL_C_CHAR, *sql_type, 0, text),
            Err(ParamBuildError::Value(ConvError::OutOfRange)),
            "{sql_type}: {text}"
        );
    }
}

#[test]
fn a_non_numeric_literal_is_22018() {
    for text in [
        "abc", "", "   ", "1 2", "\t12", "12\n", "--1", "1.2.3", "0x1F", "NaN", "inf", "1e",
        "12abc", ".",
    ] {
        assert_eq!(
            convert_char(SQL_C_CHAR, SQL_INTEGER, 0, text),
            Err(ParamBuildError::Value(ConvError::InvalidCharacterValue)),
            "{text:?}"
        );
    }
}

#[test]
fn scientific_notation_is_accepted() {
    assert_eq!(
        convert_char(SQL_C_CHAR, SQL_INTEGER, 0, "1e3").unwrap(),
        SqlType::Int(Some(1000))
    );
    assert_eq!(
        convert_char(SQL_C_CHAR, SQL_INTEGER, 0, "-1.5E2").unwrap(),
        SqlType::Int(Some(-150))
    );
    assert_eq!(
        convert_char(SQL_C_CHAR, SQL_BIGINT, 0, "1e400"),
        Err(ParamBuildError::Value(ConvError::OutOfRange))
    );
}

#[test]
fn a_wide_literal_parses_through_utf16() {
    assert_eq!(
        convert_char(SQL_C_WCHAR, SQL_BIGINT, 0, "-9223372036854775808").unwrap(),
        SqlType::BigInt(Some(i64::MIN))
    );
    assert_eq!(
        convert_char(SQL_C_WCHAR, SQL_INTEGER, 0, "١٢"),
        Err(ParamBuildError::Value(ConvError::InvalidCharacterValue))
    );
}

#[test]
fn column_size_does_not_bound_an_integer_target() {
    assert_eq!(
        convert_char(SQL_C_CHAR, SQL_INTEGER, 1, "1234567").unwrap(),
        SqlType::Int(Some(1234567))
    );
}

#[test]
fn locale_formatted_numbers_are_rejected() {
    for text in ["1,234", "1,5", "1 234", "1.234,5", "\u{a0}12"] {
        assert_eq!(
            convert_char(SQL_C_CHAR, SQL_INTEGER, 0, text),
            Err(ParamBuildError::Value(ConvError::InvalidCharacterValue)),
            "{text:?}"
        );
    }
}

#[test]
fn an_integer_reaches_the_max_types_when_column_size_is_unbounded() {
    match convert_int_to_char(SQL_C_SLONG, 12345, SQL_VARCHAR, 0).unwrap() {
        SqlType::VarcharMax(Some(s)) => assert_eq!(string_text(&s), "12345"),
        other => panic!("expected VarcharMax(Some), got {other:?}"),
    }
    match convert_int_to_char(SQL_C_SLONG, 12345, SQL_WVARCHAR, 0).unwrap() {
        SqlType::NVarcharMax(Some(_)) => {}
        other => panic!("expected NVarcharMax(Some), got {other:?}"),
    }
}

#[test]
fn a_fraction_past_the_exact_mantissa_is_still_22001() {
    let wide = format!("1.{}1", "0".repeat(42));
    assert_eq!(
        convert_char(SQL_C_CHAR, SQL_INTEGER, 0, &wide),
        Err(ParamBuildError::StringTruncation),
        "{wide}"
    );

    let zeros = format!("7.{}", "0".repeat(42));
    assert_eq!(
        convert_char(SQL_C_CHAR, SQL_INTEGER, 0, &zeros).unwrap(),
        SqlType::Int(Some(7))
    );

    let huge = format!("{}.5", "9".repeat(41));
    assert_eq!(
        convert_char(SQL_C_CHAR, SQL_BIGINT, 0, &huge),
        Err(ParamBuildError::Value(ConvError::OutOfRange))
    );
}

#[test]
fn only_the_max_types_are_unbounded() {
    let long = "x".repeat(9000);
    for (c_type, sql_type) in [(SQL_C_CHAR, SQL_VARCHAR), (SQL_C_WCHAR, SQL_WVARCHAR)] {
        assert!(
            convert_char(c_type, sql_type, 0, &long).is_ok(),
            "{c_type} -> {sql_type} truncated a max target"
        );
    }
    for (c_type, sql_type) in [
        (SQL_C_CHAR, SQL_LONGVARCHAR),
        (SQL_C_CHAR, SQL_WLONGVARCHAR),
        (SQL_C_WCHAR, SQL_LONGVARCHAR),
        (SQL_C_WCHAR, SQL_WLONGVARCHAR),
    ] {
        assert!(convert_char(c_type, sql_type, 9000, &long).is_ok());
        assert_eq!(
            convert_char(c_type, sql_type, 3, "abcd").unwrap_err(),
            ParamBuildError::StringTruncation,
            "{c_type} -> {sql_type} ignored ColumnSize"
        );
    }

    for sql_type in [SQL_LONGVARCHAR, SQL_WLONGVARCHAR] {
        assert_eq!(
            convert_char(SQL_C_CHAR, sql_type, 0, "a").unwrap_err(),
            ParamBuildError::StringTruncation,
            "sql_type {sql_type}"
        );
    }
}

#[test]
fn sql_family_agrees_with_the_conversion_matrix() {
    for sql_type in -160..=120 {
        let reachable = [SQL_C_CHAR, SQL_C_SLONG, SQL_C_BINARY]
            .iter()
            .any(|c_type| is_supported_conversion(*c_type, sql_type));
        assert_eq!(
            sql_family(sql_type).is_some(),
            reachable,
            "sql_type {sql_type}"
        );
    }

    let families: &[(SqlFamily, &[SqlSmallInt])] = &[
        (
            SqlFamily::Character,
            &[
                SQL_CHAR,
                SQL_VARCHAR,
                SQL_LONGVARCHAR,
                SQL_WCHAR,
                SQL_WVARCHAR,
                SQL_WLONGVARCHAR,
            ],
        ),
        (
            SqlFamily::Integer,
            &[SQL_TINYINT, SQL_SMALLINT, SQL_INTEGER, SQL_BIGINT],
        ),
        (
            SqlFamily::Binary,
            &[SQL_BINARY, SQL_VARBINARY, SQL_LONGVARBINARY],
        ),
    ];
    for (family, sql_types) in families {
        for sql_type in *sql_types {
            assert_eq!(sql_family(*sql_type), Some(*family), "sql_type {sql_type}");
        }
    }
}

#[test]
fn null_indicator_yields_typed_null() {
    let ind: SqlLen = SQL_NULL_DATA;
    let mut p = param(SQL_C_CHAR, None, Some(ind));
    p.sql_type = SQL_VARCHAR;
    let (value, _) = convert(&p).unwrap();
    assert!(matches!(value, SqlType::VarcharMax(None)));
}

#[test]
fn data_at_exec_is_rejected() {
    let ind: SqlLen = SQL_DATA_AT_EXEC;
    let p = param(SQL_C_CHAR, None, Some(ind));
    let err = convert(&p).unwrap_err();
    assert_eq!(err, ParamBuildError::DataAtExecNotStaged);
}

#[test]
fn data_at_exec_with_declared_length_is_rejected() {
    let ind: SqlLen = SQL_LEN_DATA_AT_EXEC_OFFSET - 16;
    let p = param(SQL_C_CHAR, None, Some(ind));
    let err = convert(&p).unwrap_err();
    assert_eq!(err, ParamBuildError::DataAtExecNotStaged);
}

#[test]
fn invalid_indicator_is_rejected() {
    let ind: SqlLen = SQL_NO_TOTAL;
    let p = param(SQL_C_CHAR, None, Some(ind));
    let err = convert(&p).unwrap_err();
    assert_eq!(err, ParamBuildError::InvalidLength(SQL_NO_TOTAL));
}

#[test]
fn default_param_indicator_is_invalid_use_not_unimplemented() {
    let ind: SqlLen = SQL_DEFAULT_PARAM;
    let p = param(SQL_C_CHAR, None, Some(ind));
    let err = convert(&p).unwrap_err();
    assert_eq!(err, ParamBuildError::InvalidUseOfDefaultParam);
    assert_eq!(err.diag().state, *b"07S01");
}

#[test]
fn null_indicator_wchar_yields_typed_null() {
    let ind: SqlLen = SQL_NULL_DATA;
    let mut p = param(SQL_C_WCHAR, None, Some(ind));
    p.sql_type = SQL_WVARCHAR;
    let (value, _) = convert(&p).unwrap();
    assert!(matches!(value, SqlType::NVarcharMax(None)));
}

#[test]
fn null_indicator_unsupported_sql_type_is_rejected() {
    let ind: SqlLen = SQL_NULL_DATA;
    let mut p = param(SQL_C_CHAR, None, Some(ind));
    p.sql_type = SQL_SS_UDT;
    let err = convert(&p).unwrap_err();
    assert_eq!(err, ParamBuildError::UnsupportedSqlType(SQL_SS_UDT));
}

#[test]
fn explicit_char_null_with_zero_column_size_is_rejected() {
    for (c_type, sql_type) in [(SQL_C_CHAR, SQL_CHAR), (SQL_C_WCHAR, SQL_WCHAR)] {
        let ind: SqlLen = SQL_NULL_DATA;
        let mut p = param(c_type, None, Some(ind));
        p.sql_type = sql_type;
        let err = convert(&p).unwrap_err();
        assert_eq!(
            err,
            ParamBuildError::InvalidParameterSize(0),
            "sql_type {sql_type}"
        );
        assert_eq!(err.diag().state, *b"HY104");
    }
}

#[test]
fn explicit_varchar_null_with_zero_column_size_is_max() {
    let ind: SqlLen = SQL_NULL_DATA;
    let mut p = param(SQL_C_CHAR, None, Some(ind));
    p.sql_type = SQL_VARCHAR;
    let (value, _) = convert(&p).unwrap();
    assert!(matches!(value, SqlType::VarcharMax(None)));

    let mut p = param(SQL_C_WCHAR, None, Some(ind));
    p.sql_type = SQL_WVARCHAR;
    let (value, _) = convert(&p).unwrap();
    assert!(matches!(value, SqlType::NVarcharMax(None)));
}

#[test]
fn default_null_uses_described_sql_type() {
    let ind: SqlLen = SQL_NULL_DATA;
    let mut p = default_param(SQL_INTEGER, Some(ind));
    p.column_size = 10;
    let (value, _) = convert(&p).unwrap();
    assert!(matches!(value, SqlType::Int(None)));

    p.sql_type = SQL_WVARCHAR;
    p.column_size = 40;
    let (value, _) = convert(&p).unwrap();
    assert!(matches!(value, SqlType::NVarchar(None, 40)));
}

#[test]
fn default_null_pairs_value_with_metadata() {
    let decimal = |precision, scale| {
        Some(RpcTypeMetadata {
            precision: Some(precision),
            scale: Some(scale),
        })
    };
    let temporal = |scale| {
        Some(RpcTypeMetadata {
            precision: None,
            scale: Some(scale),
        })
    };
    let cases: &[(
        SqlSmallInt,
        usize,
        SqlSmallInt,
        SqlType,
        Option<RpcTypeMetadata>,
    )] = &[
        (SQL_DECIMAL, 12, 3, SqlType::Decimal, decimal(12, 3)),
        (SQL_NUMERIC, 38, 0, SqlType::Numeric, decimal(38, 0)),
        (SQL_SS_TIME2, 16, 4, SqlType::Time, temporal(4)),
        (
            SQL_TYPE_TIMESTAMP,
            27,
            7,
            SqlType::DateTime2,
            temporal(7),
        ),
        (
            SQL_SS_TIMESTAMPOFFSET,
            34,
            7,
            SqlType::DateTimeOffset,
            temporal(7),
        ),
        (SQL_INTEGER, 10, 0, SqlType::Int(None), None),
        (SQL_CHAR, 10, 0, SqlType::Char(None, 10), None),
        (SQL_WVARCHAR, 40, 0, SqlType::NVarchar(None, 40), None),
        (
            SQL_WVARCHAR,
            OVERSIZED_COLUMN_SIZE,
            0,
            SqlType::NVarcharMax(None),
            None,
        ),
        (SQL_VARCHAR, 9000, 0, SqlType::VarcharMax(None), None),
        (
            SQL_VARBINARY,
            OVERSIZED_COLUMN_SIZE,
            0,
            SqlType::VarBinaryMax(None),
            None,
        ),
    ];
    for (sql_type, column_size, decimal_digits, expected_value, expected_metadata) in cases {
        let ind: SqlLen = SQL_NULL_DATA;
        let mut p = default_param(*sql_type, Some(ind));
        p.column_size = *column_size;
        p.decimal_digits = *decimal_digits;
        let (value, metadata) = convert(&p)
            .unwrap_or_else(|e| panic!("conversion failed for {sql_type}: {e:?}"));
        assert_eq!(&value, expected_value, "case: sql_type {sql_type}");
        assert_eq!(&metadata, expected_metadata, "case: sql_type {sql_type}");
    }
}

#[test]
fn default_null_rejects_undeclarable_metadata() {
    let cases: &[(SqlSmallInt, usize, SqlSmallInt, ParamBuildError)] = &[
        (SQL_DECIMAL, 0, 0, ParamBuildError::InvalidParameterSize(0)),
        (
            SQL_DECIMAL,
            39,
            0,
            ParamBuildError::InvalidParameterSize(39),
        ),
        (SQL_NUMERIC, 5, 6, ParamBuildError::InvalidDecimalDigits(6)),
        (SQL_CHAR, 0, 0, ParamBuildError::InvalidParameterSize(0)),
        (
            SQL_WCHAR,
            4001,
            0,
            ParamBuildError::InvalidParameterSize(4001),
        ),
        (SQL_BINARY, 0, 0, ParamBuildError::InvalidParameterSize(0)),
        (
            SQL_TYPE_TIMESTAMP,
            27,
            8,
            ParamBuildError::InvalidDecimalDigits(8),
        ),
        (
            SQL_SS_TIME2,
            16,
            -1,
            ParamBuildError::InvalidDecimalDigits(-1),
        ),
        (
            SQL_SS_UDT,
            0,
            0,
            ParamBuildError::UnsupportedSqlType(SQL_SS_UDT),
        ),
    ];
    for &(sql_type, column_size, decimal_digits, expected) in cases {
        let ind: SqlLen = SQL_NULL_DATA;
        let mut p = default_param(sql_type, Some(ind));
        p.column_size = column_size;
        p.decimal_digits = decimal_digits;
        let err = convert(&p)
            .expect_err(&format!("expected rejection for sql_type {sql_type}"));
        assert_eq!(err, expected, "case: sql_type {sql_type}");
    }
}

#[test]
fn vector_metadata_round_trips_dimensions() {
    let header = SQL_SS_VECTOR_HEADER_SIZE;
    assert_eq!(
        vector_metadata(header + 3 * SQL_SS_VECTOR_ELEMENT_SIZE, 0).unwrap(),
        (3, VectorBaseType::Float32)
    );
    assert_eq!(
        vector_metadata(header + 3 * SQL_SS_VECTOR_ELEMENT_SIZE, 1).unwrap(),
        (3, VectorBaseType::Float16)
    );
    assert_eq!(
        vector_metadata(1, 0).unwrap_err(),
        ParamBuildError::InvalidParameterSize(1)
    );
    assert_eq!(
        vector_metadata(header + 3, 0).unwrap_err(),
        ParamBuildError::InvalidParameterSize(header + 3)
    );
    assert_eq!(
        vector_metadata(header, 2).unwrap_err(),
        ParamBuildError::InvalidDecimalDigits(2)
    );
}

#[test]
fn parameter_type_names_the_wire_type_not_the_c_type() {
    let cases: &[(SqlSmallInt, SqlType)] = &[
        (SQL_TINYINT, SqlType::TinyInt(Some(7))),
        (SQL_SMALLINT, SqlType::SmallInt(Some(7))),
        (SQL_INTEGER, SqlType::Int(Some(7))),
        (SQL_BIGINT, SqlType::BigInt(Some(7))),
    ];
    for (sql_type, expected) in cases {
        let p = int_param(SQL_C_SLONG, *sql_type, 7i32.to_le_bytes().to_vec(), 4);
        let (value, metadata) = convert(&p).unwrap();
        assert_eq!(&value, expected, "case: sql_type {sql_type}");
        assert_eq!(metadata, None, "case: sql_type {sql_type}");
    }
}

#[test]
fn value_outside_the_target_range_is_22003() {
    let p = int_param(SQL_C_SLONG, SQL_TINYINT, 300i32.to_le_bytes().to_vec(), 4);
    let err = convert(&p).unwrap_err();
    assert_eq!(err, ParamBuildError::Value(ConvError::OutOfRange));
    assert_eq!(err.diag().state, *b"22003");
}

#[test]
fn ubigint_above_i64_max_is_22003() {
    let value = (i64::MAX as u64 + 1).to_le_bytes().to_vec();
    let p = int_param(SQL_C_UBIGINT, SQL_BIGINT, value, 8);
    assert_eq!(convert(&p).unwrap_err(), ParamBuildError::Value(ConvError::OutOfRange));
}

#[test]
fn integer_null_is_typed_by_parameter_type() {
    for c_type in [SQL_C_SLONG, SQL_C_UBIGINT, SQL_C_STINYINT] {
        let mut p = param(c_type, None, Some(SQL_NULL_DATA));
        p.sql_type = SQL_INTEGER;
        p.column_size = 10;
        let (value, _) = convert(&p).unwrap();
        assert!(matches!(value, SqlType::Int(None)), "c_type {c_type}");
    }
}

#[test]
fn every_accepted_pairing_is_convertible() {
    let mut checked = 0;
    for c_type in -160..=120 {
        if c_type == SQL_C_DEFAULT {
            continue;
        }
        for sql_type in -160..=120 {
            if !is_supported_conversion(c_type, sql_type) {
                continue;
            }
            let mut p = param(c_type, Some(vec![0; 32]), Some(0));
            p.sql_type = sql_type;
            p.column_size = 10;
            if let Err(
                e @ (ParamBuildError::UnsupportedCType(_)
                | ParamBuildError::UnsupportedSqlType(_)
                | ParamBuildError::ConversionNotImplemented),
            ) = convert(&p)
            {
                panic!("matrix accepts {c_type} -> {sql_type} but the converter returned {e:?}");
            }
            checked += 1;
        }
    }
    assert!(checked > 0, "matrix iteration found no supported pairings");
}

#[test]
fn char_nts_becomes_varchar() {
    let mut p = param(SQL_C_CHAR, Some(b"hello\0".to_vec()), Some(SQL_NTS));
    p.sql_type = SQL_VARCHAR;
    match convert(&p).unwrap().0 {
        SqlType::VarcharMax(Some(s)) => assert_eq!(string_text(&s), "hello"),
        other => panic!("expected VarcharMax(Some), got {other:?}"),
    }
}

#[test]
fn char_round_trips_non_ascii_utf8() {
    let buf = "caf\u{e9} \u{2615}\0".as_bytes().to_vec();
    let mut p = param(SQL_C_CHAR, Some(buf), Some(SQL_NTS));
    p.sql_type = SQL_VARCHAR;
    match convert(&p).unwrap().0 {
        SqlType::VarcharMax(Some(s)) => assert_eq!(string_text(&s), "caf\u{e9} \u{2615}"),
        other => panic!("expected VarcharMax(Some), got {other:?}"),
    }
}

#[test]
fn binary_with_indicator_length_becomes_varbinary() {
    let p = binary_param(Some(vec![0x01, 0x00, 0xFF, 0x7E]), Some(4));
    match convert(&p).unwrap().0 {
        SqlType::VarBinaryMax(Some(b)) => assert_eq!(b, vec![0x01, 0x00, 0xFF, 0x7E]),
        other => panic!("expected VarBinaryMax(Some), got {other:?}"),
    }
}

#[test]
fn binary_without_indicator_uses_buffer_length() {
    let mut p = binary_param(Some(vec![0xDE, 0xAD, 0xBE, 0xEF]), None);
    p.buffer_length = 2;
    match convert(&p).unwrap().0 {
        SqlType::VarBinaryMax(Some(b)) => assert_eq!(b, vec![0xDE, 0xAD]),
        other => panic!("expected VarBinaryMax(Some), got {other:?}"),
    }
}

#[test]
fn binary_null_indicator_becomes_typed_null() {
    let p = binary_param(None, Some(SQL_NULL_DATA));
    assert!(matches!(convert(&p).unwrap().0, SqlType::VarBinaryMax(None)));
}

#[test]
fn binary_zero_length_becomes_empty_varbinary() {
    let p = binary_param(Some(vec![0xDE, 0xAD]), Some(0));
    match convert(&p).unwrap().0 {
        SqlType::VarBinaryMax(Some(b)) => assert!(b.is_empty()),
        other => panic!("expected VarBinaryMax(Some), got {other:?}"),
    }
}

#[test]
fn binary_nts_with_negative_buffer_length_is_rejected() {
    let mut p = binary_param(Some(vec![0x01, 0x02]), Some(SQL_NTS));
    p.buffer_length = -1;
    let err = convert(&p).unwrap_err();
    assert!(matches!(err, ParamBuildError::InvalidLength(-1)));
    assert_eq!(err.diag().state, *b"HY090");
}

#[test]
fn wchar_explicit_length_becomes_nvarchar() {
    let mut p = param(SQL_C_WCHAR, Some(vec![b'h', 0, b'i', 0]), Some(4));
    p.sql_type = SQL_WVARCHAR;
    match convert(&p).unwrap().0 {
        SqlType::NVarcharMax(Some(s)) => assert_eq!(string_text(&s), "hi"),
        other => panic!("expected NVarcharMax(Some), got {other:?}"),
    }
}

#[test]
fn invalid_utf8_at_the_limit_grows_past_it() {
    let mut p = param(SQL_C_CHAR, Some(vec![b'a', b'b', 0xFF]), Some(3));
    p.sql_type = SQL_VARCHAR;
    p.column_size = 3;
    match convert(&p).unwrap().0 {
        SqlType::Varchar(Some(s), 3) => {
            assert_eq!(string_text(&s), "ab\u{FFFD}");
            assert_eq!(string_text(&s).len(), 5);
        }
        other => panic!("expected Varchar(Some, 3), got {other:?}"),
    }

    let mut p = param(SQL_C_CHAR, Some(vec![b'a', b'b', b'c', 0xFF]), Some(4));
    p.sql_type = SQL_VARCHAR;
    p.column_size = 3;
    assert_eq!(convert(&p), Err(ParamBuildError::StringTruncation));
}

#[test]
fn malformed_utf8_is_repaired_lossily() {
    let mut p = param(SQL_C_CHAR, Some(vec![b'a', 0xFF, b'b']), Some(3));
    p.sql_type = SQL_VARCHAR;
    match convert(&p).unwrap().0 {
        SqlType::VarcharMax(Some(s)) => assert_eq!(string_text(&s), "a\u{FFFD}b"),
        other => panic!("expected VarcharMax(Some), got {other:?}"),
    }
}

#[test]
fn a_lone_surrogate_is_measured_before_repair() {
    let mut p = param(SQL_C_WCHAR, Some(vec![0x00, 0xD8]), Some(2));
    p.sql_type = SQL_WVARCHAR;
    p.column_size = 1;
    match convert(&p).unwrap().0 {
        SqlType::NVarchar(Some(s), 1) => {
            assert_eq!(utf16_bytes(&s), Some(&[0x00, 0xD8][..]))
        }
        other => panic!("expected NVarchar(Some, 1), got {other:?}"),
    }

    p.sql_type = SQL_VARCHAR;
    match convert(&p).unwrap().0 {
        SqlType::Varchar(Some(s), 1) => assert_eq!(string_text(&s), "\u{FFFD}"),
        other => panic!("expected Varchar(Some, 1), got {other:?}"),
    }
}

#[test]
fn an_unsigned_bigint_past_i64_max_formats_unsigned() {
    let mut p = int_param(SQL_C_UBIGINT, SQL_VARCHAR, u64::MAX.to_le_bytes().to_vec(), 0);
    p.column_size = 32;
    match convert(&p).unwrap().0 {
        SqlType::Varchar(Some(s), 32) => assert_eq!(string_text(&s), "18446744073709551615"),
        other => panic!("expected Varchar(Some, 32), got {other:?}"),
    }
}

#[test]
fn a_signed_tinyint_stays_signed_against_a_character_target() {
    let mut p = int_param(SQL_C_TINYINT, SQL_VARCHAR, (-56i8).to_le_bytes().to_vec(), 0);
    p.column_size = 8;
    match convert(&p).unwrap().0 {
        SqlType::Varchar(Some(s), 8) => assert_eq!(string_text(&s), "-56"),
        other => panic!("expected Varchar(Some, 8), got {other:?}"),
    }
}

#[test]
fn an_nts_literal_reaches_an_integer_target() {
    let mut p = param(SQL_C_CHAR, Some(b"-42\0".to_vec()), Some(SQL_NTS));
    p.sql_type = SQL_INTEGER;
    assert_eq!(convert(&p).unwrap().0, SqlType::Int(Some(-42)));

    let mut p = param(SQL_C_CHAR, Some(b"-42\0".to_vec()), Some(4));
    p.sql_type = SQL_INTEGER;
    assert_eq!(convert(&p).unwrap().0, SqlType::Int(Some(-42)));
}

#[test]
fn a_leading_nul_is_not_a_number() {
    let mut p = param(SQL_C_CHAR, Some(vec![0, b'1', b'2']), Some(3));
    p.sql_type = SQL_INTEGER;
    assert_eq!(
        convert(&p),
        Err(ParamBuildError::Value(ConvError::InvalidCharacterValue))
    );
}

#[test]
fn param_convert_unsupported_c_type_is_rejected() {
    let p = param(SQL_C_FLOAT, Some(1.5f32.to_le_bytes().to_vec()), Some(4));
    assert_eq!(
        convert(&p).unwrap_err(),
        ParamBuildError::UnsupportedCType(SQL_C_FLOAT)
    );
}

#[test]
fn default_non_null_reads_character_sql_types() {
    let mut p = default_param(SQL_VARCHAR, Some(SQL_NTS));
    p.value = Some(b"hello\0".to_vec());
    match convert(&p).unwrap().0 {
        SqlType::VarcharMax(Some(s)) => assert_eq!(string_text(&s), "hello"),
        other => panic!("expected VarcharMax(Some), got {other:?}"),
    }
}

#[test]
fn a_parameter_is_sent_under_its_name() {
    let p = int_param(SQL_C_SLONG, SQL_INTEGER, 7i32.to_le_bytes().to_vec(), 4);
    let rpc = bound_param_to_rpc("@P1".to_string(), &p, None).unwrap();
    assert_eq!(rpc.name, "@P1");
    assert_eq!(rpc.value, SqlType::Int(Some(7)));
    assert_eq!(rpc.metadata, None);

    let null = default_param(SQL_INTEGER, Some(SQL_NULL_DATA));
    let rpc = bound_param_to_rpc("@P2".to_string(), &null, None).unwrap();
    assert_eq!((rpc.name.as_str(), rpc.value), ("@P2", SqlType::Int(None)));
}

#[test]
fn a_collected_value_is_converted_as_a_bound_one() {
    let mut binding = param(SQL_C_CHAR, None, Some(SQL_DATA_AT_EXEC));
    binding.sql_type = SQL_INTEGER;
    let rpc = buffered_dae_to_rpc(
        "@P1".to_string(),
        &binding,
        b"12".to_vec(),
        false,
        Some(12f64.to_bits()),
    )
    .unwrap();
    assert_eq!(rpc.value, SqlType::Int(Some(12)));
    let rpc = buffered_dae_to_rpc("@P1".to_string(), &binding, Vec::new(), true, None).unwrap();
    assert_eq!(rpc.value, SqlType::Int(None));
}

#[test]
fn every_error_has_its_state() {
    let cases: &[(ParamBuildError, &[u8; 5])] = &[
        (ParamBuildError::UnsupportedCType(0), b"HYC00"),
        (ParamBuildError::DataAtExecNotStaged, b"HY000"),
        (ParamBuildError::InvalidUseOfDefaultParam, b"07S01"),
        (ParamBuildError::InvalidLength(-7), b"HY090"),
        (ParamBuildError::InvalidBufferLength, b"HY090"),
        (ParamBuildError::NullValuePointer, b"HY009"),
        (ParamBuildError::StringTruncation, b"22001"),
        (ParamBuildError::InvalidParameterSize(0), b"HY104"),
        (ParamBuildError::InvalidDecimalDigits(9), b"HY104"),
        (ParamBuildError::UnsupportedSqlType(0), b"HYC00"),
        (ParamBuildError::ConversionNotImplemented, b"HYC00"),
        (ParamBuildError::Value(ConvError::OutOfRange), b"22003"),
        (ParamBuildError::Value(ConvError::InvalidCharacterValue), b"22018"),
        (ParamBuildError::Value(ConvError::Restricted), b"07006"),
        (ParamBuildError::Value(ConvError::NotHandledHere), b"07006"),
    ];
    for (error, state) in cases {
        assert_eq!(error.diag().state, **state, "{error:?}");
    }
}

#[test]
fn a_null_needs_no_more_than_its_declaration() {
    assert_eq!(typed_null(SQL_BIGINT, 0, 0).unwrap().0, SqlType::BigInt(None));
    assert_eq!(
        typed_null(SQL_SS_UDT, 0, 0),
        Err(ParamBuildError::UnsupportedSqlType(SQL_SS_UDT))
    );
}

#[test]
fn narrow_and_wide_texts_become_the_same_value() {
    for text in ["abc", "abc   ", "\u{E9}\u{1F600}  ", "ab cd", "", "    "] {
        let wide: Vec<u8> = text.encode_utf16().flat_map(u16::to_le_bytes).collect();
        for sql_type in [SQL_CHAR, SQL_WCHAR, SQL_VARCHAR, SQL_WVARCHAR, SQL_LONGVARCHAR] {
            for column_size in [1, 2, 3, 4] {
                let of = |text: AppText| {
                    match convert_character_sql(sql_type, column_size, text) {
                        Ok(value) => format!("{value:?}"),
                        Err(error) => format!("{error:?}"),
                    }
                };
                assert_eq!(
                    of(AppText::Utf8(text.as_bytes().to_vec())),
                    of(AppText::Utf16(wide.clone())),
                    "{text:?} {sql_type} {column_size}"
                );
            }
        }
    }
}

#[test]
fn a_trimmed_text_keeps_within_its_limit() {
    for bytes in [&b"\xFF\xFE  "[..], b"\xE2\x82  ", b"\xF0\x9F\x98\x80  ", b"a\x80\x80 "] {
        let text = AppText::Utf8(bytes.to_vec());
        assert!(text.len_in_utf16_units() <= bytes.len());
        for limit in 0..=bytes.len() {
            if let Ok(fitted) = trim_blank_overflow(AppText::Utf8(bytes.to_vec()), limit) {
                assert!(fitted.len_in_utf16_units() <= limit, "{bytes:?} {limit}");
            }
        }
    }
    assert_eq!(
        trim_blank_overflow(AppText::Utf8(b"\xFFa".to_vec()), 1).err(),
        Some(ParamBuildError::StringTruncation)
    );
}
