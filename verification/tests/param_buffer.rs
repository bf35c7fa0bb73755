//! Reading of bound parameter buffers.

use mssql_odbc::conversion::datetime::DateTimeParts;
use mssql_odbc::conversion::param_buffer::{
    effective_param_c_type, indicator_is_a_length, is_data_at_exec_indicator,
    parameter_value_stride, read_binary_bytes, read_char_bytes, read_indicator, read_integer,
    read_param_value, read_wchar_bytes, AppValue, BoundParam, Indicator, SqlGuid,
};
use mssql_odbc::conversion::param_error::ParamBuildError;
use mssql_odbc::odbc_types::{
    SqlLen, SqlSmallInt, SQL_C_BINARY, SQL_C_BIT, SQL_C_CHAR, SQL_C_DEFAULT, SQL_C_DOUBLE,
    SQL_C_FLOAT, SQL_C_GUID, SQL_C_INTERVAL_MINUTE_TO_SECOND, SQL_C_INTERVAL_YEAR, SQL_C_LONG,
    SQL_C_NUMERIC, SQL_C_SBIGINT, SQL_C_SHORT, SQL_C_SLONG, SQL_C_SSHORT, SQL_C_SS_TIME2,
    SQL_C_SS_TIMESTAMPOFFSET, SQL_C_SS_VECTOR, SQL_C_STINYINT, SQL_C_TINYINT, SQL_C_TYPE_DATE,
    SQL_C_TYPE_TIME, SQL_C_TYPE_TIMESTAMP, SQL_C_UBIGINT, SQL_C_ULONG, SQL_C_USHORT,
    SQL_C_UTINYINT, SQL_C_WCHAR, SQL_DATA_AT_EXEC, SQL_DEFAULT_PARAM, SQL_LEN_DATA_AT_EXEC_OFFSET,
    SQL_NO_TOTAL, SQL_NTS, SQL_NULL_DATA, SQL_PARAM_INPUT, SQL_SMALLINT, SQL_TINYINT,
};

fn param(c_type: SqlSmallInt, value: Option<Vec<u8>>, ind: Option<SqlLen>) -> BoundParam {
    BoundParam {
        input_output_type: SQL_PARAM_INPUT,
        c_type,
        sql_type: 0,
        column_size: 0,
        decimal_digits: 0,
        value,
        buffer_length: 0,
        indicator: ind,
        octet_length: ind,
    }
}

/// The value of a binding; `None` is NULL.
fn read(p: &BoundParam) -> Result<Option<AppValue>, ParamBuildError> {
    match read_indicator(p)? {
        Indicator::Null => Ok(None),
        Indicator::Length(length) => read_param_value(p, length).map(Some),
    }
}

fn datetime(p: &BoundParam) -> DateTimeParts {
    let Some(AppValue::DateTime(parts)) = read(p).unwrap() else {
        panic!("expected a DateTime value");
    };
    parts
}

fn bytes_of(fields: &[u16]) -> Vec<u8> {
    fields.iter().flat_map(|field| field.to_le_bytes()).collect()
}

/// The sixteen bytes of a timestamp.
fn timestamp_bytes(fields: [u16; 6], fraction: u32) -> Vec<u8> {
    let mut bytes = bytes_of(&fields);
    bytes.extend_from_slice(&fraction.to_le_bytes());
    bytes
}

#[test]
fn parameter_array_variable_width_strides_use_buffer_length_bytes() {
    for c_type in [
        SQL_C_CHAR,
        SQL_C_WCHAR,
        SQL_C_BINARY,
        SQL_C_SS_TIME2,
        SQL_C_SS_TIMESTAMPOFFSET,
    ] {
        for buffer_length in [0, 1, 7, 2056, 4096] {
            assert_eq!(
                parameter_value_stride(c_type, buffer_length),
                Some(buffer_length as usize),
                "C type {c_type}, BufferLength {buffer_length}",
            );
        }
        assert_eq!(parameter_value_stride(c_type, -1), None);
        assert_eq!(parameter_value_stride(c_type, SqlLen::MIN), None);
    }
}

#[test]
fn parameter_array_fixed_width_strides_ignore_buffer_length() {
    let cases = [
        (SQL_C_BIT, 1),
        (SQL_C_STINYINT, 1),
        (SQL_C_TINYINT, 1),
        (SQL_C_UTINYINT, 1),
        (SQL_C_SHORT, 2),
        (SQL_C_SSHORT, 2),
        (SQL_C_USHORT, 2),
        (SQL_C_LONG, 4),
        (SQL_C_SLONG, 4),
        (SQL_C_ULONG, 4),
        (SQL_C_SBIGINT, 8),
        (SQL_C_UBIGINT, 8),
        (SQL_C_FLOAT, 4),
        (SQL_C_DOUBLE, 8),
        (SQL_C_TYPE_DATE, 6),
        (SQL_C_TYPE_TIME, 6),
        (SQL_C_TYPE_TIMESTAMP, 16),
        (SQL_C_GUID, 16),
        (SQL_C_NUMERIC, 19),
        (SQL_C_INTERVAL_YEAR, 28),
        (SQL_C_INTERVAL_MINUTE_TO_SECOND, 28),
    ];

    for (c_type, expected) in cases {
        for buffer_length in [SqlLen::MIN, -1, 0, 1, SqlLen::MAX] {
            assert_eq!(
                parameter_value_stride(c_type, buffer_length),
                Some(expected),
                "C type {c_type}, BufferLength {buffer_length}",
            );
        }
    }
}

#[test]
fn every_interval_c_type_uses_the_sql_interval_struct_width() {
    for c_type in SQL_C_INTERVAL_YEAR..=SQL_C_INTERVAL_MINUTE_TO_SECOND {
        assert_eq!(parameter_value_stride(c_type, 0), Some(28));
    }
}

#[test]
fn parameter_array_stride_rejects_unresolved_or_unknown_c_types() {
    for c_type in [
        SQL_C_DEFAULT,
        SQL_C_SS_VECTOR,
        0,
        SqlSmallInt::MIN,
        SqlSmallInt::MAX,
    ] {
        assert_eq!(parameter_value_stride(c_type, 8), None, "C type {c_type}");
    }
}

#[test]
fn tinyint_c_type_reads_unsigned_against_a_tinyint_parameter() {
    let mut p = param(SQL_C_TINYINT, Some(vec![0xFF]), Some(0));
    p.sql_type = SQL_TINYINT;
    assert_eq!(read_param_value(&p, 0).unwrap(), AppValue::Integer(255));

    p.sql_type = SQL_SMALLINT;
    assert_eq!(read_param_value(&p, 0).unwrap(), AppValue::Integer(-1));
}

#[test]
fn null_indicator_yields_null_regardless_of_c_type() {
    for c_type in [SQL_C_CHAR, SQL_C_WCHAR, SQL_C_SLONG] {
        let p = param(c_type, None, Some(SQL_NULL_DATA));
        assert_eq!(read(&p).unwrap(), None);
    }
}

#[test]
fn indicator_values_map_to_their_errors() {
    for (ind_value, expected) in [
        (SQL_DEFAULT_PARAM, ParamBuildError::InvalidUseOfDefaultParam),
        (SQL_DATA_AT_EXEC, ParamBuildError::DataAtExecNotStaged),
        (SQL_NO_TOTAL, ParamBuildError::InvalidLength(SQL_NO_TOTAL)),
    ] {
        let p = param(SQL_C_CHAR, None, Some(ind_value));
        assert_eq!(read(&p).unwrap_err(), expected);
    }
}

#[test]
fn param_buffer_unsupported_c_type_is_rejected() {
    let p = param(SQL_C_SS_VECTOR, Some(vec![0; 8]), Some(4));
    assert_eq!(
        read(&p).unwrap_err(),
        ParamBuildError::UnsupportedCType(SQL_C_SS_VECTOR)
    );
}

#[test]
fn bit_reads_any_non_zero_byte_as_one() {
    for (byte, expected) in [(0u8, false), (1, true), (2, true), (0xFF, true)] {
        let p = param(SQL_C_BIT, Some(vec![byte]), Some(0));
        assert_eq!(read(&p).unwrap(), Some(AppValue::Bit(expected)), "byte {byte:#x}");
    }
}

#[test]
fn each_float_c_type_keeps_its_width() {
    let p = param(SQL_C_FLOAT, Some((-2.25f32).to_le_bytes().to_vec()), Some(0));
    assert_eq!(read(&p).unwrap(), Some(AppValue::Float((-2.25f32).to_bits())));

    let p = param(SQL_C_DOUBLE, Some(1.5f64.to_le_bytes().to_vec()), Some(0));
    assert_eq!(read(&p).unwrap(), Some(AppValue::Double(1.5f64.to_bits())));
}

#[test]
fn guid_is_read_in_its_field_layout() {
    let mut bytes = 0x0123_4567u32.to_le_bytes().to_vec();
    bytes.extend_from_slice(&0x89ABu16.to_le_bytes());
    bytes.extend_from_slice(&0xCDEFu16.to_le_bytes());
    bytes.extend_from_slice(&[0x01, 0x23, 0x45, 0x67, 0x89, 0xAB, 0xCD, 0xEF]);
    let p = param(SQL_C_GUID, Some(bytes), Some(0));
    let g = SqlGuid {
        data1: 0x0123_4567,
        data2: 0x89AB,
        data3: 0xCDEF,
        data4: [0x01, 0x23, 0x45, 0x67, 0x89, 0xAB, 0xCD, 0xEF],
    };
    assert_eq!(read(&p).unwrap(), Some(AppValue::Guid(g)));
}

#[test]
fn each_datetime_c_struct_fills_only_its_own_components() {
    let p = datetime(&param(SQL_C_TYPE_DATE, Some(bytes_of(&[2024, 2, 29])), Some(0)));
    assert_eq!((p.year, p.month, p.day), (2024, 2, 29));
    assert_eq!((p.has_date, p.has_time, p.has_tz), (true, false, false));

    let p = datetime(&param(SQL_C_TYPE_TIME, Some(bytes_of(&[13, 45, 30])), Some(0)));
    assert_eq!((p.hour, p.minute, p.second, p.fraction_ns), (13, 45, 30, 0));
    assert_eq!((p.has_date, p.has_time, p.has_tz), (false, true, false));

    // The fraction is aligned to four bytes.
    let mut time2 = bytes_of(&[13, 45, 30, 0]);
    time2.extend_from_slice(&123_000_000u32.to_le_bytes());
    let p = datetime(&param(SQL_C_SS_TIME2, Some(time2), Some(0)));
    assert_eq!(p.fraction_ns, 123_000_000);
    assert_eq!((p.has_date, p.has_time, p.has_tz), (false, true, false));

    let ts = timestamp_bytes([2024, 6, 15, 12, 30, 45], 500_000_000);
    let p = datetime(&param(SQL_C_TYPE_TIMESTAMP, Some(ts), Some(0)));
    assert_eq!(
        (p.year, p.day, p.second, p.fraction_ns),
        (2024, 15, 45, 500_000_000)
    );
    assert_eq!((p.has_date, p.has_time, p.has_tz), (true, true, false));

    let mut dto = timestamp_bytes([2024, 6, 15, 12, 30, 0], 0);
    dto.extend_from_slice(&(-5i16).to_le_bytes());
    dto.extend_from_slice(&(-30i16).to_le_bytes());
    let p = datetime(&param(SQL_C_SS_TIMESTAMPOFFSET, Some(dto), Some(0)));
    assert_eq!((p.tz_hour, p.tz_minute), (-5, -30));
    assert_eq!((p.has_date, p.has_time, p.has_tz), (true, true, true));
    assert_eq!(p.scale, 0);
}

#[test]
fn an_impossible_date_survives_the_read_unchanged() {
    let p = datetime(&param(SQL_C_TYPE_DATE, Some(bytes_of(&[2023, 2, 30])), Some(0)));
    assert_eq!((p.year, p.month, p.day), (2023, 2, 30));
}

#[test]
fn every_integer_c_type_widens_to_its_value() {
    let cases: [(SqlSmallInt, Vec<u8>, i128); 8] = [
        (SQL_C_STINYINT, (-5i8).to_le_bytes().to_vec(), -5),
        (SQL_C_UTINYINT, 250u8.to_le_bytes().to_vec(), 250),
        (SQL_C_SSHORT, (-300i16).to_le_bytes().to_vec(), -300),
        (SQL_C_USHORT, 60_000u16.to_le_bytes().to_vec(), 60_000),
        (SQL_C_SLONG, (-70_000i32).to_le_bytes().to_vec(), -70_000),
        (SQL_C_ULONG, 4_000_000_000u32.to_le_bytes().to_vec(), 4_000_000_000),
        (SQL_C_SBIGINT, i64::MIN.to_le_bytes().to_vec(), i128::from(i64::MIN)),
        (SQL_C_UBIGINT, u64::MAX.to_le_bytes().to_vec(), i128::from(u64::MAX)),
    ];
    for (c_type, bytes, expected) in cases {
        assert_eq!(read_integer(&bytes, c_type), Some(expected), "c_type {c_type}");
        let p = param(c_type, Some(bytes), Some(0));
        assert_eq!(read(&p).unwrap(), Some(AppValue::Integer(expected)), "c_type {c_type}");
    }
}

#[test]
fn tinyint_is_signed_but_utinyint_is_unsigned() {
    for c_type in [SQL_C_TINYINT, SQL_C_STINYINT] {
        let p = param(c_type, Some(vec![0xFF]), Some(0));
        assert_eq!(read(&p).unwrap(), Some(AppValue::Integer(-1)), "c_type {c_type}");
    }
    let p = param(SQL_C_UTINYINT, Some(vec![0xFF]), Some(0));
    assert_eq!(read(&p).unwrap(), Some(AppValue::Integer(255)));
}

#[test]
fn indicator_is_not_a_length_for_fixed_width_c_types() {
    let value = 42i32.to_le_bytes().to_vec();
    for stray in [-7, 0, 999, SQL_LEN_DATA_AT_EXEC_OFFSET + 1] {
        let p = param(SQL_C_SLONG, Some(value.clone()), Some(stray));
        assert_eq!(
            read(&p).unwrap(),
            Some(AppValue::Integer(42)),
            "indicator {stray} should be ignored"
        );
    }
    for at_exec in [SQL_LEN_DATA_AT_EXEC_OFFSET, SQL_LEN_DATA_AT_EXEC_OFFSET - 1] {
        let p = param(SQL_C_SLONG, Some(value.clone()), Some(at_exec));
        assert_eq!(
            read(&p).unwrap_err(),
            ParamBuildError::DataAtExecNotStaged,
            "indicator {at_exec}"
        );
    }
    let p = param(SQL_C_CHAR, Some(value), Some(-7));
    assert_eq!(read(&p).unwrap_err(), ParamBuildError::InvalidLength(-7));
}

#[test]
fn special_indicators_still_apply_to_fixed_width_c_types() {
    let value = 42i32.to_le_bytes().to_vec();
    let p = param(SQL_C_SLONG, Some(value.clone()), Some(SQL_NULL_DATA));
    assert_eq!(read(&p).unwrap(), None);

    let p = param(SQL_C_SLONG, Some(value), Some(SQL_DEFAULT_PARAM));
    assert_eq!(read(&p).unwrap_err(), ParamBuildError::InvalidUseOfDefaultParam);
}

#[test]
fn null_indicator_pointer_means_null_terminated() {
    let p = param(SQL_C_CHAR, Some(b"abc\0".to_vec()), None);
    assert_eq!(read(&p).unwrap(), Some(AppValue::NarrowText(b"abc".to_vec())));
}

#[test]
fn a_null_value_buffer_follows_the_zero_length_rule() {
    for c_type in [SQL_C_CHAR, SQL_C_WCHAR, SQL_C_BINARY] {
        let p = param(c_type, None, Some(0));
        assert_eq!(read(&p).unwrap(), None, "c_type {c_type}");
    }
    let p = param(SQL_C_CHAR, None, Some(4));
    assert_eq!(read(&p).unwrap_err().diag().state, *b"HY090");

    let p = param(SQL_C_SLONG, None, Some(0));
    assert_eq!(read(&p).unwrap_err().diag().state, *b"HY090");

    let p = param(SQL_C_CHAR, None, None);
    assert_eq!(read(&p).unwrap_err().diag().state, *b"HY090");
}

#[test]
fn read_char_bytes_edge_cases() {
    let buf = b"abc";
    assert_eq!(read_char_bytes(buf, 3), b"abc");
    assert_eq!(read_char_bytes(buf, 2), b"ab");
    assert_eq!(read_char_bytes(b"ab\0c", SQL_NTS), b"ab");
}

#[test]
fn read_wchar_bytes_edge_cases() {
    let units = bytes_of(&[u16::from(b'h'), u16::from(b'i'), 0]);
    assert_eq!(read_wchar_bytes(&units, SQL_NTS), vec![b'h', 0, b'i', 0]);
    assert_eq!(read_wchar_bytes(&units, 2), vec![b'h', 0]);
}

#[test]
fn a_binary_buffer_has_no_terminator() {
    let mut p = param(SQL_C_BINARY, Some(vec![1, 0, 2]), None);
    p.buffer_length = 3;
    assert_eq!(read(&p).unwrap(), Some(AppValue::Binary(vec![1, 0, 2])));
    assert_eq!(read_binary_bytes(&p, &[1, 0, 2], 2).unwrap(), vec![1, 0]);
    p.buffer_length = -1;
    assert_eq!(
        read_binary_bytes(&p, &[1, 0, 2], SQL_NTS),
        Err(ParamBuildError::InvalidLength(-1))
    );
}

#[test]
fn lengths_and_indicators_are_told_apart() {
    assert!(indicator_is_a_length(SQL_C_BINARY));
    assert!(indicator_is_a_length(SQL_C_SS_VECTOR));
    assert!(!indicator_is_a_length(SQL_C_SLONG));
    assert!(is_data_at_exec_indicator(SQL_DATA_AT_EXEC));
    assert!(is_data_at_exec_indicator(-104));
    assert!(!is_data_at_exec_indicator(-99));
    assert_eq!(effective_param_c_type(SQL_C_TINYINT, SQL_TINYINT), SQL_C_UTINYINT);
    assert_eq!(effective_param_c_type(SQL_C_TINYINT, SQL_SMALLINT), SQL_C_TINYINT);
}
