//! Entry points that take arbitrary input, and the values that bytes make.

use mssql_odbc::byte_cursor::{
    build_column_value, build_decimal, with_decimal_outcome, ByteCursor,
};
use mssql_odbc::conversion::column_value::{ColumnEncoding, ColumnValues};
use mssql_odbc::conversion::error::ConvError;
use mssql_odbc::conversion::transcode::Encoded;
use mssql_odbc::fuzz_support::{
    bound_param_from, ffi_getdata_targets, fuzz_bound_param, fuzz_datetime_literal,
    fuzz_fetch_convert, fuzz_ffi_execute, fuzz_numeric_text, fuzz_read_utf16,
    fuzz_transcode_dae_bytes, routed_fetch_targets, routes_fixed_width_fetch, ResultWalk,
    Utf16Read, WalkStep, FETCH_TARGET_CANDIDATES, MAX_RESPONSE, MAX_ROWS_WALKED,
};
use mssql_odbc::odbc_types::{
    SQL_C_BINARY, SQL_C_CHAR, SQL_C_SLONG, SQL_C_STINYINT, SQL_C_WCHAR, SQL_ERROR, SQL_NO_DATA,
    SQL_SUCCESS, SQL_SUCCESS_WITH_INFO,
};

fn double(text: &str) -> Option<u64> {
    text.trim().parse::<f64>().ok().map(f64::to_bits)
}

#[test]
fn a_number_is_read_and_narrowed() {
    let read = fuzz_numeric_text("-300.5", double("-300.5")).unwrap();
    assert!(read.negative);
    let whole = read.whole.unwrap();
    assert_eq!(whole.value, -300);
    assert!(whole.fraction_dropped);
    assert!(matches!(whole.as_i16, Ok(-300)));
    assert!(matches!(whole.as_i8, Err(ConvError::OutOfRange)));
    assert!(matches!(whole.as_u8, Err(ConvError::OutOfRange)));
    assert!(fuzz_numeric_text("twelve", double("twelve")).is_none());
}

#[test]
fn a_number_with_an_exponent_is_read_as_a_double() {
    let read = fuzz_numeric_text("1e3", double("1e3")).unwrap();
    assert_eq!(read.whole.unwrap().value, 1000);
    assert!(!read.negative);
}

#[test]
fn a_literal_is_read_as_each_of_its_kinds() {
    let (date, time, _) = fuzz_datetime_literal("2024-02-29");
    let date = date.unwrap();
    assert_eq!((date.year, date.month, date.day), (2024, 2, 29));
    assert!(time.is_none());
    let (date, _, both) = fuzz_datetime_literal("2024-02-29 12:34:56");
    assert!(date.is_none());
    assert!(both.is_some());
    let (date, time, _) = fuzz_datetime_literal("12:34:56");
    assert!(date.is_none());
    assert!(time.is_some());
}

fn wire(encoded: Encoded) -> Vec<u8> {
    match encoded {
        Encoded::Bytes(bytes) => bytes,
        Encoded::Text(text) => text.into_iter().collect::<String>().into_bytes(),
    }
}

#[test]
fn a_mode_picks_the_encodings_of_a_transcode() {
    let (all, rest) = fuzz_transcode_dae_bytes(b"h\xC3\xA9", 0);
    assert_eq!((wire(all), wire(rest)), (b"h\xC3\xA9".to_vec(), Vec::new()));
    let (all, rest) = fuzz_transcode_dae_bytes(b"h\xC3\xA9", 2);
    assert_eq!((wire(all), wire(rest)), (vec![b'h', 0, 0xE9, 0], Vec::new()));
    let (all, rest) = fuzz_transcode_dae_bytes(b"h\xC3", 2);
    assert_eq!((wire(all), wire(rest)), (vec![b'h', 0], vec![0xFD, 0xFF]));
    let (all, rest) = fuzz_transcode_dae_bytes(&[b'h', 0, 0xE9, 0], 1);
    assert_eq!((wire(all), wire(rest)), (b"h\xC3\xA9".to_vec(), Vec::new()));
    let (all, rest) = fuzz_transcode_dae_bytes(&[b'h', 0, 0xE9], 3);
    assert_eq!((wire(all), wire(rest)), (vec![b'h', 0, 0xE9], Vec::new()));
    let (all, _) = fuzz_transcode_dae_bytes(&[b'h', 0], 5);
    assert!(matches!(all, Encoded::Text(text) if text == vec!['h']));
}

#[test]
fn a_text_is_read_within_its_units() {
    let units = [b'a' as u16, b'b' as u16];
    assert_eq!(fuzz_read_utf16(&units, 0), Utf16Read::Short(2));
    assert_eq!(fuzz_read_utf16(&units, 1), Utf16Read::Long(2));
    assert_eq!(fuzz_read_utf16(&units, 2), Utf16Read::AttributeBytes(4));
    assert_eq!(fuzz_read_utf16(&units, 3), Utf16Read::Short(2));
    assert_eq!(fuzz_read_utf16(&[b'a' as u16, 0], 3), Utf16Read::Terminated);
    let long = vec![1_u16; 40_000];
    assert_eq!(fuzz_read_utf16(&long, 0), Utf16Read::Short(i16::MAX));
    assert_eq!(fuzz_read_utf16(&long, 5), Utf16Read::Long(40_000));
}

#[test]
fn every_candidate_that_is_routed_is_a_target() {
    let targets = routed_fetch_targets();
    let expected: Vec<i16> = FETCH_TARGET_CANDIDATES
        .into_iter()
        .filter(|target| routes_fixed_width_fetch(*target))
        .collect();
    assert_eq!(targets, expected);
    assert_eq!(targets[0], SQL_C_STINYINT);
    assert!(!routes_fixed_width_fetch(SQL_C_CHAR));
    let getdata = ffi_getdata_targets();
    assert_eq!(getdata[..targets.len()], targets[..]);
    assert_eq!(getdata[targets.len()..], [SQL_C_CHAR, SQL_C_WCHAR, SQL_C_BINARY]);
}

#[test]
fn bytes_pick_a_target_and_a_value() {
    let (target, value) = fuzz_fetch_convert(&[0, 2, 0xFE, 0xFF, 0xFF, 0xFF]);
    assert_eq!(target, SQL_C_STINYINT);
    assert!(matches!(value, ColumnValues::Int(-2)));
    let count = routed_fetch_targets().len();
    let (target, value) = fuzz_fetch_convert(&[u8::try_from(count).unwrap(), 20]);
    assert_eq!(target, SQL_C_STINYINT);
    assert!(matches!(value, ColumnValues::Null));
}

#[test]
fn every_value_can_be_made_of_bytes() {
    let value = |bytes: &[u8]| build_column_value(&mut ByteCursor::new(bytes));
    assert!(matches!(value(&[0, 7]), ColumnValues::TinyInt(7)));
    assert!(matches!(value(&[1, 0xFF, 0xFF]), ColumnValues::SmallInt(-1)));
    assert!(matches!(value(&[3, 1]), ColumnValues::BigInt(1)));
    assert!(matches!(value(&[4, 0, 0, 0x80, 0x3F]), ColumnValues::Real(0x3F80_0000)));
    assert!(matches!(value(&[5]), ColumnValues::Float(0)));
    assert!(matches!(value(&[6, 3]), ColumnValues::Bit(true)));
    assert!(matches!(value(&[9, 1, 0, 0, 0, 2]), ColumnValues::Money(m)
        if m.lsb_part == 1 && m.msb_part == 2));
    assert!(matches!(value(&[10, 5]), ColumnValues::SmallMoney(m) if m.int_val == 5));
    assert!(matches!(value(&[13, 1, 0, 0, 0, 0, 0, 0, 0, 7]), ColumnValues::Time(t)
        if t.time_nanoseconds == 1 && t.scale == 7));
    assert!(matches!(value(&[17, 1, 0, 2]), ColumnValues::SmallDateTime(d)
        if d.days == 1 && d.time == 2));
    assert!(matches!(value(&[18, 1, 2, 3]), ColumnValues::Bytes(bytes) if bytes == [1, 2, 3]));
    assert!(matches!(value(&[19, 1, 2]), ColumnValues::Uuid(uuid)
        if uuid == [1, 2, 0, 0, 0, 0, 0, 0, 0, 0, 0, 0, 0, 0, 0, 0]));
    assert!(matches!(value(&[41]), ColumnValues::Null));
}

#[test]
fn a_value_leaves_the_cursor_behind_what_it_read() {
    let mut cursor = ByteCursor::new(&[24, 1]);
    assert!(matches!(build_column_value(&mut cursor), ColumnValues::BigInt(1)));
    assert_eq!(cursor.position(), 2);
    let mut cursor = ByteCursor::new(&[0, 7, 1, 5, 0, 9]);
    assert!(matches!(build_column_value(&mut cursor), ColumnValues::TinyInt(7)));
    assert_eq!(cursor.position(), 2);
    assert!(matches!(build_column_value(&mut cursor), ColumnValues::SmallInt(5)));
    assert_eq!(cursor.position(), 5);
    let mut cursor = ByteCursor::new(&[18, 1, 2, 3]);
    build_column_value(&mut cursor);
    assert_eq!(cursor.position(), 4);
    let mut cursor = ByteCursor::new(&[7, 1, 0, 1, 5, 6, 9]);
    build_column_value(&mut cursor);
    assert_eq!(cursor.position(), 6);
}

#[test]
fn a_refused_decimal_is_null() {
    let decimal = || build_column_value(&mut ByteCursor::new(&[7, 1, 0, 1, 5, 6]));
    assert!(matches!(with_decimal_outcome(decimal(), true), ColumnValues::Decimal(_)));
    assert!(matches!(with_decimal_outcome(decimal(), false), ColumnValues::Null));
    let numeric = build_column_value(&mut ByteCursor::new(&[8, 1, 0, 1, 5, 6]));
    assert!(matches!(with_decimal_outcome(numeric, false), ColumnValues::Null));
    assert!(matches!(
        with_decimal_outcome(ColumnValues::TinyInt(7), false),
        ColumnValues::TinyInt(7)
    ));
}

#[test]
fn a_text_keeps_its_encoding() {
    let made = build_column_value(&mut ByteCursor::new(&[11, 1, b'h', 0]));
    assert!(matches!(made, ColumnValues::String(text)
        if matches!(text.encoding, ColumnEncoding::Utf16) && text.bytes == [b'h', 0]));
}

#[test]
fn a_cursor_reads_zeros_past_its_end() {
    let mut cursor = ByteCursor::new(&[1, 2, 3]);
    assert_eq!(cursor.u8(), 1);
    assert_eq!(cursor.le_u16(), 0x0302);
    assert_eq!(cursor.u8(), 0);
    assert_eq!(cursor.le_u32(), 0);
    assert_eq!(cursor.le_i64(), 0);
    assert!(cursor.rest().is_empty());
    assert_eq!(cursor.take(2), vec![0, 0]);
    let mut cursor = ByteCursor::new(&[0xFF; 12]);
    assert_eq!(cursor.le_i32(), -1);
    assert_eq!(cursor.le_u64(), u64::MAX);
}

#[test]
fn a_decimal_has_no_more_digits_than_its_precision() {
    let mut cursor = ByteCursor::new(&[1, 3, 4, 1, 0]);
    let decimal = build_decimal(&mut cursor);
    assert!(decimal.precision >= decimal.scale);
    assert!(decimal.precision <= 38);
}

#[test]
fn bytes_make_a_parameter() {
    let param = bound_param_from(&[9, 9, 0, 1, 0, 0, 0]);
    assert_eq!(param.c_type, SQL_C_SLONG);
    assert!(fuzz_bound_param(&[9, 9, 0, 1, 0, 0, 0], None).is_ok());
}

#[test]
fn a_response_is_what_follows_the_target() {
    assert_eq!(fuzz_ffi_execute(&[]), None);
    assert_eq!(fuzz_ffi_execute(&vec![0; MAX_RESPONSE + 1]), None);
    let targets = ffi_getdata_targets();
    assert_eq!(fuzz_ffi_execute(&[0, 8, 9]), Some((targets[0], vec![8, 9])));
    let last = u8::try_from(targets.len() - 1).unwrap();
    assert_eq!(fuzz_ffi_execute(&[last]), Some((SQL_C_BINARY, Vec::new())));
}

#[test]
fn a_walk_reads_every_column_of_every_row() {
    let mut walk = ResultWalk::start();
    assert_eq!(walk.step, WalkStep::Execute);
    assert_eq!(walk.run_exec_fetch(SQL_SUCCESS_WITH_INFO, 0), WalkStep::CountColumns);
    assert_eq!(walk.run_exec_fetch(SQL_SUCCESS, 2), WalkStep::Fetch);
    assert_eq!(walk.run_exec_fetch(SQL_SUCCESS, 0), WalkStep::GetData(1));
    assert_eq!(walk.run_exec_fetch(SQL_ERROR, 0), WalkStep::GetData(2));
    assert_eq!(walk.run_exec_fetch(SQL_SUCCESS, 0), WalkStep::Fetch);
    assert_eq!(walk.run_exec_fetch(SQL_NO_DATA, 0), WalkStep::Finished);
    assert_eq!(walk.run_exec_fetch(SQL_SUCCESS, 0), WalkStep::Finished);
}

#[test]
fn a_failed_execution_reads_nothing() {
    let mut walk = ResultWalk::start();
    assert_eq!(walk.run_exec_fetch(SQL_ERROR, 0), WalkStep::Finished);
}

#[test]
fn a_walk_ends_though_rows_do_not() {
    let mut walk = ResultWalk::start();
    walk.run_exec_fetch(SQL_SUCCESS, 0);
    walk.run_exec_fetch(SQL_SUCCESS, 1);
    let mut fetches = 0;
    while walk.step != WalkStep::Finished {
        if walk.step == WalkStep::Fetch {
            fetches += 1;
        }
        walk.run_exec_fetch(SQL_SUCCESS, 1);
    }
    assert_eq!(fetches, MAX_ROWS_WALKED);
}
