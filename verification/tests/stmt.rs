//! Statements: bindings, results, attributes and values supplied at execution.

use mssql_odbc::conversion::column_value::{ColumnValues, TdsDataType};
use mssql_odbc::conversion::param_buffer::BoundParam;
use mssql_odbc::diag::DiagRecord;
use mssql_odbc::fetch_engine::plp_stream::PlpEncoding;
use mssql_odbc::handles::active_plp::ActivePlpStream;
use mssql_odbc::handles::dae_state::{
    DaeParam, DaeProgress, DaeState, PreparedPlan, PreparedStatement, StatementId,
};
use mssql_odbc::handles::desc::DescKind;
use mssql_odbc::handles::stmt::{
    BufferedGetDataRow, ColumnBinding, ColumnMetadata, StmtHandle, StmtState,
    STMT_STATE_CURSOR_OPEN, STMT_STATE_EXEC_CONTEXT, STMT_STATE_EXEC_STARTED,
    STMT_STATE_FETCH_IN_PROGRESS, STMT_STATE_PREPARED,
};
use mssql_odbc::handles::stmt_attrs::{InertStmtAttrs, ValueRule, VendorStmtAttrs};
use mssql_odbc::odbc_types::{
    SqlSmallInt, SqlUSmallInt, SQL_ATTR_CURSOR_SENSITIVITY, SQL_ATTR_METADATA_ID,
    SQL_ATTR_NOSCAN, SQL_ATTR_PARAM_BIND_OFFSET_PTR, SQL_ATTR_RETRIEVE_DATA,
    SQL_ATTR_SIMULATE_CURSOR, SQL_C_CHAR, SQL_C_SLONG, SQL_PARAM_INPUT, SQL_ROWSET_SIZE,
    SQL_SOPT_SS_COLUMN_ENCRYPTION, SQL_SOPT_SS_CURRENT_COMMAND, SQL_SOPT_SS_CURSOR_OPTIONS,
    SQL_SOPT_SS_DEFER_PREPARE, SQL_SOPT_SS_HIDDEN_COLUMNS, SQL_SOPT_SS_NOCOUNT_STATUS,
    SQL_SOPT_SS_PARAM_FOCUS, SQL_SOPT_SS_QUERYNOTIFICATION_TIMEOUT, SQL_VARCHAR,
};

/// A statement whose client is a number, which no code page decodes.
type State = StmtState<u32, ()>;

fn binding(column_number: SqlUSmallInt, target_type: SqlSmallInt) -> ColumnBinding {
    ColumnBinding {
        column_number,
        target_type,
        target_value_ptr: 0,
        buffer_length: 0,
        strlen_or_ind_ptr: 0,
    }
}

fn with_state(f: impl FnOnce(&mut State)) {
    let mut handle: StmtHandle<u32, ()> = StmtHandle::new(0, 0);
    f(&mut handle.state);
}

fn int_columns(count: usize) -> Vec<ColumnMetadata> {
    (0..count)
        .map(|_| ColumnMetadata {
            column_name: String::new(),
            plp: false,
            plp_encoding: None,
        })
        .collect()
}

#[test]
fn rebinding_a_column_replaces_its_entry() {
    with_state(|s| {
        s.set_binding(binding(1, SQL_C_SLONG));
        s.set_binding(binding(2, SQL_C_SLONG));
        s.set_binding(binding(1, SQL_C_CHAR));

        assert_eq!(s.bindings.len(), 2);
        let first = s.bindings.iter().find(|b| b.column_number == 1).unwrap();
        assert_eq!(first.target_type, SQL_C_CHAR);
    });
}

#[test]
fn clearing_one_binding_leaves_the_others() {
    with_state(|s| {
        s.set_binding(binding(1, SQL_C_SLONG));
        s.set_binding(binding(2, SQL_C_SLONG));
        s.clear_binding(1);

        assert_eq!(s.bindings.len(), 1);
        assert_eq!(s.bindings[0].column_number, 2);
        s.clear_binding(99);
        assert_eq!(s.bindings.len(), 1);
    });
}

#[test]
fn clearing_all_bindings_empties_the_table() {
    with_state(|s| {
        s.set_binding(binding(1, SQL_C_SLONG));
        s.set_binding(binding(2, SQL_C_SLONG));
        s.clear_bindings();
        assert!(s.bindings.is_empty());
    });
}

#[test]
fn bindings_stay_ordered_by_column_however_they_were_bound() {
    with_state(|s| {
        for col in [5, 1, 3, 2, 4] {
            s.set_binding(binding(col, SQL_C_SLONG));
        }
        let cols: Vec<_> = s.bindings.iter().map(|b| b.column_number).collect();
        assert_eq!(cols, vec![1, 2, 3, 4, 5]);

        s.set_binding(binding(3, SQL_C_CHAR));
        let cols: Vec<_> = s.bindings.iter().map(|b| b.column_number).collect();
        assert_eq!(cols, vec![1, 2, 3, 4, 5]);
        assert_eq!(s.bindings[2].target_type, SQL_C_CHAR);
    });
}

#[test]
fn a_fresh_statement_has_no_bindings() {
    with_state(|s| {
        assert!(s.bindings.is_empty());
        assert!(s.row_bind_offset_ptr == 0);
    });
}

#[test]
fn beginning_a_row_discards_the_previous_buffered_get_data_row() {
    with_state(|s| {
        s.buffered_get_data_row = Some(BufferedGetDataRow {
            values: vec![Some(ColumnValues::Int(1))],
            variant_bases: vec![Some(TdsDataType { token: 0x38 })],
            consumed: 0,
            wire_deferred: false,
        });

        s.begin_row();

        assert!(s.row_positioned);
        assert!(s.buffered_get_data_row.is_none());
    });
}

#[test]
fn beginning_result_set_caches_utf16_column_names() {
    with_state(|s| {
        let mut metadata = int_columns(2);
        metadata[0].column_name = "alpha".to_string();
        metadata[1].column_name = "beta\u{1f642}".to_string();

        s.begin_result_set(metadata);

        assert_eq!(
            s.column_names_utf16,
            vec![
                "alpha".encode_utf16().collect::<Vec<_>>(),
                "beta\u{1f642}".encode_utf16().collect::<Vec<_>>(),
            ]
        );
    });
}

#[test]
fn clearing_result_metadata_clears_all_derived_caches() {
    with_state(|s| {
        let mut metadata = int_columns(1);
        metadata[0].column_name = "value".to_string();
        s.begin_result_set(metadata);
        s.plp_encodings = Some(vec![None]);

        s.clear_result_metadata();

        assert!(s.column_metadata.is_empty());
        assert!(s.column_names_utf16.is_empty());
        assert!(s.plp_encodings.is_none());
    });
}

#[test]
fn prefetched_plp_wire_spans_application_calls() {
    let mut stream = ActivePlpStream::<()>::new(1, PlpEncoding::SingleByteText, None);
    stream.set_prefetched_wire(vec![1, 2, 3, 4, 5, 6], 6, 8, Some(14), true);

    let mut first = [0; 2];
    assert_eq!(
        stream.read_prefetched_wire(&mut first),
        Some((2, false, Some(14), 10))
    );
    assert_eq!(first, [1, 2]);

    let mut second = [0; 8];
    assert_eq!(
        stream.read_prefetched_wire(&mut second),
        Some((4, true, Some(14), 14))
    );
    assert_eq!(&second[..4], &[3, 4, 5, 6]);
    assert_eq!(stream.read_prefetched_wire(&mut second), None);
}

#[test]
fn prefetched_plp_wire_preserves_unknown_length_and_incomplete_tail() {
    let mut stream = ActivePlpStream::<()>::new(1, PlpEncoding::SingleByteText, None);
    stream.set_prefetched_wire(vec![7, 8, 9], 2, 5, None, false);

    let mut probe = [];
    assert_eq!(
        stream.read_prefetched_wire(&mut probe),
        Some((0, false, None, 5))
    );

    let mut output = [0; 4];
    assert_eq!(
        stream.read_prefetched_wire(&mut output),
        Some((2, false, None, 7))
    );
    assert_eq!(&output[..2], &[7, 8]);
    assert_eq!(stream.read_prefetched_wire(&mut output), None);
}

#[test]
fn a_result_in_chunks_caches_its_encodings() {
    with_state(|s| {
        let mut metadata = int_columns(2);
        metadata[1].plp = true;
        metadata[1].plp_encoding = Some(PlpEncoding::Utf16Text);
        s.begin_result_set(metadata);
        assert_eq!(s.plp_encodings, Some(vec![None, Some(PlpEncoding::Utf16Text)]));
        s.begin_result_set(int_columns(1));
        assert_eq!(s.plp_encodings, None);
    });
}

#[test]
fn commands_are_counted_within_a_batch() {
    with_state(|s| {
        s.rows_returned = 9;
        s.begin_batch(int_columns(1));
        assert_eq!((s.current_command, s.rows_returned), (1, 0));
        s.begin_result_set(int_columns(1));
        assert_eq!(s.current_command, 2);
        s.begin_batch(int_columns(1));
        assert_eq!(s.current_command, 1);
    });
}

#[test]
fn the_limit_on_rows_is_off_at_zero() {
    with_state(|s| {
        s.rows_returned = 3;
        assert!(!s.max_rows_reached());
        s.max_rows = 4;
        assert!(!s.max_rows_reached());
        s.max_rows = 3;
        assert!(s.max_rows_reached());
    });
}

#[test]
fn flags_are_set_and_cleared_apart() {
    with_state(|s| {
        s.set_state(STMT_STATE_PREPARED | STMT_STATE_CURSOR_OPEN);
        s.set_state(STMT_STATE_EXEC_STARTED);
        s.clear_state(STMT_STATE_CURSOR_OPEN);
        assert!(s.has_state(STMT_STATE_PREPARED));
        assert!(s.has_state(STMT_STATE_EXEC_STARTED));
        assert!(!s.has_state(STMT_STATE_CURSOR_OPEN));
        assert!(!s.has_state(STMT_STATE_EXEC_CONTEXT | STMT_STATE_FETCH_IN_PROGRESS));
    });
}

#[test]
fn a_new_result_inherits_no_exhaustion() {
    with_state(|s| {
        s.result_set_exhausted = true;
        s.batch_exhausted = true;
        s.pending_fetch_error = Some(DiagRecord::new(*b"HY000", 1, "late"));
        s.pending_fetch_info.push(DiagRecord::new(*b"01000", 0, "note"));
        s.clear_exhaustion_state();
        assert!(!s.result_set_exhausted && !s.batch_exhausted);
        assert!(s.pending_fetch_error.is_none());
        assert!(s.pending_fetch_info.is_empty());
    });
}

fn plan(id: Option<StatementId>) -> PreparedPlan {
    PreparedPlan {
        stmt: PreparedStatement {
            sql: "select @P1".to_string(),
            id,
        },
        marker_count: 1,
    }
}

#[test]
fn a_superseded_handle_waits_for_release() {
    with_state(|s| {
        s.orphan_prepared_handle();
        assert!(s.pending_unprepare.is_none());
        s.prepared = Some(plan(Some(StatementId { handle: 5 })));
        s.orphan_prepared_handle();
        assert_eq!(s.pending_unprepare, Some(StatementId { handle: 5 }));
        let left = s.prepared.as_ref().unwrap();
        assert_eq!((left.stmt.sql.as_str(), left.stmt.id), ("select @P1", None));
        s.orphan_prepared_handle();
        assert_eq!(s.pending_unprepare, Some(StatementId { handle: 5 }));
    });
}

fn bound(c_type: SqlSmallInt) -> BoundParam {
    BoundParam {
        input_output_type: SQL_PARAM_INPUT,
        c_type,
        sql_type: SQL_VARCHAR,
        column_size: 0,
        decimal_digits: 0,
        value: None,
        buffer_length: 0,
        indicator: None,
        octet_length: None,
    }
}

#[test]
fn a_sequence_walks_its_parameters_and_gives_everything_back() {
    with_state(|s| {
        assert!(!s.needs_data());
        assert_eq!(s.take_dae(), None);
        s.bound_params = vec![None, Some(bound(SQL_C_CHAR))];
        let params = vec![
            DaeParam { bound_index: 1, value_ptr: 0x10, expected_len: Some(3) },
            DaeParam { bound_index: 7, value_ptr: 0x20, expected_len: None },
        ];
        s.dae = Some(DaeState::new(42, Some(plan(None)), Some(StatementId { handle: 9 }), params));
        assert!(s.needs_data());
        assert_eq!((s.dae_current_value_ptr(), s.dae_current_c_type()), (0, None));

        let dae = s.dae.as_mut().unwrap();
        dae.advance();
        dae.progress.bytes_sent = 3;
        assert_eq!(
            (s.dae_current_value_ptr(), s.dae_current_c_type()),
            (0x10, Some(SQL_C_CHAR))
        );
        let dae = s.dae.as_mut().unwrap();
        dae.advance();
        assert_eq!(dae.progress, DaeProgress::default());
        assert_eq!((s.dae_current_value_ptr(), s.dae_current_c_type()), (0x20, None));
        let dae = s.dae.as_mut().unwrap();
        dae.advance();
        assert!(dae.current_param().is_none());

        assert_eq!(s.take_dae(), Some(42));
        assert!(s.prepared.is_some());
        assert_eq!(s.pending_unprepare, Some(StatementId { handle: 9 }));
    });
}

#[test]
fn a_checked_out_client_is_not_given_twice() {
    let mut dae = DaeState::new(7u32, None, None, Vec::new());
    assert!(!dae.call_in_flight());
    assert_eq!(dae.checkout_client(), Some(7));
    assert!(dae.call_in_flight());
    assert_eq!(dae.checkout_client(), None);
    dae.return_client(8);
    assert!(!dae.call_in_flight());
    assert_eq!(dae.checkout_client(), Some(8));
}

#[test]
fn a_new_statement_owns_its_four_descriptors() {
    let stmt: StmtHandle<u32, ()> = StmtHandle::new(0x55, 30);
    assert_eq!(stmt.ard.kind, DescKind::AppRow);
    assert_eq!(stmt.apd.kind, DescKind::AppParam);
    assert_eq!(stmt.ird.kind, DescKind::ImpRow);
    assert_eq!(stmt.ipd.kind, DescKind::ImpParam);
    for desc in [&stmt.ard, &stmt.apd, &stmt.ird, &stmt.ipd] {
        assert!(!desc.is_explicit());
        assert_eq!(desc.parent_dbc, 0x55);
    }
    assert_eq!((stmt.state.query_timeout, stmt.state.row_count), (30, -1));
    assert_eq!(stmt.state.row_array_size, 1);
}

#[test]
fn attributes_without_effect_are_read_back() {
    let mut attrs = InertStmtAttrs::default();
    assert_eq!(attrs.get(SQL_ATTR_CURSOR_SENSITIVITY), Some(1));
    assert_eq!(attrs.get(SQL_ATTR_SIMULATE_CURSOR), Some(2));
    assert_eq!(attrs.get(SQL_ATTR_RETRIEVE_DATA), Some(1));
    assert_eq!(attrs.get(SQL_ROWSET_SIZE), Some(1));
    assert_eq!(attrs.get(SQL_ATTR_METADATA_ID), Some(0));
    assert!(attrs.contains(SQL_ATTR_NOSCAN));
    assert!(!attrs.contains(9999));
    assert!(attrs.set(SQL_ATTR_NOSCAN, 77));
    assert_eq!(attrs.get(SQL_ATTR_NOSCAN), Some(77));
    assert!(!attrs.set(9999, 1));
    assert_eq!(attrs.get(9999), None);
    assert_eq!(attrs.get(SQL_ROWSET_SIZE), Some(1));
}

#[test]
fn the_bind_offset_is_read_through_its_address() {
    let mut attrs = InertStmtAttrs::default();
    assert_eq!(attrs.param_bind_offset_ptr(), 0);
    assert_eq!(attrs.param_bind_offset(8), 0);
    attrs.set(SQL_ATTR_PARAM_BIND_OFFSET_PTR, 0x1000);
    assert_eq!(attrs.param_bind_offset_ptr(), 0x1000);
    assert_eq!(attrs.param_bind_offset(-8), -8);
}

#[test]
fn vendor_attributes_take_what_their_rule_admits() {
    let mut attrs = VendorStmtAttrs::default();
    assert_eq!(attrs.get(SQL_SOPT_SS_DEFER_PREPARE), Some(1));
    assert!(attrs.set(SQL_SOPT_SS_DEFER_PREPARE, 0));
    assert!(!attrs.set(SQL_SOPT_SS_DEFER_PREPARE, 2));
    assert_eq!(attrs.get(SQL_SOPT_SS_DEFER_PREPARE), Some(0));

    assert_eq!(attrs.get(SQL_SOPT_SS_QUERYNOTIFICATION_TIMEOUT), Some(432_000));
    assert!(!attrs.set(SQL_SOPT_SS_QUERYNOTIFICATION_TIMEOUT, 0));
    assert!(attrs.set(SQL_SOPT_SS_QUERYNOTIFICATION_TIMEOUT, 2_147_483_647));
    assert!(!attrs.set(SQL_SOPT_SS_QUERYNOTIFICATION_TIMEOUT, 2_147_483_648));
    assert!(!attrs.set(SQL_SOPT_SS_CURSOR_OPTIONS, 99));

    for attribute in [SQL_SOPT_SS_PARAM_FOCUS, SQL_SOPT_SS_COLUMN_ENCRYPTION] {
        assert!(VendorStmtAttrs::is_settable(attribute));
        assert!(!attrs.set(attribute, 0));
    }
    for attribute in [SQL_SOPT_SS_CURRENT_COMMAND, SQL_SOPT_SS_NOCOUNT_STATUS] {
        assert!(!VendorStmtAttrs::is_settable(attribute));
        assert!(!attrs.set(attribute, 0));
    }
    assert!(!VendorStmtAttrs::is_settable(1));
    assert_eq!(attrs.get(1), None);
    assert_eq!(attrs.get(SQL_SOPT_SS_HIDDEN_COLUMNS), Some(0));
    assert!(ValueRule::Range(1, 3).admits(3));
    assert!(!ValueRule::Range(1, 3).admits(4));
}

#[test]
fn the_emptied_prefetch_buffer_is_reused() {
    let mut stream = ActivePlpStream::<()>::new(2, PlpEncoding::Binary, None);
    stream.set_prefetched_wire(vec![1, 2, 3], 3, 0, Some(3), true);
    assert!(stream.take_prefetch_buffer().is_empty());
    let mut out = [0; 4];
    assert_eq!(stream.read_prefetched_wire(&mut out), None);
    stream.set_prefetch_error(DiagRecord::new(*b"08S01", 3, "reset"));
    assert_eq!(stream.take_prefetch_error().unwrap().native_error, 3);
    assert!(stream.take_prefetch_error().is_none());
}
