//! Descriptors.

use std::sync::Arc;

use mssql_odbc::handles::desc::{
    classify_field, owning_statement, DescHandle, DescHeader, DescKind, DescRecord, DescState,
    FieldAccess, FieldScope, StatementLink, UdtNameClaims, UdtNames,
};
use mssql_odbc::odbc_types::{
    SQL_CA_SS_UDT_ASSEMBLY_TYPE_NAME, SQL_CA_SS_UDT_CATALOG_NAME, SQL_CA_SS_UDT_SCHEMA_NAME,
    SQL_CA_SS_UDT_TYPE_NAME, SQL_C_DEFAULT, SQL_DATETIME, SQL_DECIMAL, SQL_DESC_ALLOC_AUTO,
    SQL_DESC_ALLOC_TYPE, SQL_DESC_ALLOC_USER, SQL_DESC_ARRAY_SIZE, SQL_DESC_ARRAY_STATUS_PTR,
    SQL_DESC_BIND_OFFSET_PTR, SQL_DESC_BIND_TYPE, SQL_DESC_CONCISE_TYPE, SQL_DESC_COUNT,
    SQL_DESC_DATA_PTR, SQL_DESC_DATETIME_INTERVAL_CODE, SQL_DESC_INDICATOR_PTR, SQL_DESC_LENGTH,
    SQL_DESC_NAME, SQL_DESC_NULLABLE, SQL_DESC_OCTET_LENGTH, SQL_DESC_OCTET_LENGTH_PTR,
    SQL_DESC_PARAMETER_TYPE, SQL_DESC_PRECISION, SQL_DESC_ROWS_PROCESSED_PTR, SQL_DESC_SCALE,
    SQL_DESC_TYPE, SQL_DESC_UNNAMED, SQL_ERROR, SQL_INTEGER, SQL_NULLABLE, SQL_PARAM_INPUT,
    SQL_ROWSET_SIZE_DEFAULT, SQL_SS_TIME2, SQL_SS_UDT, SQL_SS_VECTOR, SQL_SUCCESS, SQL_TYPE_DATE,
    SQL_TYPE_TIME, SQL_TYPE_TIMESTAMP, SQL_VARCHAR,
};

const ALL_KINDS: [DescKind; 5] = [
    DescKind::AppRow,
    DescKind::AppParam,
    DescKind::ImpRow,
    DescKind::ImpParam,
    DescKind::Ad,
];

#[test]
fn special_parameter_definitions_keep_size_precision_and_scale() {

    for sql_type in [SQL_SS_VECTOR, SQL_SS_UDT] {
        let mut record = DescRecord::default_for(DescKind::ImpParam);
        record.concise_type = sql_type;
        for field in 0..3 {
            let previous = record.parameter_definition();
            match field {
                0 => record.length += 4,
                1 => record.precision += 1,
                _ => record.scale += 1,
            }
            assert_ne!(record.parameter_definition(), previous);
        }
    }
}

#[test]
fn alloc_type_is_read_only_header_field_everywhere() {
    for kind in ALL_KINDS {
        let access = classify_field(kind, SQL_DESC_ALLOC_TYPE).unwrap();
        assert_eq!(access.scope, FieldScope::Header);
        assert!(!access.writable, "{kind:?}");
    }
}

#[test]
fn count_is_writable_everywhere_except_ird() {
    for kind in ALL_KINDS {
        let access = classify_field(kind, SQL_DESC_COUNT).unwrap();
        assert_eq!(access.scope, FieldScope::Header);
        assert_eq!(access.writable, kind != DescKind::ImpRow, "{kind:?}");
    }
}

#[test]
fn array_size_and_bind_fields_are_ad_only() {
    for field in [
        SQL_DESC_ARRAY_SIZE,
        SQL_DESC_BIND_OFFSET_PTR,
        SQL_DESC_BIND_TYPE,
    ] {
        assert!(classify_field(DescKind::AppRow, field).is_some());
        assert!(classify_field(DescKind::AppParam, field).is_some());
        assert!(classify_field(DescKind::ImpRow, field).is_none());
        assert!(classify_field(DescKind::ImpParam, field).is_none());
    }
}

#[test]
fn rows_processed_ptr_is_implementation_only() {
    assert!(classify_field(DescKind::AppRow, SQL_DESC_ROWS_PROCESSED_PTR).is_none());
    assert!(classify_field(DescKind::AppParam, SQL_DESC_ROWS_PROCESSED_PTR).is_none());
    assert!(classify_field(DescKind::ImpRow, SQL_DESC_ROWS_PROCESSED_PTR).is_some());
    assert!(classify_field(DescKind::ImpParam, SQL_DESC_ROWS_PROCESSED_PTR).is_some());
}

#[test]
fn array_status_ptr_is_writable_on_every_kind_including_ird() {
    for kind in ALL_KINDS {
        let access = classify_field(kind, SQL_DESC_ARRAY_STATUS_PTR).unwrap();
        assert!(access.writable, "{kind:?}");
    }
}

#[test]
fn common_record_fields_are_read_only_on_ird_only() {
    for field in [
        SQL_DESC_TYPE,
        SQL_DESC_CONCISE_TYPE,
        SQL_DESC_DATETIME_INTERVAL_CODE,
        SQL_DESC_LENGTH,
        SQL_DESC_OCTET_LENGTH,
        SQL_DESC_PRECISION,
        SQL_DESC_SCALE,
    ] {
        for kind in ALL_KINDS {
            let access = classify_field(kind, field).unwrap();
            assert_eq!(access.scope, FieldScope::Record);
            assert_eq!(
                access.writable,
                kind != DescKind::ImpRow,
                "{kind:?} {field}"
            );
        }
    }
}

#[test]
fn data_and_indicator_pointer_fields_are_ad_only() {
    for field in [
        SQL_DESC_DATA_PTR,
        SQL_DESC_INDICATOR_PTR,
        SQL_DESC_OCTET_LENGTH_PTR,
    ] {
        assert!(classify_field(DescKind::AppRow, field).unwrap().writable);
        assert!(classify_field(DescKind::AppParam, field).unwrap().writable);
        assert!(classify_field(DescKind::ImpRow, field).is_none());
        assert!(classify_field(DescKind::ImpParam, field).is_none());
    }
}

#[test]
fn nullable_is_read_only_on_ird_and_ipd_only() {
    assert!(classify_field(DescKind::AppRow, SQL_DESC_NULLABLE).is_none());
    assert!(classify_field(DescKind::AppParam, SQL_DESC_NULLABLE).is_none());
    for kind in [DescKind::ImpRow, DescKind::ImpParam] {
        let access = classify_field(kind, SQL_DESC_NULLABLE).unwrap();
        assert!(!access.writable, "{kind:?}");
    }
}

#[test]
fn name_is_writable_on_ipd_but_not_ird() {
    assert!(classify_field(DescKind::AppRow, SQL_DESC_NAME).is_none());
    assert!(classify_field(DescKind::AppParam, SQL_DESC_NAME).is_none());
    assert!(
        !classify_field(DescKind::ImpRow, SQL_DESC_NAME)
            .unwrap()
            .writable
    );
    assert!(
        classify_field(DescKind::ImpParam, SQL_DESC_NAME)
            .unwrap()
            .writable
    );
}

#[test]
fn unnamed_is_writable_only_on_ipd() {
    assert!(classify_field(DescKind::AppRow, SQL_DESC_UNNAMED).is_none());
    assert!(classify_field(DescKind::AppParam, SQL_DESC_UNNAMED).is_none());
    assert!(
        !classify_field(DescKind::ImpRow, SQL_DESC_UNNAMED)
            .unwrap()
            .writable
    );
    assert!(
        classify_field(DescKind::ImpParam, SQL_DESC_UNNAMED)
            .unwrap()
            .writable
    );
}

#[test]
fn parameter_type_is_ipd_only() {
    assert!(classify_field(DescKind::AppRow, SQL_DESC_PARAMETER_TYPE).is_none());
    assert!(classify_field(DescKind::AppParam, SQL_DESC_PARAMETER_TYPE).is_none());
    assert!(classify_field(DescKind::ImpRow, SQL_DESC_PARAMETER_TYPE).is_none());
    assert!(
        classify_field(DescKind::ImpParam, SQL_DESC_PARAMETER_TYPE)
            .unwrap()
            .writable
    );
}

#[test]
fn udt_name_fields_are_writable_on_ipd_only() {
    for field in [
        SQL_CA_SS_UDT_CATALOG_NAME,
        SQL_CA_SS_UDT_SCHEMA_NAME,
        SQL_CA_SS_UDT_TYPE_NAME,
        SQL_CA_SS_UDT_ASSEMBLY_TYPE_NAME,
    ] {
        for kind in [DescKind::AppRow, DescKind::AppParam, DescKind::ImpRow] {
            assert!(classify_field(kind, field).is_none(), "{kind:?} {field}");
        }
        let access = classify_field(DescKind::ImpParam, field).unwrap();
        assert_eq!(access.scope, FieldScope::Record, "{field}");
        assert!(access.writable, "{field}");
    }
}

#[test]
fn unknown_field_id_is_none_for_every_kind() {
    for kind in ALL_KINDS {
        assert!(classify_field(kind, 0xFFFF).is_none());
    }
}

#[test]
fn the_udt_name_is_part_of_the_prepared_parameter_definition() {
    let mut record = DescRecord::default_for(DescKind::ImpParam);
    record.concise_type = SQL_SS_UDT;
    let without_names = record.parameter_definition();

    record.udt_names = Some(Arc::new(UdtNames {
        catalog: String::new(),
        schema: "dbo".to_string(),
        udt_type: "Point".to_string(),
        assembly_type_name: String::new(),
    }));
    let point = record.parameter_definition();
    assert_ne!(without_names, point);

    record
        .udt_names
        .as_mut()
        .map(Arc::make_mut)
        .unwrap()
        .udt_type = "Shape".to_string();
    assert_ne!(point, record.parameter_definition());

    record
        .udt_names
        .as_mut()
        .map(Arc::make_mut)
        .unwrap()
        .udt_type = "Point".to_string();
    record
        .udt_names
        .as_mut()
        .map(Arc::make_mut)
        .unwrap()
        .assembly_type_name = "Asm.Point".to_string();
    assert_eq!(
        point,
        record.parameter_definition(),
        "the assembly name never reaches the wire, so it cannot invalidate"
    );

    let mut assembly_only = DescRecord::default_for(DescKind::ImpParam);
    assembly_only.concise_type = SQL_SS_UDT;
    assembly_only.udt_names = Some(Arc::new(UdtNames {
        assembly_type_name: "Asm.Point".to_string(),
        ..Default::default()
    }));
    assert_eq!(
        without_names,
        assembly_only.parameter_definition(),
        "an assembly-only record declares nothing, so it must not re-prepare"
    );

    for partial in [
        UdtNames {
            catalog: "mydb".to_string(),
            ..Default::default()
        },
        UdtNames {
            schema: "dbo".to_string(),
            ..Default::default()
        },
    ] {
        let mut record = DescRecord::default_for(DescKind::ImpParam);
        record.concise_type = SQL_SS_UDT;
        record.udt_names = Some(Arc::new(partial));
        assert_eq!(
            without_names,
            record.parameter_definition(),
            "a qualification without a type name declares nothing"
        );
    }

    let mut scalar = DescRecord::default_for(DescKind::ImpParam);
    scalar.concise_type = SQL_INTEGER;
    let scalar_plain = scalar.parameter_definition();
    scalar.udt_names = Some(Arc::new(UdtNames {
        udt_type: "Point".to_string(),
        ..Default::default()
    }));
    assert_eq!(
        scalar_plain,
        scalar.parameter_definition(),
        "a UDT name on a non-UDT record changes no declaration"
    );

    scalar.concise_type = SQL_SS_UDT;
    assert_ne!(scalar_plain, scalar.parameter_definition());
}

#[test]
fn set_record_count_grows_with_kind_defaults() {
    let mut state = DescState {
        diag_records: Vec::new(),
        header: DescHeader::default(),
        records: Vec::new(),
    };
    state.set_record_count(3, DescKind::AppParam);
    assert_eq!(state.records.len(), 3);
    for record in &state.records {
        assert_eq!(record.concise_type, SQL_C_DEFAULT);
    }

    let mut ipd_state = DescState {
        diag_records: Vec::new(),
        header: DescHeader::default(),
        records: Vec::new(),
    };
    ipd_state.set_record_count(1, DescKind::ImpParam);
    assert_eq!(ipd_state.records.len(), 1);
    assert_eq!(ipd_state.records[0].parameter_type, SQL_PARAM_INPUT);
    assert_eq!(ipd_state.records[0].nullable, SQL_NULLABLE);
}

#[test]
fn set_record_count_shrink_discards_trailing_records_and_preserves_the_rest() {
    let mut state = DescState {
        diag_records: Vec::new(),
        header: DescHeader::default(),
        records: Vec::new(),
    };
    state.set_record_count(3, DescKind::AppRow);
    if let Some(r) = state.record_mut(1) {
        r.concise_type = 42;
    }
    state.set_record_count(1, DescKind::AppRow);
    assert_eq!(state.records.len(), 1);
    assert_eq!(state.record(1).unwrap().concise_type, 42);
    assert!(state.record(2).is_none());
}

#[test]
fn record_and_record_mut_reject_zero_and_negative() {
    let mut state = DescState {
        diag_records: Vec::new(),
        header: DescHeader::default(),
        records: Vec::new(),
    };
    state.set_record_count(1, DescKind::AppRow);
    assert!(state.record(0).is_none());
    assert!(state.record(-1).is_none());
    assert!(state.record_mut(0).is_none());
}

#[test]
fn verbose_type_passes_through_date_but_collapses_time_and_timestamp() {
    let mut record = DescRecord::default_for(DescKind::ImpRow);
    record.concise_type = SQL_TYPE_DATE;
    assert_eq!(record.verbose_type(), SQL_TYPE_DATE);
    record.concise_type = SQL_TYPE_TIME;
    assert_eq!(record.verbose_type(), SQL_DATETIME);
    record.concise_type = SQL_TYPE_TIMESTAMP;
    assert_eq!(record.verbose_type(), SQL_DATETIME);
    record.concise_type = SQL_INTEGER;
    assert_eq!(record.verbose_type(), SQL_INTEGER);
}

#[test]
fn clearing_auto_filled_udt_names_spares_application_supplied_ones() {
    let mut handle = DescHandle::new(DescKind::ImpParam, SQL_DESC_ALLOC_AUTO, 1);
    handle.state.set_record_count(2, DescKind::ImpParam);
    let described = handle.state.record_mut(1).unwrap();
    described.udt_names = Some(Arc::new(UdtNames {
        udt_type: "hierarchyid".to_string(),
        ..Default::default()
    }));
    described.udt_name_claimed = UdtNameClaims::default();
    let chosen = handle.state.record_mut(2).unwrap();
    chosen.udt_names = Some(Arc::new(UdtNames {
        udt_type: "Point".to_string(),
        ..Default::default()
    }));
    chosen.udt_name_claimed = UdtNameClaims {
        catalog: true,
        schema: true,
        udt_type: true,
    };

    handle.clear_auto_filled_udt_names();

    assert!(handle.state.records[0].udt_names.is_none());
    assert_eq!(
        handle.state.records[0].udt_name_claimed,
        UdtNameClaims::default()
    );
    assert_eq!(
        handle.state.records[1].udt_names.as_ref().unwrap().udt_type,
        "Point"
    );
}

#[test]
fn the_assembly_name_neither_claims_nor_loses_the_wire_identity() {
    let mut handle = DescHandle::new(DescKind::ImpParam, SQL_DESC_ALLOC_AUTO, 1);
    handle.state.set_record_count(1, DescKind::ImpParam);
    let record = handle.state.record_mut(1).unwrap();
    record.udt_names = Some(Arc::new(UdtNames {
        udt_type: "hierarchyid".to_string(),
        assembly_type_name: "Asm.Point".to_string(),
        ..Default::default()
    }));
    record.udt_name_claimed = UdtNameClaims::default();

    assert_eq!(handle.clear_auto_filled_udt_names(), SQL_SUCCESS);

    let names = handle.state.records[0].udt_names.as_ref().unwrap();
    assert_eq!(
        names.udt_type, "",
        "the auto-filled wire identity must not survive"
    );
    assert_eq!(
        names.assembly_type_name, "Asm.Point",
        "the application's assembly name is not the server's to drop"
    );
}

#[test]
fn new_descriptor_starts_with_no_records_and_default_header() {
    let handle = DescHandle::new(DescKind::AppParam, SQL_DESC_ALLOC_AUTO, 0);
    assert!(handle.state.records.is_empty());
    assert_eq!(handle.state.header.alloc_type, SQL_DESC_ALLOC_AUTO);
    assert_eq!(handle.state.header.array_size, SQL_ROWSET_SIZE_DEFAULT);
}

#[test]
fn new_explicit_descriptor_reports_alloc_user_on_both_copies() {
    let handle = DescHandle::new(DescKind::Ad, SQL_DESC_ALLOC_USER, 0x1234);
    assert!(handle.is_explicit());
    assert_eq!(handle.parent_dbc, 0x1234);
    assert_eq!(handle.state.header.alloc_type, SQL_DESC_ALLOC_USER);
}

#[test]
fn a_partly_claimed_name_keeps_the_claimed_part() {
    let mut handle = DescHandle::new(DescKind::ImpParam, SQL_DESC_ALLOC_AUTO, 1);
    handle.state.set_record_count(1, DescKind::ImpParam);
    let record = handle.state.record_mut(1).unwrap();
    record.udt_names = Some(Arc::new(UdtNames {
        catalog: "db".to_string(),
        schema: "dbo".to_string(),
        udt_type: "Point".to_string(),
        assembly_type_name: String::new(),
    }));
    record.udt_name_claimed = UdtNameClaims {
        catalog: false,
        schema: true,
        udt_type: false,
    };
    for _ in 0..2 {
        handle.clear_auto_filled_udt_names();
        let names = handle.state.records[0].udt_names.as_ref().unwrap();
        assert_eq!(
            (names.catalog.as_str(), names.schema.as_str(), names.udt_type.as_str()),
            ("", "dbo", "")
        );
    }
}

/// An IPD with two `varchar(10)` parameters.
fn two_parameters() -> DescHandle {
    let mut handle = DescHandle::new(DescKind::ImpParam, SQL_DESC_ALLOC_AUTO, 1);
    handle.state.set_record_count(2, DescKind::ImpParam);
    for record in &mut handle.state.records {
        record.concise_type = SQL_VARCHAR;
        record.length = 10;
    }
    handle
}

#[test]
fn a_changed_declaration_discards_the_prepared_statement() {
    let mut handle = two_parameters();
    let mut discarded = None;
    let rc = handle.update_definition(
        2,
        |mut state| {
            state.record_mut(2).unwrap().length = 20;
            (state, SQL_SUCCESS)
        },
        |first| {
            discarded = Some(first);
            true
        },
    );
    assert_eq!(rc, SQL_SUCCESS);
    assert_eq!(discarded, Some(2));
    assert_eq!(handle.state.records[1].length, 20);
}

#[test]
fn an_unchanged_declaration_discards_nothing() {
    let mut handle = two_parameters();
    let rc = handle.update_definition(
        1,
        |mut state| {
            state.record_mut(1).unwrap().precision = 7;
            (state, SQL_ERROR)
        },
        |_| panic!("a varchar is declared by its length alone"),
    );
    assert_eq!(rc, SQL_ERROR);

    let mut ard = DescHandle::new(DescKind::AppRow, SQL_DESC_ALLOC_AUTO, 1);
    let rc = ard.update_definition(
        0,
        |mut state| {
            state.set_record_count(3, DescKind::AppRow);
            (state, SQL_SUCCESS)
        },
        |_| panic!("an application descriptor declares nothing"),
    );
    assert_eq!(rc, SQL_SUCCESS);
    assert_eq!(ard.state.records.len(), 3);
}

#[test]
fn a_changed_count_discards_from_the_first_that_came_or_went() {
    for (count, expected) in [(5usize, 3usize), (1, 2)] {
        let mut handle = two_parameters();
        let mut discarded = None;
        handle.update_definition(
            0,
            |mut state| {
                state.set_record_count(count, DescKind::ImpParam);
                (state, SQL_SUCCESS)
            },
            |first| {
                discarded = Some(first);
                true
            },
        );
        assert_eq!(discarded, Some(expected), "{count} records");
    }
}

#[test]
fn a_prepared_statement_that_cannot_be_discarded_fails_the_write() {
    let mut handle = two_parameters();
    let rc = handle.update_definition(
        1,
        |mut state| {
            state.record_mut(1).unwrap().concise_type = SQL_INTEGER;
            (state, SQL_SUCCESS)
        },
        |_| false,
    );
    assert_eq!(rc, SQL_ERROR);
    assert_eq!(handle.state.diag_records.len(), 1);
    assert_eq!(handle.state.diag_records[0].sql_state, *b"HY000");
    assert_eq!(handle.state.records[0].concise_type, SQL_INTEGER);
}

#[test]
fn the_owner_of_a_descriptor_is_found_among_the_statements() {
    let statements = [
        StatementLink { stmt: 10, ipd: 11 },
        StatementLink { stmt: 20, ipd: 21 },
    ];
    assert_eq!(owning_statement(&statements, 21), Some(20));
    assert_eq!(owning_statement(&statements, 22), None);
}

#[test]
fn times_are_declared_without_their_scale() {
    let mut record = DescRecord::default_for(DescKind::ImpParam);
    record.concise_type = SQL_SS_TIME2;
    let before = record.parameter_definition();
    record.scale = 3;
    assert_eq!(record.parameter_definition(), before);

    record.concise_type = SQL_DECIMAL;
    let decimal = record.parameter_definition();
    record.length = 99;
    assert_eq!(record.parameter_definition(), decimal);
    record.scale = 4;
    assert_ne!(record.parameter_definition(), decimal);
}

#[test]
fn header_and_record_fields_are_told_apart() {
    assert_eq!(
        classify_field(DescKind::ImpRow, SQL_DESC_COUNT),
        Some(FieldAccess {
            scope: FieldScope::Header,
            writable: false
        })
    );
    assert_eq!(
        classify_field(DescKind::Ad, SQL_DESC_DATA_PTR),
        Some(FieldAccess {
            scope: FieldScope::Record,
            writable: true
        })
    );
}

#[test]
fn a_new_row_record_is_zeroed() {
    let record = DescRecord::default_for(DescKind::ImpRow);
    assert_eq!((record.concise_type, record.parameter_type, record.nullable), (0, 0, 0));
    assert_eq!((record.length, record.data_ptr), (0, 0));
    assert!(record.name.is_empty());
    assert!(!record.data_bound);
    assert!(record.udt_names.is_none());
}
