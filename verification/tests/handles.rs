//! The handle table, bindings in use, environments, connections and forks.

use std::sync::Arc;

use mssql_odbc::diag::{
    free_errors, post_sql_error, DiagRecord, SQLSTATE_HY000, SQLSTATE_HY001, SQLSTATE_HY010,
};
use mssql_odbc::handles::activity::{activity_max, ActivityForest, ActivityId};
use mssql_odbc::handles::bindings::{
    descriptor_message, BindingError, BindingLease, BindingUse, ParameterBindingKey,
};
use mssql_odbc::handles::dae_state::{DaeState, PreparedPlan, PreparedStatement, StatementId};
use mssql_odbc::handles::dbc::{ConnectionState, DbcHandle, VendorConnOverrides};
use mssql_odbc::handles::desc::{DescHandle, DescKind};
use mssql_odbc::handles::env::{
    process_is_shutting_down, release_policy, EnvHandle, OdbcVersion, ReleasePolicy,
};
use mssql_odbc::handles::fork::{
    ensure_current_process, environment_count, LiveHandle, LiveHandles, ProcessGate,
};
use mssql_odbc::handles::handle_id::{HandleId, HandleType, RegistryError};
use mssql_odbc::handles::stmt::{StmtHandle, STMT_STATE_CURSOR_OPEN, STMT_STATE_PREPARED};
use mssql_odbc::handles::table::{
    implicit_batch, post_handle_error, report_handle_error, HandleTable,
};
use mssql_odbc::odbc_types::{
    SQL_DESC_ALLOC_USER, SQL_ERROR, SQL_INVALID_HANDLE, SQL_OV_ODBC2, SQL_OV_ODBC3,
    SQL_OV_ODBC3_80,
};

const PAYLOAD: u64 = 1;

struct Statement {
    raw: usize,
    activity: ActivityId,
    implicit: [usize; 4],
}

struct Handles {
    table: HandleTable<&'static str>,
    env: usize,
    dbc: usize,
    dbc_activity: ActivityId,
}

impl Handles {
    fn with_env_dbc() -> Self {
        let mut table: HandleTable<&'static str> = HandleTable::new(1);
        let env_activity = table.forest.add_activity(None);
        let env = table
            .handle_to_raw(HandleType::Env, Arc::new("env"), PAYLOAD, env_activity)
            .unwrap();
        let dbc_activity = table.forest.add_activity(Some(env_activity));
        let dbc = table
            .handle_to_raw(HandleType::Dbc, Arc::new("dbc"), PAYLOAD, dbc_activity)
            .unwrap();
        Handles { table, env, dbc, dbc_activity }
    }

    fn alloc_stmt(&mut self) -> Statement {
        let activity = self.table.forest.add_activity(Some(self.dbc_activity));
        let mut implicit = [0; 4];
        for raw in &mut implicit {
            let child = self.table.forest.add_activity(Some(activity));
            *raw = self
                .table
                .handle_to_raw(HandleType::Desc, Arc::new("implicit"), PAYLOAD, child)
                .unwrap();
        }
        let raw = self
            .table
            .handle_to_raw(HandleType::Stmt, Arc::new("stmt"), PAYLOAD, activity)
            .unwrap();
        Statement { raw, activity, implicit }
    }

    fn alloc_explicit_desc(&mut self) -> usize {
        let activity = self.table.forest.add_activity(Some(self.dbc_activity));
        self.table
            .handle_to_raw(HandleType::Desc, Arc::new("explicit"), PAYLOAD, activity)
            .unwrap()
    }

    fn free_stmt(&mut self, stmt: &Statement) -> Result<(), RegistryError> {
        let handle = self.table.handle_from_raw(stmt.raw, HandleType::Stmt, PAYLOAD)?;
        let closing = self.table.begin_close(&handle);
        let result = match closing {
            Ok(guard) => {
                let retired =
                    self.table.retire_handle(stmt.raw, HandleType::Stmt, Some(stmt.implicit));
                guard.reopen(&mut self.table.forest);
                retired
            }
            Err(error) => Err(error),
        };
        drop(handle.into_arc(&mut self.table.forest));
        result
    }
}

#[test]
fn retired_handle_does_not_identify_its_replacement() {
    let mut h = Handles::with_env_dbc();
    let old = h.alloc_stmt();
    assert_eq!(h.free_stmt(&old), Ok(()));
    let replacement = h.alloc_stmt();
    assert_ne!(old.raw, replacement.raw);
    assert!(!h.table.is_live(old.raw));
    assert!(h.table.is_live(replacement.raw));
    assert_eq!(h.free_stmt(&old), Err(RegistryError::NotFound));
    assert!(h.table.is_live(replacement.raw));
}

#[test]
fn disconnect_then_stale_frees_leave_replacements_live() {
    let mut h = Handles::with_env_dbc();
    let old_stmt = h.alloc_stmt();
    let old_desc = h.alloc_explicit_desc();
    h.free_stmt(&old_stmt).unwrap();
    h.table.retire_handle(old_desc, HandleType::Desc, None).unwrap();
    assert!(!h.table.is_live(old_stmt.raw));
    assert!(!h.table.is_live(old_desc));

    let new_stmt = h.alloc_stmt();
    let new_desc = h.alloc_explicit_desc();
    assert_ne!(old_stmt.raw, new_stmt.raw);
    assert_ne!(old_desc, new_desc);
    assert_eq!(h.free_stmt(&old_stmt), Err(RegistryError::NotFound));
    assert_eq!(
        h.table.retire_handle(old_desc, HandleType::Desc, None),
        Err(RegistryError::NotFound)
    );
    assert!(h.table.is_live(new_stmt.raw));
    assert!(h.table.is_live(new_desc));
}

#[test]
fn statement_retirement_retires_all_implicit_descriptors() {
    let mut h = Handles::with_env_dbc();
    let stmt = h.alloc_stmt();
    assert_eq!(h.free_stmt(&stmt), Ok(()));
    assert!(!h.table.is_live(stmt.raw));
    for desc in stmt.implicit {
        assert!(!h.table.is_live(desc));
    }
    assert!(h.table.is_live(h.dbc));
}

#[test]
fn active_implicit_descriptor_prevents_statement_free() {
    let mut h = Handles::with_env_dbc();
    let stmt = h.alloc_stmt();
    let descriptor_use =
        h.table.handle_from_raw(stmt.implicit[0], HandleType::Desc, PAYLOAD).unwrap();
    assert_eq!(h.free_stmt(&stmt), Err(RegistryError::Busy));
    assert!(h.table.is_live(stmt.raw));
    drop(descriptor_use.into_arc(&mut h.table.forest));
    assert_eq!(h.free_stmt(&stmt), Ok(()));
}

#[test]
fn acquired_descriptor_can_outlive_forced_retirement() {
    let mut h = Handles::with_env_dbc();
    let raw = h.alloc_explicit_desc();
    let desc = h.table.handle_from_raw(raw, HandleType::Desc, PAYLOAD).unwrap();
    h.table.retire_handle(raw, HandleType::Desc, None).unwrap();
    assert!(!h.table.is_live(raw));
    assert_eq!(**desc.value(), "explicit");
    assert_eq!(
        h.table.retire_handle(raw, HandleType::Desc, None),
        Err(RegistryError::NotFound)
    );
}

#[test]
fn activity_overflow_posts_memory_diagnostic_without_needing_another_lease() {
    let mut h = Handles::with_env_dbc();
    let stmt = h.alloc_stmt();
    h.table.forest.set_count(stmt.activity, activity_max());
    let error = h.table.handle_from_raw(stmt.raw, HandleType::Stmt, PAYLOAD).unwrap_err();
    assert_eq!(error, RegistryError::ActivityOverflow);
    let target = h.table.diagnostics_from_raw(stmt.raw, HandleType::Stmt, PAYLOAD);
    assert_eq!(target, Ok(Arc::new("stmt")));
    let mut records = vec![DiagRecord::new(*b"01000", 0, "stale")];
    assert_eq!(report_handle_error(&mut records, target.map(|_| ()), error), SQL_ERROR);
    assert_eq!(records.len(), 1);
    assert_eq!(records[0].sql_state, *b"HY001");
    assert_eq!(records[0].message, "Memory allocation error");
}

#[test]
fn invalid_and_wrong_type_calls_do_not_replace_existing_diagnostics() {
    let mut h = Handles::with_env_dbc();
    let mut records = Vec::new();
    post_sql_error(&mut records, *b"08003", 0, "existing");
    let wrong_type = h.table.handle_from_raw(h.dbc, HandleType::Stmt, PAYLOAD).unwrap_err();
    assert_eq!(
        report_handle_error(&mut records, Ok(()), wrong_type),
        SQL_INVALID_HANDLE
    );
    let null = h.table.handle_from_raw(0, HandleType::Stmt, PAYLOAD).unwrap_err();
    assert_eq!(null, RegistryError::InvalidId);
    assert_eq!(report_handle_error(&mut records, Ok(()), null), SQL_INVALID_HANDLE);
    assert_eq!(records.len(), 1);
    assert_eq!(records[0].sql_state, *b"08003");
}

#[test]
fn a_rejected_call_is_reported_while_its_parent_closes() {
    let mut h = Handles::with_env_dbc();
    let stmt = h.alloc_stmt();
    let dbc = h.table.handle_from_raw(h.dbc, HandleType::Dbc, PAYLOAD).unwrap();
    let closing = h.table.begin_close(&dbc).unwrap();
    let error = h.table.handle_from_raw(stmt.raw, HandleType::Stmt, PAYLOAD).unwrap_err();
    assert_eq!(error, RegistryError::Busy);
    let target = h.table.diagnostics_from_raw(stmt.raw, HandleType::Stmt, PAYLOAD);
    let mut records = vec![DiagRecord::new(SQLSTATE_HY000, 0, "stale diagnostic")];
    assert_eq!(report_handle_error(&mut records, target.map(|_| ()), error), SQL_ERROR);
    assert_eq!(records.len(), 1);
    assert_eq!(records[0].sql_state, *b"HY010");
    assert_eq!(
        h.table.diagnostics_from_raw(stmt.raw, HandleType::Dbc, PAYLOAD),
        Err(RegistryError::WrongType)
    );
    closing.reopen(&mut h.table.forest);
    assert!(h.table.handle_from_raw(stmt.raw, HandleType::Stmt, PAYLOAD).is_ok());
}

#[test]
fn a_handle_retired_before_its_diagnostics_keeps_the_records() {
    let mut records = vec![DiagRecord::new(SQLSTATE_HY000, 7, "kept")];
    assert_eq!(
        report_handle_error(&mut records, Err(RegistryError::NotFound), RegistryError::Busy),
        SQL_INVALID_HANDLE
    );
    assert_eq!((records.len(), records[0].native_error), (1, 7));
}

#[test]
fn every_registry_error_has_its_return_code_and_record() {
    for (error, code, state, message) in [
        (RegistryError::InvalidId, SQL_INVALID_HANDLE, SQLSTATE_HY000, None),
        (RegistryError::NotFound, SQL_INVALID_HANDLE, SQLSTATE_HY000, None),
        (RegistryError::WrongType, SQL_INVALID_HANDLE, SQLSTATE_HY000, None),
        (RegistryError::Busy, SQL_ERROR, SQLSTATE_HY010, Some("Function sequence error")),
        (
            RegistryError::IdSpaceFull,
            SQL_ERROR,
            SQLSTATE_HY001,
            Some("Memory allocation error"),
        ),
        (RegistryError::Capacity, SQL_ERROR, SQLSTATE_HY001, Some("Memory allocation error")),
        (
            RegistryError::ActivityOverflow,
            SQL_ERROR,
            SQLSTATE_HY001,
            Some("Memory allocation error"),
        ),
        (RegistryError::InvalidActivity, SQL_ERROR, SQLSTATE_HY000, None),
        (RegistryError::OwnershipMismatch, SQL_ERROR, SQLSTATE_HY000, None),
        (RegistryError::DuplicateId, SQL_ERROR, SQLSTATE_HY000, None),
    ] {
        assert_eq!(error.sql_return(), code);
        let mut records = vec![DiagRecord::new(*b"01000", 0, "stale")];
        post_handle_error(&mut records, error);
        assert_eq!(records.len(), 1);
        assert_eq!(records[0].sql_state, state);
        assert_eq!(records[0].message, message.unwrap_or(error.message()));
        assert_eq!(
            descriptor_message(error),
            format!("Cannot acquire binding descriptor: {}", error.message())
        );
        free_errors(&mut records);
        assert!(records.is_empty());
    }
}

#[test]
fn a_retirement_batch_refuses_null_addresses() {
    let batch = implicit_batch(9, HandleType::Stmt, [1, 2, 3, 4]).unwrap();
    let raws: Vec<usize> = batch.iter().map(|(id, _)| id.to_raw()).collect();
    assert_eq!(raws, vec![9, 1, 2, 3, 4]);
    assert_eq!(batch[0].1, HandleType::Stmt);
    assert!(batch[1..].iter().all(|(_, kind)| *kind == HandleType::Desc));
    assert_eq!(
        implicit_batch(0, HandleType::Stmt, [1, 2, 3, 4]),
        Err(RegistryError::InvalidId)
    );
    assert_eq!(
        implicit_batch(9, HandleType::Stmt, [1, 2, 0, 4]),
        Err(RegistryError::InvalidId)
    );
}

#[test]
fn environments_are_counted_while_they_live() {
    let mut h = Handles::with_env_dbc();
    assert_eq!(h.table.live_env_count, 1);
    assert_eq!(
        h.table.retire_handle(h.env, HandleType::Dbc, None),
        Err(RegistryError::WrongType)
    );
    assert_eq!(h.table.live_env_count, 1);
    h.table.retire_handle(h.env, HandleType::Env, None).unwrap();
    assert_eq!(h.table.live_env_count, 0);
    assert!(!h.table.is_live(h.env));
    assert!(!h.table.is_live(0));
}

#[test]
fn a_stale_environment_is_not_found_when_none_is_live() {
    let mut h = Handles::with_env_dbc();
    h.table.retire_handle(h.env, HandleType::Env, None).unwrap();
    assert_eq!(
        h.table.retire_handle(h.env, HandleType::Env, None),
        Err(RegistryError::NotFound)
    );
    assert_eq!(h.table.live_env_count, 0);
}

#[test]
fn recycled_public_id_does_not_match_a_cached_descriptor_identity() {
    let mut h = Handles::with_env_dbc();
    let ipd = h.table.forest.add_activity(Some(h.dbc_activity));
    let apd = h.table.forest.add_activity(Some(h.dbc_activity));
    let payload = Arc::new("explicit");
    let weak_old = Arc::downgrade(&payload);
    let old_id = h.table.handle_to_raw(HandleType::Desc, payload, PAYLOAD, apd).unwrap();
    let old = h.table.handle_from_raw(old_id, HandleType::Desc, PAYLOAD).unwrap();
    let old_key = ParameterBindingKey::new(old.activity(), 0, ipd, 0);
    drop(old.into_arc(&mut h.table.forest));
    let prepared_id = StatementId { handle: 42 };
    let mut stmt: StmtHandle<u32, ()> = StmtHandle::new(h.dbc, 0);
    stmt.state.prepared = Some(PreparedPlan {
        stmt: PreparedStatement { sql: "SELECT 1".to_owned(), id: Some(prepared_id) },
        marker_count: 0,
    });
    h.table.retire_handle(old_id, HandleType::Desc, None).unwrap();
    assert!(
        weak_old.upgrade().is_none(),
        "a cached key must not retain descriptor payload"
    );

    h.table.registry.limit_generations(1);
    let recycled = h.alloc_explicit_desc();
    assert_eq!(recycled, old_id);
    let new = h.table.handle_from_raw(recycled, HandleType::Desc, PAYLOAD).unwrap();
    let new_key = ParameterBindingKey::new(new.activity(), 0, ipd, 0);
    assert!(!old_key.matches(&new_key));
    assert!(new_key.matches(&new_key));
    if !old_key.matches(&new_key) {
        stmt.state.orphan_prepared_handle();
    }
    assert!(stmt.state.prepared.as_ref().unwrap().stmt.id.is_none());
    assert_eq!(stmt.state.pending_unprepare, Some(prepared_id));
}

#[test]
fn a_descriptor_is_owned_without_a_call_in_flight() {
    let mut h = Handles::with_env_dbc();
    let raw = h.alloc_explicit_desc();
    assert_eq!(h.table.owned_descriptor(raw, PAYLOAD), Ok(Arc::new("explicit")));
    assert_eq!(h.table.forest.at(h.dbc_activity).count(), 0);
    assert_eq!(
        h.table.owned_descriptor(h.dbc, PAYLOAD),
        Err(BindingError::Registry(RegistryError::WrongType))
    );
    assert_eq!(
        h.table.owned_descriptor(0, PAYLOAD),
        Err(BindingError::Registry(RegistryError::InvalidId))
    );
}

#[test]
fn identities_and_addresses_determine_each_other() {
    let id = HandleId::from_parts(3, 5).unwrap();
    let again = HandleId::from_raw(id.to_raw()).unwrap();
    assert_eq!((again.index(), again.generation()), (3, 5));
    assert_ne!(HandleId::from_parts(3, 6).unwrap().to_raw(), id.to_raw());
    assert_ne!(HandleId::from_parts(4, 5).unwrap().to_raw(), id.to_raw());
}

/// Two connections, each with the activity of one of its descriptors.
fn gates() -> [(ActivityId, ActivityId); 2] {
    let mut forest = ActivityForest::new();
    let env = forest.add_activity(None);
    [(); 2].map(|_| {
        let gate = forest.add_activity(Some(env));
        (gate, forest.add_activity(Some(gate)))
    })
}

#[test]
fn lease_counter_is_checked_and_shared_uses_release_independently() {
    let [(gate, desc), _] = gates();
    let mut binding_use = BindingUse::new(gate, desc);
    assert_eq!(binding_use.holder, desc);
    let first = binding_use.acquire(gate).unwrap();
    let second = binding_use.acquire(gate).unwrap();
    binding_use.release(first);
    assert!(binding_use.is_active());
    binding_use.release(second);
    assert!(!binding_use.is_active());
    binding_use.active = usize::MAX;
    assert!(matches!(binding_use.acquire(gate), Err(BindingError::Capacity)));
    assert_eq!(binding_use.active, usize::MAX);
}

#[test]
fn binding_uses_reject_other_connection_gates_without_changing_counts() {
    let [(gate, desc), (other_gate, other_desc)] = gates();
    let mut binding_use = BindingUse::new(gate, desc);
    let mut other = BindingUse::new(other_gate, other_desc);
    for active_count in [0, 1] {
        let guards: Vec<_> =
            (0..active_count).map(|_| binding_use.acquire(gate).unwrap()).collect();
        let other_guards: Vec<_> =
            (0..active_count * 2).map(|_| other.acquire(other_gate).unwrap()).collect();
        assert!(matches!(
            binding_use.ensure_idle(other_gate),
            Err(BindingError::WrongOwner)
        ));
        assert!(matches!(
            binding_use.acquire(other_gate),
            Err(BindingError::WrongOwner)
        ));
        assert_eq!(binding_use.active, active_count);
        assert_eq!(other.active, active_count * 2);
        if active_count == 0 {
            binding_use.ensure_idle(gate).unwrap();
        } else {
            assert!(matches!(binding_use.ensure_idle(gate), Err(BindingError::InUse)));
        }
        for guard in guards {
            binding_use.release(guard);
        }
        for guard in other_guards {
            other.release(guard);
        }
        assert_eq!(binding_use.active, 0);
        assert_eq!(other.active, 0);
        binding_use.ensure_idle(gate).unwrap();
        other.ensure_idle(other_gate).unwrap();
    }
}

#[test]
fn descriptor_leases_validate_owner_and_release_cloned_descriptor_uses() {
    let [(gate, holder), (other_gate, _)] = gates();
    let desc = Arc::new("descriptor");
    let cloned_desc = Arc::clone(&desc);
    let mut uses = BindingUse::new(gate, holder);
    let mut records: Vec<DiagRecord> = Vec::new();
    let error = BindingLease::acquire(&desc, &mut uses, other_gate).unwrap_err();
    assert!(matches!(error, BindingError::WrongOwner));
    assert_eq!(error.post(&mut records), SQL_ERROR);
    assert_eq!(records.len(), 1);
    assert_eq!(records[0].sql_state, *b"HY000");
    assert_eq!(uses.active, 0);

    let first = BindingLease::acquire(&desc, &mut uses, gate).unwrap();
    let second = BindingLease::acquire(&cloned_desc, &mut uses, gate).unwrap();
    assert_eq!(uses.active, 2);
    assert!(matches!(
        BindingLease::acquire(&desc, &mut uses, other_gate),
        Err(BindingError::WrongOwner)
    ));
    assert_eq!(uses.active, 2);

    first.release(&mut uses);
    assert_eq!(uses.active, 1);
    assert!(uses.is_active());
    second.release(&mut uses);
    assert_eq!(uses.active, 0);
    assert!(!uses.is_active());
    uses.ensure_idle(gate).unwrap();
}

#[test]
fn every_binding_error_has_its_record() {
    for (error, state, message) in [
        (BindingError::InUse, *b"HY010", "Function sequence error"),
        (BindingError::Capacity, *b"HY001", "Memory allocation error"),
        (
            BindingError::Registry(RegistryError::IdSpaceFull),
            *b"HY000",
            "Cannot acquire binding descriptor: all handle slots are currently in use",
        ),
        (BindingError::WrongOwner, *b"HY000", "Internal error resolving binding ownership"),
        (
            BindingError::Poisoned,
            *b"HY000",
            "Internal error accessing parameter or column bindings: poisoned mutex",
        ),
        (BindingError::InvalidRecord, *b"HY000", "Internal error accessing a binding record"),
    ] {
        let mut records = vec![DiagRecord::new(*b"01000", 0, "kept")];
        assert_eq!(error.post(&mut records), SQL_ERROR);
        assert_eq!(records.len(), 2);
        assert_eq!(records[1].sql_state, state);
        assert_eq!(records[1].message, message);
    }
}

#[test]
fn parameter_keys_match_only_the_same_descriptors_at_the_same_revision() {
    let [(apd, _), (ipd, _)] = gates();
    let key = ParameterBindingKey::new(apd, 3, ipd, 4);
    assert!(key.matches(&ParameterBindingKey::new(apd, 3, ipd, 4)));
    assert!(!key.matches(&ParameterBindingKey::new(apd, 4, ipd, 4)));
    assert!(!key.matches(&ParameterBindingKey::new(apd, 3, ipd, 5)));
    assert!(!key.matches(&ParameterBindingKey::new(ipd, 3, ipd, 4)));
    assert!(!key.matches(&ParameterBindingKey::new(apd, 3, apd, 4)));
    let saturated = ParameterBindingKey::new(apd, u64::MAX, ipd, 4);
    assert!(!saturated.matches(&saturated));
}

#[test]
fn only_a_shutting_down_process_selects_the_leak_policy() {
    assert_eq!(release_policy(true), ReleasePolicy::Leak);
    assert_eq!(release_policy(false), ReleasePolicy::Join);
}

#[test]
fn a_live_process_is_not_reported_as_shutting_down() {
    assert!(!process_is_shutting_down());
}

#[test]
fn only_known_versions_are_accepted() {
    assert_eq!(OdbcVersion::try_from(SQL_OV_ODBC2), Ok(OdbcVersion::Odbc2));
    assert_eq!(OdbcVersion::try_from(SQL_OV_ODBC3), Ok(OdbcVersion::Odbc3));
    assert_eq!(OdbcVersion::try_from(SQL_OV_ODBC3_80), Ok(OdbcVersion::Odbc3_80));
    assert_eq!(OdbcVersion::try_from(0), Err(()));
    assert_eq!(OdbcVersion::try_from(4), Err(()));
}

#[test]
fn a_new_environment_has_no_version_and_no_connections() {
    let env = EnvHandle::new("runtime");
    assert_eq!(*env.runtime, "runtime");
    assert_eq!(env.state.odbc_version, OdbcVersion::Unset);
    assert!(env.state.output_nts);
    assert!(env.state.connections.is_empty());
    assert!(env.state.diag_records.is_empty());
}

#[test]
fn a_new_connection_commits_by_itself_and_hides_its_token() {
    let mut dbc: DbcHandle<u32, &str> = DbcHandle::new(7, Arc::new("runtime"));
    assert_eq!(dbc.parent_env, 7);
    assert_eq!(dbc.state.connection_state, ConnectionState::Disconnected);
    assert!(dbc.state.autocommit);
    assert!(dbc.state.client.is_none());
    assert_eq!(dbc.state.packet_size, 4096);
    assert_eq!(dbc.state.vendor_overrides, VendorConnOverrides::default());
    assert_eq!(dbc.state.shown_access_token(), None);
    dbc.state.access_token = Some("token".to_owned());
    assert_eq!(dbc.state.shown_access_token(), Some("<REDACTED>".to_owned()));
}

fn forked_handles() -> LiveHandles<u32, (), &'static str> {
    let env = EnvHandle::new("parent runtime");
    let mut dbc: DbcHandle<u32, &'static str> = DbcHandle::new(1, Arc::clone(&env.runtime));
    dbc.state.client = Some(10);
    dbc.state.connection_state = ConnectionState::Connected;
    dbc.state.active_stmt = Some(3);
    dbc.state.server_name = "server".to_owned();
    dbc.state.autocommit = false;
    dbc.state.local_tran_started = true;
    let mut stmt: StmtHandle<u32, ()> = StmtHandle::new(2, 0);
    stmt.state.dae = Some(DaeState::new(11, None, None, Vec::new()));
    stmt.state.state_flags = STMT_STATE_CURSOR_OPEN | STMT_STATE_PREPARED;
    stmt.state.result_set_exhausted = true;
    vec![
        (1, LiveHandle::Env(env)),
        (2, LiveHandle::Dbc(dbc)),
        (3, LiveHandle::Stmt(stmt)),
        (4, LiveHandle::Desc(DescHandle::new(DescKind::AppRow, SQL_DESC_ALLOC_USER, 2))),
    ]
}

#[test]
fn a_fork_leaves_clients_to_the_parent_and_renews_runtimes() {
    let mut gate = ProcessGate { process_id: 100 };
    let mut handles = forked_handles();
    assert!(gate.needs_recovery(101));
    assert_eq!(environment_count(&handles), 1);
    let clients = ensure_current_process::<u32, (), &str, ()>(
        &mut gate,
        101,
        &mut handles,
        Ok(vec![Arc::new("child runtime")]),
    );
    assert_eq!(clients, Ok(vec![10, 11]));
    assert_eq!(gate.process_id, 101);
    let LiveHandle::Env(env) = &handles[0].1 else { panic!("an environment") };
    assert_eq!(*env.runtime, "child runtime");
    let LiveHandle::Dbc(dbc) = &handles[1].1 else { panic!("a connection") };
    assert_eq!(*dbc.runtime, "child runtime");
    assert_eq!(dbc.state.connection_state, ConnectionState::Forked);
    assert!(dbc.state.client.is_none());
    assert!(dbc.state.active_stmt.is_none());
    assert!(dbc.state.server_name.is_empty());
    assert!(!dbc.state.autocommit);
    assert!(!dbc.state.local_tran_started);
    let LiveHandle::Stmt(stmt) = &handles[2].1 else { panic!("a statement") };
    assert!(stmt.state.dae.is_none());
    assert_eq!(stmt.state.state_flags, STMT_STATE_PREPARED);
    assert!(!stmt.state.result_set_exhausted);
    assert!(matches!(handles[3].1, LiveHandle::Desc(_)));
}

#[test]
fn the_same_process_recovers_nothing() {
    for before in [0, 100] {
        let mut gate = ProcessGate { process_id: before };
        let mut handles = forked_handles();
        assert!(!gate.needs_recovery(100));
        let clients = ensure_current_process::<u32, (), &str, ()>(
            &mut gate,
            100,
            &mut handles,
            Err(()),
        );
        assert_eq!(clients, Ok(Vec::new()));
        assert_eq!(gate.process_id, 100);
        let LiveHandle::Dbc(dbc) = &handles[1].1 else { panic!("a connection") };
        assert_eq!(dbc.state.client, Some(10));
    }
}

#[test]
fn a_failed_recovery_changes_nothing_and_may_be_repeated() {
    let mut gate = ProcessGate { process_id: 100 };
    let mut handles = forked_handles();
    let failed = ensure_current_process::<u32, (), &str, &str>(
        &mut gate,
        101,
        &mut handles,
        Err("no runtime"),
    );
    assert_eq!(failed, Err("no runtime"));
    assert_eq!(gate.process_id, 100);
    let LiveHandle::Dbc(dbc) = &handles[1].1 else { panic!("a connection") };
    assert_eq!(dbc.state.client, Some(10));
    let clients = ensure_current_process::<u32, (), &str, &str>(
        &mut gate,
        101,
        &mut handles,
        Ok(vec![Arc::new("child runtime")]),
    );
    assert_eq!(clients, Ok(vec![10, 11]));
}

#[test]
fn a_new_table_takes_handles_and_knows_its_own() {
    let mut tables: Vec<HandleTable<&'static str>> = vec![HandleTable::new(1), HandleTable::new(2)];
    let mut raws = Vec::new();
    for table in &mut tables {
        assert_eq!((table.registry.live(), table.registry.next_index()), (0, 0));
        let activity = table.forest.add_activity(None);
        let raw =
            table.handle_to_raw(HandleType::Env, Arc::new("env"), PAYLOAD, activity).unwrap();
        assert_eq!(table.live_env_count, 1);
        raws.push(raw);
    }
    assert_eq!(raws[0], raws[1]);
    let own = tables[0].handle_from_raw(raws[0], HandleType::Env, PAYLOAD).unwrap();
    assert_eq!(tables[1].begin_close(&own).err(), Some(RegistryError::OwnershipMismatch));
    tables[0].begin_close(&own).unwrap().reopen(&mut tables[0].forest);
    assert_eq!(*own.into_arc(&mut tables[0].forest), "env");
}
