//! The process-wide table of handles, as applications address it.

use std::sync::Arc;
use vstd::prelude::*;

use super::activity::{self, ActivityForest, ActivityId};
use super::bindings::{self, BindingError};
use super::handle_id::{self, HandleId, HandleType, RegistryError};
use super::registry::slots;
use super::registry::{self, CloseGuard, HandleRef, HandleRegistry};
use crate::diag::{
    self, free_errors, post_function_sequence, post_memory_allocation, post_sql_error, DiagRecord,
    SQLSTATE_HY000, SQLSTATE_HY001, SQLSTATE_HY010,
};
use crate::odbc_types::{SqlReturn, SQL_ERROR, SQL_INVALID_HANDLE};

verus! {

/// What a call refused with this error returns.
pub open spec fn spec_sql_return(error: RegistryError) -> SqlReturn {
    match error {
        RegistryError::InvalidId | RegistryError::NotFound | RegistryError::WrongType =>
            SQL_INVALID_HANDLE,
        _ => SQL_ERROR,
    }
}

/// The SQLSTATE and text a registry error is reported with.
pub open spec fn registry_diagnostic(error: RegistryError) -> ([u8; 5], Seq<char>) {
    match error {
        RegistryError::Busy => (SQLSTATE_HY010, "Function sequence error"@),
        RegistryError::IdSpaceFull | RegistryError::Capacity | RegistryError::ActivityOverflow => (
            SQLSTATE_HY001,
            "Memory allocation error"@,
        ),
        _ => (SQLSTATE_HY000, bindings::registry_message(error)),
    }
}

impl RegistryError {
    /// What a call refused with this error returns.
    pub fn sql_return(&self) -> (code: SqlReturn)
        ensures
            code == spec_sql_return(*self),
    {
        match self {
            RegistryError::InvalidId | RegistryError::NotFound | RegistryError::WrongType =>
                SQL_INVALID_HANDLE,
            _ => SQL_ERROR,
        }
    }

    /// Posts this error.
    pub fn post(&self, records: &mut Vec<DiagRecord>)
        ensures
            diag::posted(
                old(records)@,
                final(records)@,
                registry_diagnostic(*self).0,
                0,
                registry_diagnostic(*self).1,
            ),
    {
        match self {
            RegistryError::Busy => post_function_sequence(records),
            RegistryError::IdSpaceFull
            | RegistryError::Capacity
            | RegistryError::ActivityOverflow => post_memory_allocation(records),
            _ => post_sql_error(records, SQLSTATE_HY000, 0, self.message()),
        }
    }
}

/// Replaces all records by the one of `error`.
pub fn post_handle_error(records: &mut Vec<DiagRecord>, error: RegistryError)
    ensures
        diag::posted(
            Seq::empty(),
            final(records)@,
            registry_diagnostic(error).0,
            0,
            registry_diagnostic(error).1,
        ),
{
    free_errors(records);
    assert(records@ =~= Seq::<DiagRecord>::empty());
    error.post(records);
}

/// Whether a refused call is posted: on a handle that is valid and still there.
pub open spec fn is_posted(target: Result<(), RegistryError>, error: RegistryError) -> bool {
    spec_sql_return(error) != SQL_INVALID_HANDLE && target is Ok
}

/// What a refused call returns.
pub open spec fn reported_return(
    target: Result<(), RegistryError>,
    error: RegistryError,
) -> SqlReturn {
    if spec_sql_return(error) != SQL_INVALID_HANDLE && target is Err {
        spec_sql_return(target->Err_0)
    } else {
        spec_sql_return(error)
    }
}

/// Reports a refused call on a handle whose diagnostics were looked up with
/// outcome `target`. An invalid handle has no diagnostics to post to; neither
/// has one that was retired meanwhile.
pub fn report_handle_error(
    records: &mut Vec<DiagRecord>,
    target: Result<(), RegistryError>,
    error: RegistryError,
) -> (code: SqlReturn)
    ensures
        code == reported_return(target, error),
        if is_posted(target, error) {
            diag::posted(
                Seq::empty(),
                final(records)@,
                registry_diagnostic(error).0,
                0,
                registry_diagnostic(error).1,
            )
        } else {
            final(records)@ == old(records)@
        },
{
    if error.sql_return() == SQL_INVALID_HANDLE {
        return SQL_INVALID_HANDLE;
    }
    match target {
        Ok(()) => {
            post_handle_error(records, error);
            error.sql_return()
        },
        Err(lookup_error) => lookup_error.sql_return(),
    }
}

/// All handles of the process and the number of its environments.
pub struct HandleTable<P> {
    pub registry: HandleRegistry<P>,
    pub forest: ActivityForest,
    pub live_env_count: usize,
}

/// The identities retired together with a statement: its own and those of its
/// four implicit descriptors.
pub open spec fn retirement_batch(
    raw: usize,
    kind: HandleType,
    implicit: [usize; 4],
    batch: Seq<(HandleId, HandleType)>,
) -> bool {
    &&& batch.len() == 5
    &&& batch[0].0.spec_raw() == raw
    &&& batch[0].1 == kind
    &&& forall|k: int|
        0 <= k < 4 ==> {
            &&& (#[trigger] batch[k + 1]).0.spec_raw() == implicit@[k]
            &&& batch[k + 1].1 == HandleType::Desc
        }
}

/// The error of building a retirement batch: a null address among it.
pub open spec fn batch_has_null(raw: usize, implicit: [usize; 4]) -> bool {
    raw == 0 || implicit@[0] == 0 || implicit@[1] == 0 || implicit@[2] == 0 || implicit@[3] == 0
}

/// Of a retirement batch only the first handle can be an environment.
proof fn lemma_environments_of_batch(
    raw: usize,
    kind: HandleType,
    implicit: [usize; 4],
    batch: Seq<(HandleId, HandleType)>,
)
    requires
        retirement_batch(raw, kind, implicit, batch),
    ensures
        registry::kinds_in(batch, HandleType::Env, 5) == (if kind == HandleType::Env {
            1int
        } else {
            0
        }),
{
    assert forall|k: int| 1 <= k < 5 implies (#[trigger] batch[k]).1 == HandleType::Desc by {
        let m = k - 1;
        assert(batch[m + 1].1 == HandleType::Desc);
    }
    reveal_with_fuel(registry::kinds_in, 6);
}

/// Builds the batch retired together with a statement.
pub fn implicit_batch(raw: usize, kind: HandleType, implicit: [usize; 4]) -> (result: Result<
    Vec<(HandleId, HandleType)>,
    RegistryError,
>)
    ensures
        result is Err <==> batch_has_null(raw, implicit),
        result matches Err(error) ==> error == RegistryError::InvalidId,
        result matches Ok(batch) ==> retirement_batch(raw, kind, implicit, batch@),
{
    let mut batch: Vec<(HandleId, HandleType)> = Vec::new();
    match HandleId::from_raw(raw) {
        Ok(id) => {
            batch.push((id, kind));
        },
        Err(error) => {
            return Err(error);
        },
    }
    let mut k: usize = 0;
    while k < 4
        invariant
            k <= 4,
            raw != 0,
            batch@.len() == k + 1,
            batch@[0].0.spec_raw() == raw,
            batch@[0].1 == kind,
            forall|j: int| 0 <= j < k ==> implicit@[j] != 0,
            forall|j: int|
                0 <= j < k ==> {
                    &&& (#[trigger] batch@[j + 1]).0.spec_raw() == implicit@[j]
                    &&& batch@[j + 1].1 == HandleType::Desc
                },
        decreases 4 - k,
    {
        match HandleId::from_raw(implicit[k]) {
            Ok(id) => {
                batch.push((id, HandleType::Desc));
            },
            Err(error) => {
                return Err(error);
            },
        }
        k = k + 1;
    }
    Ok(batch)
}

impl<P> HandleTable<P> {
    /// Well-formedness of the table; its environments are counted.
    pub open spec fn wf(self) -> bool {
        &&& self.registry.wf()
        &&& self.forest.wf()
        &&& self.registry.fits(self.forest.nodes@)
        &&& self.live_env_count == self.registry.kind_count(HandleType::Env)
    }

    /// A table without handles, told from others by `identity`, which no two of
    /// them share.
    pub fn new(identity: u64) -> (table: Self)
        ensures
            table.wf(),
            table.live_env_count == 0,
            table.registry.spec_identity() == identity,
            table.registry.spec_slot_limit() == handle_id::slot_capacity(),
            table.registry.spec_generation_limit() == handle_id::generation_mask(),
            table.registry.spec_live() == 0,
            table.registry.spec_next_index() == 0,
            table.registry.spec_first_index() == 0,
            table.registry.free_list().len() == 0,
            table.registry.payloads() == Map::<ActivityId, Arc<P>>::empty(),
            forall|i: int| #[trigger] table.registry.slot(i) == slots::untouched_slot::<P>(),
            table.forest.nodes@.len() == 0,
    {
        HandleTable {
            registry: HandleRegistry::new(identity),
            forest: ActivityForest::new(),
            live_env_count: 0,
        }
    }

    /// Registers a payload and hands out its address.
    pub fn handle_to_raw(
        &mut self,
        kind: HandleType,
        value: Arc<P>,
        payload_type: u64,
        activity: ActivityId,
    ) -> (result: Result<usize, RegistryError>)
        requires
            old(self).wf(),
            old(self).forest.has(activity),
        ensures
            final(self).wf(),
            match old(self).registry.registration_error(old(self).forest.nodes@, kind, activity) {
                Some(error) => result == Err::<usize, RegistryError>(error),
                None => result is Ok || !old(self).registry.published(
                    old(self).registry.candidate() as int,
                ) && result->Err_0 == RegistryError::Capacity,
            },
            match result {
                Ok(raw) => {
                    &&& exists|id: HandleId| #[trigger]
                        id.spec_raw() == raw && final(self).registry.registered_from(
                            old(self).registry,
                            id,
                            kind,
                            value,
                            payload_type,
                            activity,
                        )
                    &&& final(self).forest.nodes@ == activity::claimed_nodes(
                        old(self).forest.nodes@,
                        activity.index as int,
                        activity::root_of(old(self).forest.nodes@, activity.index as int),
                        old(self).registry.spec_identity(),
                    )
                    &&& final(self).live_env_count == old(self).live_env_count + (if kind
                        == HandleType::Env {
                        1int
                    } else {
                        0
                    })
                },
                Err(_) => {
                    &&& final(self).registry.same_state(old(self).registry)
                    &&& final(self).forest.nodes@ == old(self).forest.nodes@
                    &&& final(self).live_env_count == old(self).live_env_count
                },
            },
    {
        let ghost before = self.registry;
        proof {
            before.lemma_kind_count_bounded(HandleType::Env);
        }
        match self.registry.register(&mut self.forest, kind, value, payload_type, activity) {
            Ok(id) => {
                proof {
                    self.registry.lemma_kind_count_of_registration(
                        before,
                        id,
                        kind,
                        value,
                        payload_type,
                        activity,
                        HandleType::Env,
                    );
                }
                if kind == HandleType::Env {
                    self.live_env_count = self.live_env_count + 1;
                }
                Ok(id.to_raw())
            },
            Err(error) => {
                proof {
                    self.registry.lemma_kind_count_of_same_state(before, HandleType::Env);
                }
                Err(error)
            },
        }
    }

    /// Starts a call on the handle at `raw`.
    pub fn handle_from_raw(&mut self, raw: usize, kind: HandleType, payload_type: u64) -> (result:
        Result<HandleRef<P>, RegistryError>)
        requires
            old(self).wf(),
        ensures
            final(self).wf(),
            final(self).registry == old(self).registry,
            final(self).live_env_count == old(self).live_env_count,
            raw == 0 ==> result is Err && result->Err_0 == RegistryError::InvalidId,
            raw != 0 ==> exists|id: HandleId| #[trigger]
                id.spec_raw() == raw && match old(self).registry.acquire_error(
                    old(self).forest.nodes@,
                    id,
                    kind,
                    payload_type,
                ) {
                    Some(error) => result is Err && result->Err_0 == error,
                    None => {
                        let entry = old(self).registry.slot(
                            id.spec_index() as int,
                        ).entry->Some_0;
                        &&& result is Ok
                        &&& result->Ok_0.spec_id() == id
                        &&& result->Ok_0.spec_kind() == kind
                        &&& result->Ok_0.spec_value() == entry.value
                        &&& result->Ok_0.spec_activity() == entry.activity
                        &&& result->Ok_0.spec_identity() == old(self).registry.spec_identity()
                        &&& old(self).registry.admitted(result->Ok_0)
                        &&& registry::activity_fits(
                            final(self).forest.nodes@,
                            entry.activity,
                            old(self).registry.spec_identity(),
                        )
                        &&& final(self).forest.nodes@ == activity::with_call(
                            old(self).forest.nodes@,
                            entry.activity.index as int,
                        )
                        &&& activity::call_in_flight(
                            final(self).forest.nodes@,
                            entry.activity.index as int,
                        )
                    },
                },
            result is Err ==> final(self).forest.nodes@ == old(self).forest.nodes@,
    {
        match HandleId::from_raw(raw) {
            Ok(id) => self.registry.acquire(&mut self.forest, id, kind, payload_type),
            Err(error) => Err(error),
        }
    }

    /// Starts a close on behalf of `handle`.
    pub fn begin_close(&mut self, handle: &HandleRef<P>) -> (result: Result<
        CloseGuard,
        RegistryError,
    >)
        requires
            old(self).wf(),
        ensures
            final(self).wf(),
            final(self).registry == old(self).registry,
            final(self).live_env_count == old(self).live_env_count,
            final(self).forest.nodes@ == old(self).registry.closing_from(
                old(self).forest.nodes@,
                *handle,
            ),
            match old(self).registry.close_error(old(self).forest.nodes@, *handle) {
                Some(error) => {
                    &&& result is Err
                    &&& result->Err_0 == error
                },
                None => {
                    &&& result is Ok
                    &&& old(self).registry.admitted(*handle) ==> handle.spec_value() == old(
                        self,
                    ).registry.slot(handle.spec_id().spec_index() as int).entry->Some_0.value
                    &&& result->Ok_0.spec_activity() == handle.spec_activity()
                    &&& result->Ok_0.spec_identity() == old(self).registry.spec_identity()
                    &&& registry::activity_fits(
                        final(self).forest.nodes@,
                        handle.spec_activity(),
                        old(self).registry.spec_identity(),
                    )
                },
            },
    {
        self.registry.begin_close(&mut self.forest, handle)
    }

    /// Retires the handle at `raw`; a statement goes together with its four
    /// implicit descriptors, or not at all.
    pub fn retire_handle(
        &mut self,
        raw: usize,
        kind: HandleType,
        implicit: Option<[usize; 4]>,
    ) -> (result: Result<(), RegistryError>)
        requires
            old(self).wf(),
        ensures
            final(self).wf(),
            result is Err ==> {
                &&& final(self).registry.same_state(old(self).registry)
                &&& final(self).forest.nodes@ == old(self).forest.nodes@
                &&& final(self).live_env_count == old(self).live_env_count
            },
            result is Ok ==> final(self).live_env_count == old(self).live_env_count - (if kind
                == HandleType::Env {
                1int
            } else {
                0
            }),
            match implicit {
                None => if raw == 0 {
                    result == Err::<(), RegistryError>(RegistryError::InvalidId)
                } else {
                    exists|id: HandleId| #[trigger]
                        id.spec_raw() == raw && match slots::entry_error(
                            old(self).registry.slot(id.spec_index() as int),
                            id,
                            kind,
                        ) {
                            Some(error) => result == Err::<(), RegistryError>(error),
                            None => {
                                &&& result is Ok
                                &&& final(self).registry.retired_from(
                                    old(self).registry,
                                    id.spec_index(),
                                )
                                &&& final(self).forest.nodes@ == activity::retired_nodes(
                                    old(self).forest.nodes@,
                                    old(self).registry.slot(
                                        id.spec_index() as int,
                                    ).entry->Some_0.activity.index as int,
                                )
                            },
                        }
                },
                Some(children) => if batch_has_null(raw, children) {
                    result == Err::<(), RegistryError>(RegistryError::InvalidId)
                } else {
                    exists|batch: Seq<(HandleId, HandleType)>| #[trigger]
                        retirement_batch(raw, kind, children, batch)
                            && match old(self).registry.batch_error(batch, 5) {
                            Some(error) => result == Err::<(), RegistryError>(error),
                            None => {
                                &&& result is Ok
                                &&& final(self).registry.batch_retired_from(
                                    old(self).registry,
                                    batch,
                                    5,
                                )
                                &&& final(self).forest.nodes@
                                    == old(self).registry.batch_nodes(
                                    old(self).forest.nodes@,
                                    batch,
                                    5,
                                )
                            },
                        }
                },
            },
    {
        let ghost before = self.registry;
        let result: Result<(), RegistryError> = match implicit {
            Some(children) => match implicit_batch(raw, kind, children) {
                Ok(batch) => {
                    let outcome = self.registry.retire_batch(&mut self.forest, batch.as_slice());
                    assert(retirement_batch(raw, kind, children, batch@));
                    proof {
                        lemma_environments_of_batch(raw, kind, children, batch@);
                        assert(outcome is Ok ==> self.registry.kind_count(HandleType::Env)
                            == before.kind_count(HandleType::Env) - registry::kinds_in(
                            batch@,
                            HandleType::Env,
                            5,
                        ));
                        if outcome is Err {
                            self.registry.lemma_kind_count_of_same_state(before, HandleType::Env);
                        }
                    }
                    outcome
                },
                Err(error) => Err(error),
            },
            None => match HandleId::from_raw(raw) {
                Ok(id) => {
                    let outcome = self.registry.retire(&mut self.forest, id, kind);
                    assert(id.spec_raw() == raw);
                    proof {
                        if outcome is Err {
                            self.registry.lemma_kind_count_of_same_state(before, HandleType::Env);
                        } else {
                            self.registry.lemma_kind_count_of_retirement(
                                before,
                                id.spec_index(),
                                HandleType::Env,
                            );
                        }
                    }
                    outcome
                },
                Err(error) => Err(error),
            },
        };
        proof {
            self.registry.lemma_kind_count_bounded(HandleType::Env);
        }
        if result.is_ok() && kind == HandleType::Env {
            self.live_env_count = self.live_env_count - 1;
        }
        result
    }

    /// Whether the address names a handle now.
    pub fn is_live(&self, raw: usize) -> (live: bool)
        requires
            self.wf(),
        ensures
            raw == 0 ==> !live,
            raw != 0 ==> exists|id: HandleId| #[trigger]
                id.spec_raw() == raw && live == (self.registry.spec_kind_of(id) is Some),
    {
        match HandleId::from_raw(raw) {
            Ok(id) => {
                assert(id.spec_raw() == raw);
                match self.registry.kind(id) {
                    Ok(kind) => kind.is_some(),
                    Err(_) => false,
                }
            },
            Err(_) => false,
        }
    }

    /// The payload whose diagnostics are read at `raw`. No call is started, so
    /// that a refused call's diagnostics can be read while a close goes on.
    pub fn diagnostics_from_raw(&self, raw: usize, kind: HandleType, payload_type: u64) -> (result:
        Result<Arc<P>, RegistryError>)
        requires
            self.wf(),
        ensures
            raw == 0 ==> result == Err::<Arc<P>, RegistryError>(RegistryError::InvalidId),
            raw != 0 ==> exists|id: HandleId| #[trigger]
                id.spec_raw() == raw && match slots::entry_error(
                    self.registry.slot(id.spec_index() as int),
                    id,
                    kind,
                ) {
                    Some(error) => result == Err::<Arc<P>, RegistryError>(error),
                    None => {
                        let entry = self.registry.slot(id.spec_index() as int).entry->Some_0;
                        if registry::retired_above(
                            self.forest.nodes@,
                            entry.activity.index as int,
                        ) {
                            result == Err::<Arc<P>, RegistryError>(RegistryError::NotFound)
                        } else if entry.payload_type != payload_type {
                            result == Err::<Arc<P>, RegistryError>(RegistryError::WrongType)
                        } else {
                            result == Ok::<Arc<P>, RegistryError>(entry.value)
                        }
                    },
                },
    {
        match HandleId::from_raw(raw) {
            Ok(id) => {
                assert(id.spec_raw() == raw);
                self.registry.diagnostics(&self.forest, id, kind, payload_type)
            },
            Err(error) => Err(error),
        }
    }

    /// The descriptor at `raw`, kept beyond the call that looks it up.
    pub fn owned_descriptor(&mut self, raw: usize, payload_type: u64) -> (result: Result<
        Arc<P>,
        BindingError,
    >)
        requires
            old(self).wf(),
        ensures
            final(self).wf(),
            final(self).registry == old(self).registry,
            final(self).live_env_count == old(self).live_env_count,
            final(self).forest.nodes@ == old(self).forest.nodes@,
            raw == 0 ==> result == Err::<Arc<P>, BindingError>(
                BindingError::Registry(RegistryError::InvalidId),
            ),
            raw != 0 ==> exists|id: HandleId| #[trigger]
                id.spec_raw() == raw && match old(self).registry.acquire_error(
                    old(self).forest.nodes@,
                    id,
                    HandleType::Desc,
                    payload_type,
                ) {
                    Some(error) => result == Err::<Arc<P>, BindingError>(
                        BindingError::Registry(error),
                    ),
                    None => result == Ok::<Arc<P>, BindingError>(
                        old(self).registry.slot(id.spec_index() as int).entry->Some_0.value,
                    ),
                },
    {
        let id: HandleId = match HandleId::from_raw(raw) {
            Ok(id) => id,
            Err(error) => {
                return Err(BindingError::Registry(error));
            },
        };
        assert(id.spec_raw() == raw);
        let ghost nodes = self.forest.nodes@;
        match self.registry.acquire(&mut self.forest, id, HandleType::Desc, payload_type) {
            Ok(handle) => {
                proof {
                    activity::release_call_undoes_reserve_call(
                        nodes,
                        handle.spec_activity().index as int,
                    );
                }
                Ok(handle.into_arc(&mut self.forest))
            },
            Err(error) => Err(BindingError::Registry(error)),
        }
    }
}

/// A call on an address that names no handle of its kind is on an invalid handle;
/// every other refusal is an error of a valid one.
pub proof fn only_a_missing_handle_is_invalid(error: RegistryError)
    ensures
        spec_sql_return(RegistryError::InvalidId) == -2,
        spec_sql_return(RegistryError::NotFound) == -2,
        spec_sql_return(RegistryError::WrongType) == -2,
        !(error is InvalidId) && !(error is NotFound) && !(error is WrongType) ==> spec_sql_return(
            error,
        ) == -1,
{
}

/// A handle in use is reported as a call out of sequence, a full registry as storage
/// that could not be had, and everything else as a general error that says which.
pub proof fn registry_errors_have_their_states(error: RegistryError)
    ensures
        registry_diagnostic(RegistryError::Busy).0@ == seq![72u8, 89, 48, 49, 48],
        registry_diagnostic(RegistryError::IdSpaceFull).0@ == seq![72u8, 89, 48, 48, 49],
        registry_diagnostic(RegistryError::Capacity).0@ == seq![72u8, 89, 48, 48, 49],
        registry_diagnostic(RegistryError::ActivityOverflow).0@ == seq![72u8, 89, 48, 48, 49],
        !(error is Busy) && !(error is IdSpaceFull) && !(error is Capacity) && !(error
            is ActivityOverflow) ==> registry_diagnostic(error).0@ == seq![72u8, 89, 48, 48, 48]
            && registry_diagnostic(error).1 == bindings::registry_message(error),
{
}

/// A refused call on an invalid handle posts nothing, and neither does one on a
/// handle that is gone when it is to be posted to, whose own error is then returned.
pub proof fn invalid_handles_are_not_posted_to(
    target: Result<(), RegistryError>,
    error: RegistryError,
)
    ensures
        spec_sql_return(error) == -2 ==> !is_posted(target, error) && reported_return(target, error)
            == -2,
        spec_sql_return(error) == -1 && target is Ok ==> is_posted(target, error)
            && reported_return(target, error) == -1,
        spec_sql_return(error) == -1 && target is Err ==> !is_posted(target, error)
            && reported_return(target, error) == spec_sql_return(target->Err_0),
{
}

/// The batch of a statement is the statement and its four descriptors, each once, in
/// their order: it is the only one there is.
pub proof fn a_statement_has_one_batch(
    raw: usize,
    kind: HandleType,
    implicit: [usize; 4],
    a: Seq<(HandleId, HandleType)>,
    b: Seq<(HandleId, HandleType)>,
)
    requires
        retirement_batch(raw, kind, implicit, a),
        retirement_batch(raw, kind, implicit, b),
    ensures
        a == b,
        a[0].0.spec_raw() == raw && a[0].1 == kind,
        a[1].0.spec_raw() == implicit@[0] && a[2].0.spec_raw() == implicit@[1],
        a[3].0.spec_raw() == implicit@[2] && a[4].0.spec_raw() == implicit@[3],
        a[1].1 is Desc && a[2].1 is Desc && a[3].1 is Desc && a[4].1 is Desc,
{
    assert(a[0int + 1].1 == HandleType::Desc && a[1int + 1].1 == HandleType::Desc && a[2int + 1].1
        == HandleType::Desc && a[3int + 1].1 == HandleType::Desc);
    assert(b[0int + 1].1 == HandleType::Desc && b[1int + 1].1 == HandleType::Desc && b[2int + 1].1
        == HandleType::Desc && b[3int + 1].1 == HandleType::Desc);
    assert forall|k: int| 0 <= k < 5 implies a[k] == b[k] by {
        handle_id::addresses_determine_identities(a[k].0, b[k].0);
        assert(k == 0 || k == 1 || k == 2 || k == 3 || k == 4);
    }
    assert(a =~= b);
}

} // verus!
