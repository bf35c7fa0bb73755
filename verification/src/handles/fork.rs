//! Recovery of handles in a process that was forked.
//!
//! The child has the parent's handles and none of its threads. Before its
//! first call goes on, every environment gets a runtime of the child's own, and
//! what talks to the server over the parent's connections is abandoned.

use std::sync::Arc;

use vstd::prelude::*;

use super::dbc::DbcHandle;
use super::desc::DescHandle;
use super::env::EnvHandle;
use super::stmt::{self, StmtHandle, StmtState, STMT_STATE_CURSOR_OPEN};

verus! {

/// A live handle of any kind.
pub enum LiveHandle<C, D, R> {
    Env(EnvHandle<R>),
    Dbc(DbcHandle<C, R>),
    Stmt(StmtHandle<C, D>),
    Desc(DescHandle),
}

/// The live handles with their addresses.
pub type LiveHandles<C, D, R> = Vec<(usize, LiveHandle<C, D, R>)>;

/// The process that handles were last used in; 0 for none.
#[derive(Debug, Clone, Copy, PartialEq, Eq, Structural)]
pub struct ProcessGate {
    pub process_id: u32,
}

impl ProcessGate {
    /// Whether handles are another process's.
    pub open spec fn forked(self, process_id: u32) -> bool {
        self.process_id != process_id && self.process_id != 0
    }

    /// Whether handles are another process's, so that they are to be recovered
    /// and runtimes are needed for it.
    pub fn needs_recovery(&self, process_id: u32) -> (needs: bool)
        ensures
            needs == self.forked(process_id),
    {
        self.process_id != process_id && self.process_id != 0
    }
}

impl<C, D> StmtState<C, D> {
    /// Whether `after` is this state without a cursor and without a sequence
    /// that supplies values.
    pub open spec fn left_to_parent(self, after: Self) -> bool {
        &&& after.pending_fetch_info@.len() == 0
        &&& after == (StmtState {
            dae: None,
            result_set_exhausted: false,
            batch_exhausted: false,
            pending_fetch_error: None,
            pending_fetch_info: after.pending_fetch_info,
            state_flags: self.state_flags & !STMT_STATE_CURSOR_OPEN,
            ..self.without_row()
        })
    }

    /// The client that a sequence in progress holds.
    pub open spec fn held_client(self) -> Option<C> {
        match self.dae {
            Some(dae) => dae.client,
            None => None,
        }
    }

    /// Closes the cursor without a word to the server.
    pub fn reset_cursor_state(&mut self)
        ensures
            final(self).pending_fetch_info@.len() == 0,
            *final(self) == (StmtState {
                result_set_exhausted: false,
                batch_exhausted: false,
                pending_fetch_error: None,
                pending_fetch_info: final(self).pending_fetch_info,
                state_flags: old(self).state_flags & !STMT_STATE_CURSOR_OPEN,
                ..old(self).without_row()
            }),
    {
        self.reset_row_stream();
        self.clear_exhaustion_state();
        self.clear_state(STMT_STATE_CURSOR_OPEN);
    }

    /// Leaves a statement's cursor and sequence to the parent process. The
    /// client that the sequence held is handed back.
    pub fn leave_to_parent(&mut self) -> (client: Option<C>)
        ensures
            client == old(self).held_client(),
            old(self).left_to_parent(*final(self)),
    {
        let client: Option<C> = match self.dae.take() {
            Some(dae) => dae.client,
            None => None,
        };
        self.reset_cursor_state();
        client
    }
}

/// The number of environments among the first `count` handles.
pub open spec fn environments_before<C, D, R>(
    handles: Seq<(usize, LiveHandle<C, D, R>)>,
    count: int,
) -> int
    decreases count,
{
    if count <= 0 {
        0
    } else if handles[count - 1].1 is Env {
        environments_before(handles, count - 1) + 1
    } else {
        environments_before(handles, count - 1)
    }
}

/// Whether the handle at `index` is the environment of this address.
pub open spec fn is_environment<C, D, R>(
    handles: Seq<(usize, LiveHandle<C, D, R>)>,
    address: usize,
    index: int,
) -> bool {
    0 <= index < handles.len() && handles[index].0 == address && handles[index].1 is Env
}

/// Whether every connection's environment is among the handles.
pub open spec fn parents_live<C, D, R>(handles: Seq<(usize, LiveHandle<C, D, R>)>) -> bool {
    forall|k: int|
        0 <= k < handles.len() ==> ((#[trigger] handles[k]).1 matches LiveHandle::Dbc(dbc)
            ==> exists|env: int| #[trigger] is_environment(handles, dbc.parent_env, env))
}

/// The clients of the first `count` handles, which the parent process goes on
/// using.
pub open spec fn clients_of<C, D, R>(
    handles: Seq<(usize, LiveHandle<C, D, R>)>,
    count: int,
) -> Seq<C>
    decreases count,
{
    if count <= 0 {
        Seq::empty()
    } else {
        let before = clients_of(handles, count - 1);
        let client = match handles[count - 1].1 {
            LiveHandle::Dbc(dbc) => dbc.state.client,
            LiveHandle::Stmt(stmt) => stmt.state.held_client(),
            _ => None,
        };
        match client {
            Some(client) => before.push(client),
            None => before,
        }
    }
}

/// Whether `after` is the handle at `index`, recovered with these runtimes, one
/// for each environment.
pub open spec fn recovered<C, D, R>(
    handles: Seq<(usize, LiveHandle<C, D, R>)>,
    runtimes: Seq<Arc<R>>,
    index: int,
    after: (usize, LiveHandle<C, D, R>),
) -> bool {
    &&& after.0 == handles[index].0
    &&& match handles[index].1 {
        LiveHandle::Env(env) => after.1 == LiveHandle::<C, D, R>::Env(
            EnvHandle { runtime: runtimes[environments_before(handles, index)], ..env },
        ),
        LiveHandle::Dbc(dbc) => {
            &&& after.1 matches LiveHandle::Dbc(left)
            &&& left.parent_env == dbc.parent_env
            &&& dbc.state.left_to_parent(left.state)
            &&& exists|env: int| #[trigger]
                is_environment(handles, dbc.parent_env, env) && left.runtime
                    == runtimes[environments_before(handles, env)]
        },
        LiveHandle::Stmt(stmt) => {
            &&& after.1 matches LiveHandle::Stmt(left)
            &&& stmt.state.left_to_parent(left.state)
            &&& left == (StmtHandle { state: left.state, ..stmt })
        },
        LiveHandle::Desc(_) => after.1 == handles[index].1,
    }
}

/// Whether `after` is the handle at `index` with a new runtime where it is an
/// environment.
spec fn with_runtime<C, D, R>(
    handles: Seq<(usize, LiveHandle<C, D, R>)>,
    runtimes: Seq<Arc<R>>,
    index: int,
    after: (usize, LiveHandle<C, D, R>),
) -> bool {
    &&& after.0 == handles[index].0
    &&& match handles[index].1 {
        LiveHandle::Env(env) => after.1 == LiveHandle::<C, D, R>::Env(
            EnvHandle { runtime: runtimes[environments_before(handles, index)], ..env },
        ),
        _ => after.1 == handles[index].1,
    }
}

/// More handles have no fewer environments.
proof fn lemma_environments_grow<C, D, R>(
    handles: Seq<(usize, LiveHandle<C, D, R>)>,
    from: int,
    to: int,
)
    requires
        0 <= from <= to,
    ensures
        0 <= environments_before(handles, from) <= environments_before(handles, to) <= to,
    decreases to,
{
    if from < to {
        lemma_environments_grow(handles, from, to - 1);
    } else if to > 0 {
        lemma_environments_grow(handles, from - 1, to - 1);
    }
}

/// Counts the environments, each of which needs a runtime of its own.
pub fn environment_count<C, D, R>(handles: &LiveHandles<C, D, R>) -> (count: usize)
    ensures
        count == environments_before(handles@, handles@.len() as int),
{
    let mut count: usize = 0;
    let mut k: usize = 0;
    while k < handles.len()
        invariant
            k <= handles@.len(),
            count <= k,
            count == environments_before(handles@, k as int),
        decreases handles.len() - k,
    {
        if let LiveHandle::Env(_) = &handles[k].1 {
            count = count + 1;
        }
        k = k + 1;
    }
    count
}

/// Gives each environment its runtime.
fn replace_runtimes<C, D, R>(handles: &mut LiveHandles<C, D, R>, runtimes: &Vec<Arc<R>>)
    requires
        runtimes@.len() == environments_before(old(handles)@, old(handles)@.len() as int),
    ensures
        final(handles)@.len() == old(handles)@.len(),
        forall|k: int|
            0 <= k < old(handles)@.len() ==> with_runtime(
                old(handles)@,
                runtimes@,
                k,
                #[trigger] final(handles)@[k],
            ),
{
    let ghost before = handles@;
    let mut used: usize = 0;
    let mut k: usize = 0;
    while k < handles.len()
        invariant
            before == old(handles)@,
            k <= handles@.len() == before.len(),
            used == environments_before(before, k as int),
            runtimes@.len() == environments_before(before, before.len() as int),
            forall|j: int|
                0 <= j < k ==> with_runtime(before, runtimes@, j, #[trigger] handles@[j]),
            forall|j: int| k <= j < before.len() ==> #[trigger] handles@[j] == before[j],
        decreases handles.len() - k,
    {
        proof {
            lemma_environments_grow(before, k + 1, before.len() as int);
        }
        if let LiveHandle::Env(env) = &mut handles[k].1 {
            env.runtime = runtimes[used].clone();
            used = used + 1;
        }
        k = k + 1;
    }
}

/// The runtime of the environment of this address.
fn runtime_of<C, D, R>(handles: &LiveHandles<C, D, R>, address: usize) -> (found: Option<
    (usize, Arc<R>),
>)
    ensures
        match found {
            Some((index, runtime)) => {
                &&& is_environment(handles@, address, index as int)
                &&& handles@[index as int].1->Env_0.runtime == runtime
            },
            None => forall|k: int| !#[trigger] is_environment(handles@, address, k),
        },
{
    let mut k: usize = 0;
    while k < handles.len()
        invariant
            k <= handles@.len(),
            forall|j: int| 0 <= j < k ==> !#[trigger] is_environment(handles@, address, j),
        decreases handles.len() - k,
    {
        if handles[k].0 == address {
            if let LiveHandle::Env(env) = &handles[k].1 {
                assert(is_environment(handles@, address, k as int));
                return Some((k, env.runtime.clone()));
            }
        }
        k = k + 1;
    }
    None
}

/// Lets a process use the handles. Where they are another process's they are
/// recovered first, with a runtime for each environment; if those could not be
/// made nothing changes, and the call may be made again. The clients that the
/// other process goes on using are handed back, to be left alone.
pub fn ensure_current_process<C, D, R, E>(
    gate: &mut ProcessGate,
    process_id: u32,
    handles: &mut LiveHandles<C, D, R>,
    runtimes: Result<Vec<Arc<R>>, E>,
) -> (result: Result<Vec<C>, E>)
    requires
        old(gate).forked(process_id) ==> parents_live(old(handles)@),
        old(gate).forked(process_id) ==> (runtimes matches Ok(made) ==> made@.len()
            == environments_before(old(handles)@, old(handles)@.len() as int)),
    ensures
        if !old(gate).forked(process_id) {
            &&& result matches Ok(clients)
            &&& clients@.len() == 0
            &&& *final(handles) == *old(handles)
            &&& final(gate).process_id == process_id
        } else {
            match runtimes {
                Err(error) => {
                    &&& result == Err::<Vec<C>, E>(error)
                    &&& *final(handles) == *old(handles)
                    &&& *final(gate) == *old(gate)
                },
                Ok(made) => {
                    &&& result matches Ok(clients)
                    &&& clients@ == clients_of(old(handles)@, old(handles)@.len() as int)
                    &&& final(gate).process_id == process_id
                    &&& final(handles)@.len() == old(handles)@.len()
                    &&& forall|k: int|
                        0 <= k < old(handles)@.len() ==> recovered(
                            old(handles)@,
                            made@,
                            k,
                            #[trigger] final(handles)@[k],
                        )
                },
            }
        },
{
    let mut clients: Vec<C> = Vec::new();
    if !gate.needs_recovery(process_id) {
        gate.process_id = process_id;
        return Ok(clients);
    }
    let made: Vec<Arc<R>> = match runtimes {
        Ok(made) => made,
        Err(error) => {
            return Err(error);
        },
    };
    let ghost before = handles@;
    replace_runtimes(handles, &made);
    let ghost renewed = handles@;
    let mut k: usize = 0;
    assert(clients@ =~= clients_of(before, 0));
    while k < handles.len()
        invariant
            before == old(handles)@,
            parents_live(before),
            k <= handles@.len() == before.len(),
            before.len() == renewed.len(),
            forall|j: int|
                0 <= j < before.len() ==> with_runtime(before, made@, j, #[trigger] renewed[j]),
            forall|j: int| 0 <= j < k ==> recovered(before, made@, j, #[trigger] handles@[j]),
            forall|j: int| k <= j < before.len() ==> #[trigger] handles@[j] == renewed[j],
            forall|j: int|
                0 <= j < before.len() && (#[trigger] renewed[j]).1 is Env ==> handles@[j]
                    == renewed[j],
            forall|j: int| 0 <= j < before.len() ==> (#[trigger] handles@[j]).0 == before[j].0,
            forall|j: int|
                0 <= j < before.len() ==> ((#[trigger] handles@[j]).1 is Env <==> before[j].1
                    is Env),
            clients@ == clients_of(before, k as int),
        decreases handles.len() - k,
    {
        let ghost at_start = handles@;
        assert(with_runtime(before, made@, k as int, renewed[k as int]));
        let parent: Option<usize> = match &handles[k].1 {
            LiveHandle::Dbc(dbc) => Some(dbc.parent_env),
            _ => None,
        };
        let found: Option<(usize, Arc<R>)> = match parent {
            Some(parent) => runtime_of(handles, parent),
            None => None,
        };
        proof {
            if let Some(address) = parent {
                let env = choose|env: int| #[trigger] is_environment(before, address, env);
                assert(is_environment(before, address, env));
                assert(is_environment(at_start, address, env));
                if let Some((index, _)) = found {
                    assert(with_runtime(before, made@, index as int, renewed[index as int]));
                    assert(is_environment(before, address, index as int));
                }
            }
        }
        match &mut handles[k].1 {
            LiveHandle::Dbc(dbc) => {
                if let Some((_, runtime)) = found {
                    dbc.runtime = runtime;
                }
                if let Some(client) = dbc.state.leave_to_parent() {
                    clients.push(client);
                }
            },
            LiveHandle::Stmt(stmt) => {
                if let Some(client) = stmt.state.leave_to_parent() {
                    clients.push(client);
                }
            },
            _ => {},
        }
        assert(recovered(before, made@, k as int, handles@[k as int]));
        k = k + 1;
    }
    gate.process_id = process_id;
    Ok(clients)
}

/// After recovery no handle holds a client that the other process goes on
/// using.
pub proof fn no_client_is_kept<C, D, R>(
    before: Seq<(usize, LiveHandle<C, D, R>)>,
    runtimes: Seq<Arc<R>>,
    after: Seq<(usize, LiveHandle<C, D, R>)>,
    count: int,
)
    requires
        0 <= count <= before.len() == after.len(),
        forall|k: int|
            0 <= k < before.len() ==> recovered(before, runtimes, k, #[trigger] after[k]),
    ensures
        clients_of(after, count) == Seq::<C>::empty(),
    decreases count,
{
    if count > 0 {
        no_client_is_kept(before, runtimes, after, count - 1);
        assert(recovered(before, runtimes, count - 1, after[count - 1]));
    }
}

/// Handles that no process has used yet, and those of this process, need no
/// recovery; those of any other process do.
pub proof fn only_another_process_is_a_fork(gate: ProcessGate, process_id: u32)
    ensures
        gate.process_id == process_id ==> !gate.forked(process_id),
        gate.process_id == 0 ==> !gate.forked(process_id),
        gate.process_id != process_id && gate.process_id != 0 ==> gate.forked(process_id),
        !(ProcessGate { process_id }).forked(process_id),
{
}

/// A statement left to the parent process has no cursor, no row and no sequence any
/// more. Its plan, its bindings and its other flags stay.
pub proof fn a_fork_keeps_what_was_bound_and_prepared<C, D>(
    before: StmtState<C, D>,
    after: StmtState<C, D>,
    other: u32,
)
    requires
        before.left_to_parent(after),
        other & STMT_STATE_CURSOR_OPEN == 0,
    ensures
        after.dae is None,
        !after.row_positioned,
        after.active_plp is None,
        after.pending_fetch_error is None,
        after.pending_fetch_info@.len() == 0,
        !after.result_set_exhausted && !after.batch_exhausted,
        after.state_flags & STMT_STATE_CURSOR_OPEN == 0,
        after.state_flags & other == before.state_flags & other,
        after.prepared == before.prepared,
        after.pending_unprepare == before.pending_unprepare,
        after.bindings == before.bindings,
        after.bound_params == before.bound_params,
        after.column_metadata == before.column_metadata,
        after.query_timeout == before.query_timeout,
        after.max_rows == before.max_rows,
        after.inert_attrs == before.inert_attrs,
        after.vendor_attrs == before.vendor_attrs,
{
    let flags = before.state_flags;
    let mask = STMT_STATE_CURSOR_OPEN;
    stmt::flags_are_independent(flags, mask, other);
}

/// Two environments get two runtimes: the first the first, each the next.
pub proof fn every_environment_gets_its_own_runtime<C, D, R>(
    handles: Seq<(usize, LiveHandle<C, D, R>)>,
    a: int,
    b: int,
)
    requires
        0 <= a < b < handles.len(),
        handles[a].1 is Env,
        handles[b].1 is Env,
    ensures
        0 <= environments_before(handles, a) < environments_before(handles, b)
            < environments_before(handles, handles.len() as int),
{
    lemma_environments_grow(handles, 0, a);
    lemma_environments_grow(handles, a + 1, b);
    lemma_environments_grow(handles, b + 1, handles.len() as int);
}

/// Recovery keeps every handle at its address and of its kind. An environment keeps
/// its state and has a new runtime, a connection has the runtime that its environment
/// has, and a descriptor is not touched.
pub proof fn recovery_keeps_the_handles<C, D, R>(
    before: Seq<(usize, LiveHandle<C, D, R>)>,
    runtimes: Seq<Arc<R>>,
    after: Seq<(usize, LiveHandle<C, D, R>)>,
    index: int,
)
    requires
        0 <= index < before.len() == after.len(),
        forall|k: int|
            0 <= k < before.len() ==> recovered(before, runtimes, k, #[trigger] after[k]),
    ensures
        after[index].0 == before[index].0,
        before[index].1 is Env <==> after[index].1 is Env,
        before[index].1 is Dbc <==> after[index].1 is Dbc,
        before[index].1 is Stmt <==> after[index].1 is Stmt,
        before[index].1 is Desc ==> after[index].1 == before[index].1,
        before[index].1 matches LiveHandle::Env(env) ==> after[index].1->Env_0.state == env.state,
        before[index].1 matches LiveHandle::Dbc(dbc) ==> exists|env: int| #[trigger]
            is_environment(after, dbc.parent_env, env) && after[env].1->Env_0.runtime
                == after[index].1->Dbc_0.runtime,
        before[index].1 matches LiveHandle::Dbc(dbc) ==> after[index].1->Dbc_0.parent_env
            == dbc.parent_env && after[index].1->Dbc_0.state.client is None,
        before[index].1 matches LiveHandle::Stmt(stmt) ==> after[index].1->Stmt_0.parent_dbc
            == stmt.parent_dbc && after[index].1->Stmt_0.ard == stmt.ard
            && after[index].1->Stmt_0.apd == stmt.apd && after[index].1->Stmt_0.ird == stmt.ird
            && after[index].1->Stmt_0.ipd == stmt.ipd,
{
    assert(recovered(before, runtimes, index, after[index]));
    if let LiveHandle::Dbc(dbc) = before[index].1 {
        let left = after[index].1->Dbc_0;
        let env = choose|env: int| #[trigger]
            is_environment(before, dbc.parent_env, env) && left.runtime
                == runtimes[environments_before(before, env)];
        assert(recovered(before, runtimes, env, after[env]));
        assert(is_environment(after, dbc.parent_env, env));
    }
}

/// The client of every connection, and the one of every sequence in progress, is
/// handed back.
pub proof fn every_client_is_handed_back<C, D, R>(
    handles: Seq<(usize, LiveHandle<C, D, R>)>,
    index: int,
    count: int,
)
    requires
        0 <= index < count <= handles.len(),
    ensures
        handles[index].1 matches LiveHandle::Dbc(dbc) && dbc.state.client is Some ==> clients_of(
            handles,
            count,
        ).contains(handles[index].1->Dbc_0.state.client->0),
        handles[index].1 matches LiveHandle::Stmt(stmt) && stmt.state.dae is Some
            && stmt.state.dae->0.client is Some ==> clients_of(handles, count).contains(
            handles[index].1->Stmt_0.state.dae->0.client->0,
        ),
    decreases count,
{
    let before = clients_of(handles, count - 1);
    let all = clients_of(handles, count);
    if index < count - 1 {
        every_client_is_handed_back(handles, index, count - 1);
        assert forall|client: C| before.contains(client) implies all.contains(client) by {
            let k = choose|k: int| 0 <= k < before.len() && before[k] == client;
            assert(all[k] == client);
        }
    } else if all.len() > before.len() {
        assert(all[all.len() - 1] == all.last());
    }
}

/// The client that a handle has of its own: a connection's, or that of a sequence in
/// progress.
pub open spec fn client_of<C, D, R>(handle: LiveHandle<C, D, R>) -> Option<C> {
    match handle {
        LiveHandle::Dbc(dbc) => dbc.state.client,
        LiveHandle::Stmt(stmt) => stmt.state.held_client(),
        _ => None,
    }
}

/// Only clients of these handles are handed back, and no more than there are
/// handles.
pub proof fn no_other_client_is_handed_back<C, D, R>(
    handles: Seq<(usize, LiveHandle<C, D, R>)>,
    count: int,
    k: int,
)
    requires
        0 <= count <= handles.len(),
    ensures
        clients_of(handles, count).len() <= count,
        0 <= k < clients_of(handles, count).len() ==> exists|index: int|
            0 <= index < count && client_of((#[trigger] handles[index]).1) == Some(
                clients_of(handles, count)[k],
            ),
    decreases count,
{
    if count > 0 {
        let before = clients_of(handles, count - 1);
        let all = clients_of(handles, count);
        no_other_client_is_handed_back(handles, count - 1, k);
        if 0 <= k < before.len() {
            assert(all[k] == before[k]);
        } else if k == before.len() && k < all.len() {
            assert(handles[count - 1].1 is Dbc || handles[count - 1].1 is Stmt);
        }
    }
}

} // verus!
