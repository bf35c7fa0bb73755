//! A statement's parameters whose values come at execution.
//!
//! Between the call that executes the statement and the one that supplies the
//! last value, the sequence holds the connection's client. A call that writes
//! to the network checks the client out, so that no lock is held meanwhile.

use vstd::prelude::*;

use crate::odbc_types::SqlPointer;

verus! {

/// The identity of a statement that the server has prepared.
#[derive(Debug, Clone, Copy, PartialEq, Eq, Structural)]
pub struct StatementId {
    pub handle: i32,
}

/// A statement to be executed under a handle, once the server has given one.
#[derive(Debug)]
pub struct PreparedStatement {
    pub sql: String,
    pub id: Option<StatementId>,
}

impl PreparedStatement {
    /// Takes the server's handle, and leaves the text to be prepared again.
    pub fn take_id(&mut self) -> (id: Option<StatementId>)
        ensures
            id == old(self).id,
            *final(self) == (PreparedStatement { id: None, ..*old(self) }),
    {
        self.id.take()
    }
}

/// A prepared statement with the number of the markers in its text.
#[derive(Debug)]
pub struct PreparedPlan {
    pub stmt: PreparedStatement,
    pub marker_count: usize,
}

/// One parameter whose value comes at execution.
#[derive(Debug, Clone, Copy, PartialEq, Eq, Structural)]
pub struct DaeParam {
    /// The index of its binding.
    pub bound_index: usize,
    /// The token that tells the application which parameter is asked for.
    pub value_ptr: SqlPointer,
    /// The number of bytes the application promised, if it promised one.
    pub expected_len: Option<usize>,
}

/// How much of the open parameter has come.
#[derive(Debug, Clone, Copy, PartialEq, Eq, Structural)]
pub struct DaeProgress {
    /// The bytes, counted before any conversion.
    pub bytes_sent: usize,
    /// Whether anything came at all, NULL or no byte among it.
    pub put_data_called: bool,
    pub is_null: bool,
}

impl Default for DaeProgress {
    /// Nothing has come.
    fn default() -> (progress: Self)
        ensures
            progress == (DaeProgress { bytes_sent: 0, put_data_called: false, is_null: false }),
    {
        DaeProgress { bytes_sent: 0, put_data_called: false, is_null: false }
    }
}

/// A sequence in progress. `C` is the client it holds.
#[derive(Debug)]
pub struct DaeState<C> {
    pub client: Option<C>,
    pub call_in_flight: bool,
    /// The plan that goes back to the statement at the end.
    pub prepared: Option<PreparedPlan>,
    /// The handle that is to be released at the next execution.
    pub orphaned: Option<StatementId>,
    pub params: Vec<DaeParam>,
    /// The open parameter; none before the first is asked for.
    pub cursor: Option<usize>,
    pub progress: DaeProgress,
}

impl<C> DaeState<C> {
    /// Whether the client is here exactly while no call has it, and no handle
    /// waits for release while the plan has a live one.
    pub open spec fn wf(self) -> bool {
        &&& self.client is Some <==> !self.call_in_flight
        &&& self.prepared is Some && self.prepared->0.stmt.id is Some ==> self.orphaned is None
    }

    /// A sequence before its first parameter.
    pub fn new(
        client: C,
        prepared: Option<PreparedPlan>,
        orphaned: Option<StatementId>,
        params: Vec<DaeParam>,
    ) -> (dae: Self)
        ensures
            dae == (DaeState {
                client: Some(client),
                call_in_flight: false,
                prepared,
                orphaned,
                params,
                cursor: None,
                progress: DaeProgress { bytes_sent: 0, put_data_called: false, is_null: false },
            }),
    {
        DaeState {
            client: Some(client),
            call_in_flight: false,
            prepared,
            orphaned,
            params,
            cursor: None,
            progress: DaeProgress::default(),
        }
    }

    /// Checks the client out for a network write. Without a client to give
    /// nothing changes.
    pub fn checkout_client(&mut self) -> (client: Option<C>)
        ensures
            client == old(self).client,
            *final(self) == (if old(self).client is Some {
                checked_out(*old(self))
            } else {
                *old(self)
            }),
    {
        match self.client.take() {
            Some(client) => {
                self.call_in_flight = true;
                Some(client)
            },
            None => None,
        }
    }

    /// Gives the client back after a write.
    pub fn return_client(&mut self, client: C)
        ensures
            *final(self) == returned(*old(self), client),
    {
        self.client = Some(client);
        self.call_in_flight = false;
    }

    /// Whether a call has the client.
    pub fn call_in_flight(&self) -> (in_flight: bool)
        ensures
            in_flight == self.call_in_flight,
    {
        self.call_in_flight
    }

    /// The open parameter.
    pub open spec fn open_param(self) -> Option<DaeParam> {
        match self.cursor {
            Some(cursor) => if cursor < self.params@.len() {
                Some(self.params@[cursor as int])
            } else {
                None
            },
            None => None,
        }
    }

    /// The open parameter; none before the first and after the last.
    pub fn current_param(&self) -> (param: Option<&DaeParam>)
        ensures
            match param {
                Some(param) => self.open_param() == Some(*param),
                None => self.open_param() is None,
            },
    {
        match self.cursor {
            Some(cursor) => if cursor < self.params.len() {
                Some(&self.params[cursor])
            } else {
                None
            },
            None => None,
        }
    }

    /// Opens the next parameter, or the first.
    pub fn advance(&mut self)
        requires
            old(self).cursor != Some(usize::MAX),
        ensures
            *final(self) == advanced(*old(self)),
    {
        self.cursor = match self.cursor {
            Some(cursor) => Some(cursor + 1),
            None => Some(0),
        };
        self.progress = DaeProgress::default();
    }
}

/// The sequence after its client was checked out.
pub open spec fn checked_out<C>(dae: DaeState<C>) -> DaeState<C> {
    DaeState { client: None, call_in_flight: true, ..dae }
}

/// The sequence after a client was given back.
pub open spec fn returned<C>(dae: DaeState<C>, client: C) -> DaeState<C> {
    DaeState { client: Some(client), call_in_flight: false, ..dae }
}

/// A call that gives the client back leaves the sequence as it found it.
pub proof fn returning_undoes_checking_out<C>(dae: DaeState<C>)
    requires
        dae.wf(),
        dae.client is Some,
    ensures
        checked_out(dae).wf(),
        returned(checked_out(dae), dae.client->0) == dae,
{
}

/// The sequence with its next parameter open, or its first.
pub open spec fn advanced<C>(dae: DaeState<C>) -> DaeState<C> {
    DaeState {
        cursor: Some(
            match dae.cursor {
                Some(cursor) => (cursor + 1) as usize,
                None => 0,
            },
        ),
        progress: DaeProgress { bytes_sent: 0, put_data_called: false, is_null: false },
        ..dae
    }
}

/// The sequence after `steps` parameters were asked for.
pub open spec fn after_steps<C>(dae: DaeState<C>, steps: nat) -> DaeState<C>
    decreases steps,
{
    if steps == 0 {
        dae
    } else {
        advanced(after_steps(dae, (steps - 1) as nat))
    }
}

/// Parameters are opened in their order, each of them once, and after the last
/// none is open.
pub proof fn parameters_open_in_order<C>(dae: DaeState<C>, steps: nat)
    requires
        dae.cursor is None,
        steps <= usize::MAX,
    ensures
        after_steps(dae, steps).open_param() == (if 1 <= steps <= dae.params@.len() {
            Some(dae.params@[steps - 1])
        } else {
            None
        }),
        after_steps(dae, steps).params == dae.params,
        steps > 0 ==> after_steps(dae, steps).cursor == Some((steps - 1) as usize),
    decreases steps,
{
    if steps > 0 {
        parameters_open_in_order(dae, (steps - 1) as nat);
    }
}

/// Opening the next parameter forgets what came of the one before, and touches
/// neither the client nor the plan nor the parameters.
pub proof fn a_parameter_opens_with_nothing_sent<C>(dae: DaeState<C>)
    ensures
        advanced(dae).progress.bytes_sent == 0,
        !advanced(dae).progress.put_data_called,
        !advanced(dae).progress.is_null,
        advanced(dae).client == dae.client,
        advanced(dae).call_in_flight == dae.call_in_flight,
        advanced(dae).prepared == dae.prepared,
        advanced(dae).orphaned == dae.orphaned,
        advanced(dae).params == dae.params,
        dae.wf() ==> advanced(dae).wf(),
{
}

/// A client that was checked out is not there to be checked out again, and while
/// it is out a call is in flight.
pub proof fn a_client_is_checked_out_once<C>(dae: DaeState<C>, client: C)
    ensures
        checked_out(dae).client is None,
        checked_out(dae).call_in_flight,
        returned(dae, client).client == Some(client),
        !returned(dae, client).call_in_flight,
        checked_out(dae).open_param() == dae.open_param(),
        returned(dae, client).open_param() == dae.open_param(),
        checked_out(dae).progress == dae.progress,
        returned(dae, client).progress == dae.progress,
{
}

} // verus!
