//! Connections.

use std::sync::Arc;

use vstd::prelude::*;

use crate::diag::DiagRecord;
use crate::odbc_types::{DEFAULT_PACKET_SIZE, SQL_MODE_READ_WRITE, SQL_TXN_READ_COMMITTED};

verus! {

/// How far a connection is.
#[derive(Debug, Clone, Copy, PartialEq, Eq, Structural)]
pub enum ConnectionState {
    Disconnected,
    /// An attempt is in progress, and no other may be made.
    Connecting,
    Connected,
    /// The connection is the parent process's.
    Forked,
}

/// Settings that attributes gave before connecting; they override what the
/// connection string says of the same.
#[derive(Debug, Clone, Copy, PartialEq, Eq, Structural)]
pub struct VendorConnOverrides {
    /// 0 for none, 1 for encryption, 2 for the strict kind.
    pub encrypt: Option<u32>,
    pub trust_server_certificate: Option<u32>,
    pub integrated_security: Option<u32>,
}

impl Default for VendorConnOverrides {
    /// Nothing is overridden.
    fn default() -> (overrides: Self)
        ensures
            overrides == (VendorConnOverrides {
                encrypt: None,
                trust_server_certificate: None,
                integrated_security: None,
            }),
    {
        VendorConnOverrides {
            encrypt: None,
            trust_server_certificate: None,
            integrated_security: None,
        }
    }
}

/// The state of a connection. `C` is its client.
pub struct DbcState<C> {
    pub diag_records: Vec<DiagRecord>,
    pub connection_state: ConnectionState,
    pub statements: Vec<usize>,
    /// The descriptors that the application allocated.
    pub descriptors: Vec<usize>,
    /// The statement that has an open cursor; only one may.
    pub active_stmt: Option<usize>,
    pub client: Option<C>,
    pub server_name: String,
    pub user_name: String,
    pub access_token: Option<String>,
    pub login_timeout: Option<u32>,
    pub vendor_overrides: VendorConnOverrides,
    /// The settings in effect while connected.
    pub effective_vendor_settings: Option<VendorConnOverrides>,
    pub effective_packet_size: Option<u32>,
    pub access_mode: u32,
    pub connection_timeout: u32,
    pub packet_size: u32,
    pub autocommit: bool,
    pub txn_isolation: u32,
    /// Whether the server's isolation level may differ from the one kept here.
    pub server_isolation_unknown: bool,
    /// The number of resets so far.
    pub reset_generation: u64,
    /// Whether the open transaction may hold work of the application.
    pub local_tran_started: bool,
    pub current_catalog: Option<String>,
    /// The timeout that new statements start with.
    pub stmt_query_timeout: u32,
}

/// A connection. `R` is the runtime of its environment.
pub struct DbcHandle<C, R> {
    /// The environment it belongs to.
    pub parent_env: usize,
    pub runtime: Arc<R>,
    pub state: DbcState<C>,
}

/// What may be shown in place of an access token.
pub open spec fn shown_in_place_of(token: Option<Seq<char>>) -> Option<Seq<char>> {
    match token {
        Some(_) => Some("<REDACTED>"@),
        None => None,
    }
}

impl<C> DbcState<C> {
    /// Whether a connection has not been used yet.
    pub open spec fn is_new(self) -> bool {
        &&& self.diag_records@.len() == 0
        &&& self.connection_state is Disconnected
        &&& self.statements@.len() == 0
        &&& self.descriptors@.len() == 0
        &&& self.active_stmt is None
        &&& self.client is None
        &&& self.server_name@.len() == 0
        &&& self.user_name@.len() == 0
        &&& self.access_token is None
        &&& self.login_timeout is None
        &&& self.vendor_overrides == (VendorConnOverrides {
            encrypt: None,
            trust_server_certificate: None,
            integrated_security: None,
        })
        &&& self.effective_vendor_settings is None
        &&& self.effective_packet_size is None
        &&& self.access_mode == SQL_MODE_READ_WRITE
        &&& self.connection_timeout == 0
        &&& self.packet_size == DEFAULT_PACKET_SIZE
        &&& self.autocommit
        &&& self.txn_isolation == SQL_TXN_READ_COMMITTED
        &&& !self.server_isolation_unknown
        &&& self.reset_generation == 0
        &&& !self.local_tran_started
        &&& self.current_catalog is None
        &&& self.stmt_query_timeout == 0
    }

    /// What may be shown in place of the access token: that there is one.
    pub fn shown_access_token(&self) -> (shown: Option<String>)
        ensures
            shown is Some <==> self.access_token is Some,
            shown matches Some(text) ==> text@ == "<REDACTED>"@,
            (match shown {
                Some(text) => Some(text@),
                None => None,
            }) == shown_in_place_of(match self.access_token {
                Some(token) => Some(token@),
                None => None,
            }),
    {
        match &self.access_token {
            Some(_) => Some("<REDACTED>".to_owned()),
            None => None,
        }
    }

    /// Whether `after` is this state with the parent process's connection left
    /// to it: everything that the session decided is forgotten, and what the
    /// application asked for stays.
    pub open spec fn left_to_parent(self, after: Self) -> bool {
        &&& after.server_name@.len() == 0
        &&& after.user_name@.len() == 0
        &&& after == (DbcState {
            client: None,
            connection_state: ConnectionState::Forked,
            active_stmt: None,
            local_tran_started: false,
            server_isolation_unknown: false,
            effective_vendor_settings: None,
            effective_packet_size: None,
            server_name: after.server_name,
            user_name: after.user_name,
            ..self
        })
    }

    /// Leaves a connection that was open before a fork to the parent process.
    /// Its client must not be dropped, which would speak to the server, so it
    /// is handed back.
    pub fn leave_to_parent(&mut self) -> (client: Option<C>)
        ensures
            client == old(self).client,
            old(self).left_to_parent(*final(self)),
    {
        let client: Option<C> = self.client.take();
        self.connection_state = ConnectionState::Forked;
        self.active_stmt = None;
        self.local_tran_started = false;
        self.server_isolation_unknown = false;
        self.effective_vendor_settings = None;
        self.effective_packet_size = None;
        self.server_name = String::new();
        self.user_name = String::new();
        client
    }
}

impl<C, R> DbcHandle<C, R> {
    /// A connection that is not connected.
    pub fn new(parent_env: usize, runtime: Arc<R>) -> (dbc: Self)
        ensures
            dbc.parent_env == parent_env,
            dbc.runtime == runtime,
            dbc.state.is_new(),
    {
        DbcHandle {
            parent_env,
            runtime,
            state: DbcState {
                diag_records: Vec::new(),
                connection_state: ConnectionState::Disconnected,
                statements: Vec::new(),
                descriptors: Vec::new(),
                active_stmt: None,
                client: None,
                server_name: String::new(),
                user_name: String::new(),
                access_token: None,
                login_timeout: None,
                vendor_overrides: VendorConnOverrides::default(),
                effective_vendor_settings: None,
                effective_packet_size: None,
                access_mode: SQL_MODE_READ_WRITE,
                connection_timeout: 0,
                packet_size: DEFAULT_PACKET_SIZE,
                autocommit: true,
                txn_isolation: SQL_TXN_READ_COMMITTED,
                server_isolation_unknown: false,
                reset_generation: 0,
                local_tran_started: false,
                current_catalog: None,
                stmt_query_timeout: 0,
            },
        }
    }
}

/// A connection left to the parent process has no session any more: no client, no
/// cursor, no transaction, nothing that the server decided. What the application
/// asked for stays, to be asked for again, and so do the handles that belong to it.
pub proof fn a_fork_keeps_what_the_application_asked_for<C>(before: DbcState<C>, after: DbcState<C>)
    requires
        before.left_to_parent(after),
    ensures
        after.connection_state is Forked,
        after.client is None,
        after.active_stmt is None,
        !after.local_tran_started,
        !after.server_isolation_unknown,
        after.effective_vendor_settings is None,
        after.effective_packet_size is None,
        after.server_name@.len() == 0,
        after.user_name@.len() == 0,
        after.statements == before.statements,
        after.descriptors == before.descriptors,
        after.diag_records == before.diag_records,
        after.access_token == before.access_token,
        after.login_timeout == before.login_timeout,
        after.vendor_overrides == before.vendor_overrides,
        after.access_mode == before.access_mode,
        after.connection_timeout == before.connection_timeout,
        after.packet_size == before.packet_size,
        after.autocommit == before.autocommit,
        after.txn_isolation == before.txn_isolation,
        after.reset_generation == before.reset_generation,
        after.current_catalog == before.current_catalog,
        after.stmt_query_timeout == before.stmt_query_timeout,
{
}

/// A new connection is not connected, commits each statement by itself, reads what
/// is committed and may write.
pub proof fn a_new_connection_is_blank<C>(state: DbcState<C>)
    requires
        state.is_new(),
    ensures
        state.connection_state is Disconnected,
        state.client is None,
        state.autocommit,
        state.txn_isolation == 2,
        state.access_mode == 0,
        state.login_timeout is None,
        state.connection_timeout == 0,
        state.stmt_query_timeout == 0,
        state.access_token is None,
        state.statements@.len() == 0 && state.descriptors@.len() == 0,
{
}

/// What is shown does not depend on the token, only on whether there is one.
pub proof fn the_token_is_not_shown(token: Seq<char>, other: Seq<char>)
    ensures
        shown_in_place_of(Some(token)) == shown_in_place_of(Some(other)),
        shown_in_place_of(Some(token)) is Some,
        shown_in_place_of(None) is None,
{
}

} // verus!
