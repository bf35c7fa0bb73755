//! Handles, their identities and the state they guard.

pub mod active_plp;
pub mod activity;
pub mod bindings;
pub mod dae_state;
pub mod dbc;
pub mod desc;
pub mod env;
pub mod fork;
pub mod handle_id;
pub mod registry;
pub mod stmt;
pub mod stmt_attrs;
pub mod table;
