//! Environments.

use std::sync::Arc;

use vstd::prelude::*;

use crate::diag::DiagRecord;
use crate::odbc_types::{SQL_OV_ODBC2, SQL_OV_ODBC3, SQL_OV_ODBC3_80};

verus! {

/// The version of ODBC that an application asks for.
#[derive(Debug, Clone, Copy, PartialEq, Eq, Structural)]
pub enum OdbcVersion {
    /// None yet; calls that need one fail.
    Unset,
    Odbc2,
    Odbc3,
    Odbc3_80,
}

impl TryFrom<u32> for OdbcVersion {
    type Error = ();

    fn try_from(value: u32) -> (version: Result<Self, ()>) {
        match value {
            SQL_OV_ODBC2 => Ok(OdbcVersion::Odbc2),
            SQL_OV_ODBC3 => Ok(OdbcVersion::Odbc3),
            SQL_OV_ODBC3_80 => Ok(OdbcVersion::Odbc3_80),
            _ => Err(()),
        }
    }
}

impl vstd::std_specs::convert::TryFromSpecImpl<u32> for OdbcVersion {
    open spec fn obeys_try_from_spec() -> bool {
        true
    }

    open spec fn try_from_spec(value: u32) -> Result<Self, ()> {
        version_of(value)
    }
}

/// The version that a number asks for.
pub open spec fn version_of(value: u32) -> Result<OdbcVersion, ()> {
    if value == SQL_OV_ODBC2 {
        Ok(OdbcVersion::Odbc2)
    } else if value == SQL_OV_ODBC3 {
        Ok(OdbcVersion::Odbc3)
    } else if value == SQL_OV_ODBC3_80 {
        Ok(OdbcVersion::Odbc3_80)
    } else {
        Err(())
    }
}

/// Whether the loader is tearing the process down, by which time its other
/// threads are gone. Only Windows ends them before a library's own teardown;
/// this is for every other platform.
pub fn process_is_shutting_down() -> (shutting_down: bool)
    ensures
        !shutting_down,
{
    false
}

/// How a runtime is let go.
#[derive(Debug, Clone, Copy, PartialEq, Eq, Structural)]
pub enum ReleasePolicy {
    /// Wait for its threads: the library may be unloaded next.
    Join,
    /// Leave it alone: its threads are gone, and nothing may wait for them.
    Leak,
}

/// Says how a runtime is let go.
pub fn release_policy(process_is_shutting_down: bool) -> (policy: ReleasePolicy)
    ensures
        policy is Leak <==> process_is_shutting_down,
        policy is Join <==> !process_is_shutting_down,
{
    if process_is_shutting_down {
        ReleasePolicy::Leak
    } else {
        ReleasePolicy::Join
    }
}

/// The state of an environment.
#[derive(Debug)]
pub struct EnvState {
    pub diag_records: Vec<DiagRecord>,
    pub odbc_version: OdbcVersion,
    pub output_nts: bool,
    /// Its connections.
    pub connections: Vec<usize>,
}

/// An environment. `R` is the runtime that its connections share.
#[derive(Debug)]
pub struct EnvHandle<R> {
    pub state: EnvState,
    pub runtime: Arc<R>,
}

impl<R> EnvHandle<R> {
    /// An environment without connections.
    pub fn new(runtime: R) -> (env: Self)
        ensures
            *env.runtime == runtime,
            env.state.diag_records@.len() == 0,
            env.state.odbc_version is Unset,
            env.state.output_nts,
            env.state.connections@.len() == 0,
    {
        EnvHandle {
            state: EnvState {
                diag_records: Vec::new(),
                odbc_version: OdbcVersion::Unset,
                output_nts: true,
                connections: Vec::new(),
            },
            runtime: Arc::new(runtime),
        }
    }
}

/// An application asks for a version by its number, and each number there is asks
/// for one version.
pub proof fn versions_have_their_numbers(value: u32)
    ensures
        version_of(2) == Ok::<OdbcVersion, ()>(OdbcVersion::Odbc2),
        version_of(3) == Ok::<OdbcVersion, ()>(OdbcVersion::Odbc3),
        version_of(380) == Ok::<OdbcVersion, ()>(OdbcVersion::Odbc3_80),
        value != 2 && value != 3 && value != 380 ==> version_of(value) is Err,
{
}

} // verus!
