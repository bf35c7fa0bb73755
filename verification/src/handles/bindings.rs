//! Lifetimes of buffer use, separate from the calls the registry admits.
//!
//! Descriptors and statements count the snapshots that still read or write
//! the buffers bound to them. Taking or refusing a use happens under the
//! connection that owns the descriptor, which the use records.

use std::sync::Arc;

use vstd::prelude::*;

use super::activity::ActivityId;
use super::handle_id::RegistryError;
use crate::diag::{
    self, post_function_sequence, post_memory_allocation, post_sql_error, DiagRecord,
    SQLSTATE_HY000, SQLSTATE_HY001, SQLSTATE_HY010,
};
use crate::odbc_types::{SqlReturn, SQL_ERROR};

verus! {

/// What a prepared plan remembers of the parameter descriptors it was made
/// for: which descriptors, and in which state. Handle identities would not do,
/// since they are reused.
#[derive(Debug, Clone, Copy, PartialEq, Eq, Structural)]
pub struct ParameterBindingKey {
    pub apd: ActivityId,
    pub apd_revision: u64,
    pub ipd: ActivityId,
    pub ipd_revision: u64,
}

impl ParameterBindingKey {
    /// The key of two descriptors in their present state.
    pub fn new(apd: ActivityId, apd_revision: u64, ipd: ActivityId, ipd_revision: u64) -> (key:
        Self)
        ensures
            key == (ParameterBindingKey { apd, apd_revision, ipd, ipd_revision }),
    {
        ParameterBindingKey { apd, apd_revision, ipd, ipd_revision }
    }

    /// Whether a plan made for `self` may be reused for `current`.
    pub open spec fn spec_matches(self, current: Self) -> bool {
        &&& self == current
        &&& current.apd_revision != u64::MAX
        &&& current.ipd_revision != u64::MAX
    }

    /// Whether a plan made for `self` may be reused for `current`. A revision
    /// at its maximum stands for every later one too, so it never matches.
    pub fn matches(&self, current: &Self) -> (same: bool)
        ensures
            same == self.spec_matches(*current),
    {
        self.apd == current.apd && self.ipd == current.ipd && self.apd_revision
            == current.apd_revision && self.ipd_revision == current.ipd_revision
            && current.apd_revision != u64::MAX && current.ipd_revision != u64::MAX
    }
}

/// Why a binding could not be used.
#[derive(Debug, Clone, Copy, PartialEq, Eq, Structural)]
pub enum BindingError {
    InUse,
    WrongOwner,
    Capacity,
    Registry(RegistryError),
    Poisoned,
    InvalidRecord,
}

/// The uses of one descriptor's buffers.
#[derive(Debug)]
pub struct BindingUse {
    /// The connection whose state gates this use.
    pub owner: ActivityId,
    /// The descriptor whose buffers are counted.
    pub holder: ActivityId,
    /// The number of uses now in progress.
    pub active: usize,
}

/// One use, to be given back.
#[derive(Debug)]
pub struct BindingUseGuard {
    owner: ActivityId,
    holder: ActivityId,
}

impl BindingUseGuard {
    /// The connection the use was taken under.
    pub closed spec fn spec_owner(self) -> ActivityId {
        self.owner
    }

    /// The descriptor whose buffers are in use.
    pub closed spec fn spec_holder(self) -> ActivityId {
        self.holder
    }
}

/// Whether bindings may change under a connection.
pub open spec fn may_change(uses: BindingUse, gate: ActivityId) -> Result<(), BindingError> {
    if uses.spec_owner() != gate {
        Err(BindingError::WrongOwner)
    } else if uses.spec_active() != 0 {
        Err(BindingError::InUse)
    } else {
        Ok(())
    }
}

/// Whether a use may be taken under a connection.
pub open spec fn may_take(uses: BindingUse, gate: ActivityId) -> Result<(), BindingError> {
    if uses.spec_owner() != gate {
        Err(BindingError::WrongOwner)
    } else if uses.spec_active() == usize::MAX {
        Err(BindingError::Capacity)
    } else {
        Ok(())
    }
}

/// Whether a use was taken: the counter says one more, and the use goes back to
/// the descriptor and the connection it came from.
pub open spec fn use_taken(before: BindingUse, after: BindingUse, guard: BindingUseGuard) -> bool {
    &&& after.spec_active() == before.spec_active() + 1
    &&& guard.spec_owner() == before.spec_owner()
    &&& guard.spec_holder() == before.spec_holder()
}

impl BindingUse {
    /// The connection that owns the buffers' descriptor.
    pub open spec fn spec_owner(self) -> ActivityId {
        self.owner
    }

    /// The descriptor whose buffers are counted.
    pub open spec fn spec_holder(self) -> ActivityId {
        self.holder
    }

    /// The number of uses.
    pub open spec fn spec_active(self) -> usize {
        self.active
    }

    /// No uses of the buffers of `holder` yet.
    pub fn new(owner: ActivityId, holder: ActivityId) -> (uses: Self)
        ensures
            uses.spec_owner() == owner,
            uses.spec_holder() == holder,
            uses.spec_active() == 0,
    {
        BindingUse { owner, holder, active: 0 }
    }

    /// Whether the buffers are in use.
    pub fn is_active(&self) -> (active: bool)
        ensures
            active <==> self.spec_active() != 0,
    {
        self.active != 0
    }

    /// Checks that `gate` is the owning connection.
    fn ensure_owner(&self, gate: ActivityId) -> (result: Result<(), BindingError>)
        ensures
            result == (if self.spec_owner() == gate {
                Ok::<(), BindingError>(())
            } else {
                Err(BindingError::WrongOwner)
            }),
    {
        if self.owner != gate {
            return Err(BindingError::WrongOwner);
        }
        Ok(())
    }

    /// Checks, under the owning connection, that the bindings may change.
    pub fn ensure_idle(&self, gate: ActivityId) -> (result: Result<(), BindingError>)
        ensures
            result == may_change(*self, gate),
    {
        if let Err(error) = self.ensure_owner(gate) {
            return Err(error);
        }
        if self.is_active() {
            Err(BindingError::InUse)
        } else {
            Ok(())
        }
    }

    /// Takes one use under the owning connection.
    pub fn acquire(&mut self, gate: ActivityId) -> (result: Result<BindingUseGuard, BindingError>)
        ensures
            final(self).spec_owner() == old(self).spec_owner(),
            final(self).spec_holder() == old(self).spec_holder(),
            match may_take(*old(self), gate) {
                Ok(()) => result matches Ok(guard) && use_taken(*old(self), *final(self), guard),
                Err(error) => result matches Err(given) && given == error && *final(self)
                    == *old(self),
            },
            if old(self).spec_owner() != gate {
                &&& result is Err
                &&& result->Err_0 == BindingError::WrongOwner
                &&& final(self).spec_active() == old(self).spec_active()
            } else if old(self).spec_active() == usize::MAX {
                &&& result is Err
                &&& result->Err_0 == BindingError::Capacity
                &&& final(self).spec_active() == old(self).spec_active()
            } else {
                &&& result is Ok
                &&& result->Ok_0.spec_owner() == gate
                &&& result->Ok_0.spec_holder() == old(self).spec_holder()
                &&& final(self).spec_active() == old(self).spec_active() + 1
            },
    {
        if let Err(error) = self.ensure_owner(gate) {
            return Err(error);
        }
        match self.active.checked_add(1) {
            Some(active) => {
                self.active = active;
                Ok(BindingUseGuard { owner: self.owner, holder: self.holder })
            },
            None => Err(BindingError::Capacity),
        }
    }

    /// Gives one use back to the counter that it was taken from.
    pub fn release(&mut self, guard: BindingUseGuard)
        requires
            old(self).spec_active() > 0,
            guard.spec_owner() == old(self).spec_owner(),
            guard.spec_holder() == old(self).spec_holder(),
        ensures
            final(self).spec_owner() == old(self).spec_owner(),
            final(self).spec_holder() == old(self).spec_holder(),
            final(self).spec_active() == old(self).spec_active() - 1,
    {
        self.active = self.active - 1;
    }
}

/// A use of a descriptor's buffers, with the descriptor that is used.
#[derive(Debug)]
pub struct BindingLease<P> {
    pub descriptor: Arc<P>,
    pub use_guard: BindingUseGuard,
}

impl<P> BindingLease<P> {
    /// Takes a use of a descriptor's buffers under the connection that owns it.
    pub fn acquire(descriptor: &Arc<P>, uses: &mut BindingUse, gate: ActivityId) -> (result: Result<
        Self,
        BindingError,
    >)
        ensures
            final(uses).spec_owner() == old(uses).spec_owner(),
            final(uses).spec_holder() == old(uses).spec_holder(),
            match may_take(*old(uses), gate) {
                Ok(()) => result matches Ok(lease) && use_taken(
                    *old(uses),
                    *final(uses),
                    lease.use_guard,
                ),
                Err(error) => result matches Err(given) && given == error && *final(uses)
                    == *old(uses),
            },
            if old(uses).spec_owner() != gate {
                &&& result is Err
                &&& result->Err_0 == BindingError::WrongOwner
                &&& final(uses).spec_active() == old(uses).spec_active()
            } else if old(uses).spec_active() == usize::MAX {
                &&& result is Err
                &&& result->Err_0 == BindingError::Capacity
                &&& final(uses).spec_active() == old(uses).spec_active()
            } else {
                &&& result is Ok
                &&& result->Ok_0.descriptor == *descriptor
                &&& result->Ok_0.use_guard.spec_owner() == gate
                &&& result->Ok_0.use_guard.spec_holder() == old(uses).spec_holder()
                &&& final(uses).spec_active() == old(uses).spec_active() + 1
            },
    {
        match uses.acquire(gate) {
            Ok(use_guard) => Ok(BindingLease { descriptor: descriptor.clone(), use_guard }),
            Err(error) => Err(error),
        }
    }

    /// Gives the use back to the counter that it was taken from.
    pub fn release(self, uses: &mut BindingUse)
        requires
            old(uses).spec_active() > 0,
            self.use_guard.spec_owner() == old(uses).spec_owner(),
            self.use_guard.spec_holder() == old(uses).spec_holder(),
        ensures
            final(uses).spec_owner() == old(uses).spec_owner(),
            final(uses).spec_holder() == old(uses).spec_holder(),
            final(uses).spec_active() == old(uses).spec_active() - 1,
    {
        uses.release(self.use_guard);
    }
}

/// The text of a registry error.
pub open spec fn registry_message(error: RegistryError) -> Seq<char> {
    match error {
        RegistryError::InvalidId => "null handle identity"@,
        RegistryError::NotFound => "handle is missing or retired"@,
        RegistryError::WrongType => "handle type does not match"@,
        RegistryError::Busy => "handle or ancestor is in use or closing"@,
        RegistryError::IdSpaceFull => "all handle slots are currently in use"@,
        RegistryError::Capacity => "handle registry capacity could not be reserved"@,
        RegistryError::ActivityOverflow => "handle activity count would overflow"@,
        RegistryError::InvalidActivity =>
            "activity is already registered or belongs to another registry"@,
        RegistryError::OwnershipMismatch => "handle reference belongs to another registry entry"@,
        RegistryError::DuplicateId => "retirement batch contains a duplicate identity"@,
    }
}

impl RegistryError {
    /// The text of this error.
    pub fn message(&self) -> (message: &'static str)
        ensures
            message@ == registry_message(*self),
    {
        match self {
            RegistryError::InvalidId => "null handle identity",
            RegistryError::NotFound => "handle is missing or retired",
            RegistryError::WrongType => "handle type does not match",
            RegistryError::Busy => "handle or ancestor is in use or closing",
            RegistryError::IdSpaceFull => "all handle slots are currently in use",
            RegistryError::Capacity => "handle registry capacity could not be reserved",
            RegistryError::ActivityOverflow => "handle activity count would overflow",
            RegistryError::InvalidActivity =>
                "activity is already registered or belongs to another registry",
            RegistryError::OwnershipMismatch =>
                "handle reference belongs to another registry entry",
            RegistryError::DuplicateId => "retirement batch contains a duplicate identity",
        }
    }
}

/// The text posted when a binding descriptor could not be acquired.
pub fn descriptor_message(error: RegistryError) -> (message: &'static str)
    ensures
        message@ == "Cannot acquire binding descriptor: "@ + registry_message(error),
{
    proof {
        reveal_strlit("Cannot acquire binding descriptor: ");
    }
    match error {
        RegistryError::InvalidId => {
            proof {
                reveal_strlit("null handle identity");
                reveal_strlit("Cannot acquire binding descriptor: null handle identity");
            }
            "Cannot acquire binding descriptor: null handle identity"
        },
        RegistryError::NotFound => {
            proof {
                reveal_strlit("handle is missing or retired");
                reveal_strlit("Cannot acquire binding descriptor: handle is missing or retired");
            }
            "Cannot acquire binding descriptor: handle is missing or retired"
        },
        RegistryError::WrongType => {
            proof {
                reveal_strlit("handle type does not match");
                reveal_strlit("Cannot acquire binding descriptor: handle type does not match");
            }
            "Cannot acquire binding descriptor: handle type does not match"
        },
        RegistryError::Busy => {
            proof {
                reveal_strlit("handle or ancestor is in use or closing");
                reveal_strlit(
                    "Cannot acquire binding descriptor: handle or ancestor is in use or closing",
                );
            }
            "Cannot acquire binding descriptor: handle or ancestor is in use or closing"
        },
        RegistryError::IdSpaceFull => {
            proof {
                reveal_strlit("all handle slots are currently in use");
                reveal_strlit(
                    "Cannot acquire binding descriptor: all handle slots are currently in use",
                );
            }
            "Cannot acquire binding descriptor: all handle slots are currently in use"
        },
        RegistryError::Capacity => {
            proof {
                reveal_strlit("handle registry capacity could not be reserved");
                reveal_strlit(
                    "Cannot acquire binding descriptor: handle registry capacity could not be reserved",
                );
            }
            "Cannot acquire binding descriptor: handle registry capacity could not be reserved"
        },
        RegistryError::ActivityOverflow => {
            proof {
                reveal_strlit("handle activity count would overflow");
                reveal_strlit(
                    "Cannot acquire binding descriptor: handle activity count would overflow",
                );
            }
            "Cannot acquire binding descriptor: handle activity count would overflow"
        },
        RegistryError::InvalidActivity => {
            proof {
                reveal_strlit("activity is already registered or belongs to another registry");
                reveal_strlit(
                    "Cannot acquire binding descriptor: activity is already registered or belongs to another registry",
                );
            }
            "Cannot acquire binding descriptor: activity is already registered or belongs to another registry"
        },
        RegistryError::OwnershipMismatch => {
            proof {
                reveal_strlit("handle reference belongs to another registry entry");
                reveal_strlit(
                    "Cannot acquire binding descriptor: handle reference belongs to another registry entry",
                );
            }
            "Cannot acquire binding descriptor: handle reference belongs to another registry entry"
        },
        RegistryError::DuplicateId => {
            proof {
                reveal_strlit("retirement batch contains a duplicate identity");
                reveal_strlit(
                    "Cannot acquire binding descriptor: retirement batch contains a duplicate identity",
                );
            }
            "Cannot acquire binding descriptor: retirement batch contains a duplicate identity"
        },
    }
}

/// The SQLSTATE and text a binding error is reported with.
pub open spec fn binding_diagnostic(error: BindingError) -> ([u8; 5], Seq<char>) {
    match error {
        BindingError::InUse => (SQLSTATE_HY010, "Function sequence error"@),
        BindingError::Capacity => (SQLSTATE_HY001, "Memory allocation error"@),
        BindingError::Registry(inner) => (
            SQLSTATE_HY000,
            "Cannot acquire binding descriptor: "@ + registry_message(inner),
        ),
        BindingError::WrongOwner => (
            SQLSTATE_HY000,
            "Internal error resolving binding ownership"@,
        ),
        BindingError::Poisoned => (
            SQLSTATE_HY000,
            "Internal error accessing parameter or column bindings: poisoned mutex"@,
        ),
        BindingError::InvalidRecord => (
            SQLSTATE_HY000,
            "Internal error accessing a binding record"@,
        ),
    }
}

impl BindingError {
    /// Posts this error and returns what the failed call returns.
    pub fn post(&self, records: &mut Vec<DiagRecord>) -> (code: SqlReturn)
        ensures
            code == SQL_ERROR,
            diag::posted(
                old(records)@,
                final(records)@,
                binding_diagnostic(*self).0,
                0,
                binding_diagnostic(*self).1,
            ),
    {
        match self {
            BindingError::InUse => post_function_sequence(records),
            BindingError::Capacity => post_memory_allocation(records),
            BindingError::Registry(error) => post_sql_error(
                records,
                SQLSTATE_HY000,
                0,
                descriptor_message(*error),
            ),
            BindingError::WrongOwner => post_sql_error(
                records,
                SQLSTATE_HY000,
                0,
                "Internal error resolving binding ownership",
            ),
            BindingError::Poisoned => post_sql_error(
                records,
                SQLSTATE_HY000,
                0,
                "Internal error accessing parameter or column bindings: poisoned mutex",
            ),
            BindingError::InvalidRecord => post_sql_error(
                records,
                SQLSTATE_HY000,
                0,
                "Internal error accessing a binding record",
            ),
        }
        SQL_ERROR
    }
}

/// A saturated revision authorizes no reuse, not even of a plan made for that
/// very state.
pub proof fn saturated_revision_never_matches(key: ParameterBindingKey, current: ParameterBindingKey)
    requires
        current.apd_revision == u64::MAX || current.ipd_revision == u64::MAX,
    ensures
        !key.spec_matches(current),
{
}

/// A plan is reused exactly for the descriptors it was made for, while both are in
/// the state they were in then and both revisions still count.
pub proof fn a_plan_is_reused_for_the_state_it_was_made_for(
    key: ParameterBindingKey,
    current: ParameterBindingKey,
)
    ensures
        key.spec_matches(current) ==> key.apd == current.apd && key.ipd == current.ipd
            && key.apd_revision == current.apd_revision && key.ipd_revision == current.ipd_revision,
        key.apd_revision < u64::MAX && key.ipd_revision < u64::MAX ==> key.spec_matches(key),
        key.spec_matches(current) ==> current.spec_matches(key),
{
}

/// While a use is taken the bindings may not change, and once all are given back
/// they may; under another connection neither is answered.
pub proof fn a_use_keeps_the_bindings_as_they_are(
    before: BindingUse,
    after: BindingUse,
    guard: BindingUseGuard,
    gate: ActivityId,
)
    requires
        use_taken(before, after, guard),
        after.spec_owner() == before.spec_owner(),
        after.spec_holder() == before.spec_holder(),
    ensures
        after.spec_active() > 0,
        guard.spec_owner() == after.spec_owner(),
        guard.spec_holder() == after.spec_holder(),
        after.spec_owner() == gate ==> may_change(after, gate) == Err::<(), BindingError>(
            BindingError::InUse,
        ),
        after.spec_owner() != gate ==> may_change(after, gate) == Err::<(), BindingError>(
            BindingError::WrongOwner,
        ) && may_take(after, gate) == Err::<(), BindingError>(BindingError::WrongOwner),
        before.spec_owner() == gate && before.spec_active() == 0 ==> may_change(before, gate)
            is Ok,
        before.spec_owner() == gate ==> may_take(before, gate) is Ok,
{
}

/// Each binding error is reported with its SQLSTATE: one in use as a call out of
/// sequence, one without room as storage that could not be had, the others as
/// general errors, which say what went wrong.
pub proof fn binding_errors_have_their_states(error: BindingError)
    ensures
        binding_diagnostic(BindingError::InUse).0@ == seq![72u8, 89, 48, 49, 48],
        binding_diagnostic(BindingError::Capacity).0@ == seq![72u8, 89, 48, 48, 49],
        !(error is InUse) && !(error is Capacity) ==> binding_diagnostic(error).0@ == seq![
            72u8,
            89,
            48,
            48,
            48,
        ],
        error matches BindingError::Registry(inner) ==> registry_message(inner).is_suffix_of(
            binding_diagnostic(error).1,
        ),
{
    if let BindingError::Registry(inner) = error {
        let text = binding_diagnostic(error).1;
        let tail = registry_message(inner);
        assert(text.subrange(text.len() - tail.len(), text.len() as int) =~= tail);
    }
}

} // verus!
