//! Packed handle identities: a slot index and the generation that occupies it.

use vstd::prelude::*;

verus! {

/// The kinds of handle an application can hold.
#[derive(Debug, Clone, Copy, PartialEq, Eq, Structural)]
pub enum HandleType {
    Env,
    Dbc,
    Stmt,
    Desc,
    Invalid,
}

/// Why the registry refused a request.
#[derive(Debug, Clone, Copy, PartialEq, Eq, Structural)]
pub enum RegistryError {
    InvalidId,
    NotFound,
    WrongType,
    Busy,
    IdSpaceFull,
    Capacity,
    ActivityOverflow,
    InvalidActivity,
    OwnershipMismatch,
    DuplicateId,
}

/// Number of slots an identity can address.
pub open spec fn spec_slot_capacity() -> usize {
    if usize::BITS == 64 {
        (u32::MAX + 1) as usize
    } else {
        0x10_0000usize
    }
}

/// Number of slots an identity can address.
#[verifier::when_used_as_spec(spec_slot_capacity)]
pub fn slot_capacity() -> (capacity: usize)
    ensures
        capacity == spec_slot_capacity(),
{
    if usize::BITS == 64 {
        u32::MAX as usize + 1
    } else {
        0x10_0000
    }
}

/// The weight of one slot index inside a packed identity.
pub open spec fn spec_generation_span() -> usize {
    if usize::BITS == 64 {
        (u32::MAX + 1) as usize
    } else {
        0x1000usize
    }
}

/// The weight of one slot index inside a packed identity.
#[verifier::when_used_as_spec(spec_generation_span)]
pub fn generation_span() -> (span: usize)
    ensures
        span == spec_generation_span(),
{
    if usize::BITS == 64 {
        u32::MAX as usize + 1
    } else {
        0x1000
    }
}

/// The largest generation an identity can carry.
pub open spec fn spec_generation_mask() -> usize {
    (spec_generation_span() - 1) as usize
}

/// The largest generation an identity can carry.
#[verifier::when_used_as_spec(spec_generation_mask)]
pub fn generation_mask() -> (mask: usize)
    ensures
        mask == spec_generation_mask(),
{
    generation_span() - 1
}

/// The identity that crosses the application boundary as an opaque address.
/// It packs a slot index above a generation and is never zero.
#[derive(Debug, Clone, Copy, PartialEq, Eq, Hash, Structural)]
pub struct HandleId {
    raw: usize,
}

impl HandleId {
    /// The opaque address of this identity.
    pub closed spec fn spec_raw(self) -> usize {
        self.raw
    }

    /// The slot this identity names.
    pub open spec fn spec_index(self) -> usize {
        (self.spec_raw() as int / spec_generation_span() as int) as usize
    }

    /// The occupancy of that slot this identity names.
    pub open spec fn spec_generation(self) -> usize {
        (self.spec_raw() as int % spec_generation_span() as int) as usize
    }

    /// Packs a slot index and a generation.
    pub fn from_parts(index: usize, generation: usize) -> (result: Result<Self, RegistryError>)
        ensures
            result is Ok <==> index < spec_slot_capacity() && 1 <= generation
                <= spec_generation_mask(),
            result matches Ok(id) ==> {
                &&& id.spec_index() == index
                &&& id.spec_generation() == generation
                &&& id.spec_raw() == index * spec_generation_span() + generation
            },
            result matches Err(error) ==> error == RegistryError::InvalidId,
    {
        if index >= slot_capacity() || generation == 0 || generation > generation_mask() {
            return Err(RegistryError::InvalidId);
        }
        let span: usize = generation_span();
        proof {
            let s = spec_generation_span() as int;
            let cap = spec_slot_capacity() as int;
            assert(index * s <= (cap - 1) * s) by (nonlinear_arith)
                requires
                    index <= cap - 1,
                    s >= 0,
            ;
            assert(0 <= index * s) by (nonlinear_arith)
                requires
                    0 <= index,
                    s >= 0,
            ;
            assert((cap - 1) * s + (s - 1) <= usize::MAX);
            vstd::arithmetic::div_mod::lemma_fundamental_div_mod_converse(
                index * s + generation,
                s,
                index as int,
                generation as int,
            );
        }
        Ok(HandleId { raw: index * span + generation })
    }

    /// The slot this identity names.
    #[verifier::when_used_as_spec(spec_index)]
    pub fn index(self) -> (index: usize)
        ensures
            index == self.spec_index(),
    {
        self.raw / generation_span()
    }

    /// The occupancy of that slot this identity names.
    #[verifier::when_used_as_spec(spec_generation)]
    pub fn generation(self) -> (generation: usize)
        ensures
            generation == self.spec_generation(),
    {
        self.raw % generation_span()
    }

    /// Reads back an identity from its address; null names nothing.
    pub fn from_raw(raw: usize) -> (result: Result<Self, RegistryError>)
        ensures
            raw == 0 ==> result == Err::<Self, RegistryError>(RegistryError::InvalidId),
            raw != 0 ==> result is Ok && result->Ok_0.spec_raw() == raw,
    {
        if raw == 0 {
            Err(RegistryError::InvalidId)
        } else {
            Ok(HandleId { raw })
        }
    }

    /// The address of this identity. It encodes identity only.
    #[verifier::when_used_as_spec(spec_raw)]
    pub fn to_raw(self) -> (raw: usize)
        ensures
            raw == self.spec_raw(),
    {
        self.raw
    }
}

/// Two identities are the same exactly when they name the same slot and the
/// same generation of it.
pub proof fn identity_is_index_and_generation(a: HandleId, b: HandleId)
    ensures
        a == b <==> a.spec_index() == b.spec_index() && a.spec_generation() == b.spec_generation(),
{
    let s = spec_generation_span() as int;
    vstd::arithmetic::div_mod::lemma_fundamental_div_mod(a.raw as int, s);
    vstd::arithmetic::div_mod::lemma_fundamental_div_mod(b.raw as int, s);
    assert(a.raw as int / s <= a.raw && b.raw as int / s <= b.raw);
}

/// Every address survives the round trip through an identity, and two
/// identities with one address are the same identity.
pub proof fn addresses_determine_identities(a: HandleId, b: HandleId)
    ensures
        a.spec_raw() == b.spec_raw() <==> a == b,
{
}

/// Slot indices and generations share a word between them: together they use all of
/// it, and a word of 64 bits has half of it for each.
pub proof fn indices_and_generations_share_a_word()
    ensures
        spec_slot_capacity() * spec_generation_span() == usize::MAX + 1,
        usize::BITS == 64 ==> spec_slot_capacity() == 0x1_0000_0000 && spec_generation_mask()
            == 0xffff_ffff,
        usize::BITS == 32 ==> spec_slot_capacity() == 0x10_0000 && spec_generation_mask() == 0xfff,
{
    let capacity = spec_slot_capacity() as int;
    let span = spec_generation_span() as int;
    if usize::BITS == 64 {
        assert(capacity * span == 0x1_0000_0000_0000_0000) by (nonlinear_arith)
            requires
                capacity == 0x1_0000_0000,
                span == 0x1_0000_0000,
        ;
    } else {
        assert(capacity * span == 0x1_0000_0000) by (nonlinear_arith)
            requires
                capacity == 0x10_0000,
                span == 0x1000,
        ;
    }
}

/// An identity is put together and taken apart without loss, and its address is never
/// zero.
pub proof fn an_identity_is_its_parts(id: HandleId, index: usize, generation: usize)
    requires
        index < spec_slot_capacity(),
        1 <= generation <= spec_generation_mask(),
        id.spec_raw() == index * spec_generation_span() + generation,
    ensures
        id.spec_index() == index,
        id.spec_generation() == generation,
        id.spec_raw() != 0,
{
    let s = spec_generation_span() as int;
    vstd::arithmetic::div_mod::lemma_fundamental_div_mod_converse(
        index * s + generation,
        s,
        index as int,
        generation as int,
    );
    assert(0 <= index * s) by (nonlinear_arith)
        requires
            0 <= index,
            s >= 0,
    ;
}

} // verus!
