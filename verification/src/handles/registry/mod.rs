//! The handle registry: identities for payloads, with admission control.
//!
//! A slot is reused under a new generation, so an identity that was retired
//! does not name the handle that replaced it until the generations wrap.

use std::sync::Arc;
use vstd::prelude::*;

use super::activity::{self, ActivityForest, ActivityId, HandleActivity};
use super::handle_id::{generation_mask, slot_capacity, HandleId, HandleType, RegistryError};

pub mod slots;

use slots::{RegistryEntry, SlotState, SlotTable};

verus! {

/// The registry of one process.
pub struct HandleRegistry<P> {
    next_index: usize,
    free_head: Option<usize>,
    live: usize,
    slot_limit: usize,
    generation_limit: usize,
    identity: u64,
    slots: SlotTable<P>,
    first_index: Ghost<int>,
    free: Ghost<Seq<usize>>,
    payloads: Ghost<Map<ActivityId, Arc<P>>>,
}

/// A call on a handle. It counts as in flight until it is given back.
#[derive(Debug)]
pub struct HandleRef<P> {
    id: HandleId,
    kind: HandleType,
    value: Arc<P>,
    activity: ActivityId,
    identity: u64,
}

impl<P> HandleRef<P> {
    /// The identity the call was made on.
    pub closed spec fn spec_id(self) -> HandleId {
        self.id
    }

    /// The kind of the handle.
    pub closed spec fn spec_kind(self) -> HandleType {
        self.kind
    }

    /// The payload of the handle.
    pub closed spec fn spec_value(self) -> Arc<P> {
        self.value
    }

    /// The activity the call counts on.
    pub closed spec fn spec_activity(self) -> ActivityId {
        self.activity
    }

    /// The registry that the call was admitted by.
    pub closed spec fn spec_identity(self) -> u64 {
        self.identity
    }

    /// The identity the call was made on.
    pub fn id(&self) -> (id: HandleId)
        ensures
            id == self.spec_id(),
    {
        self.id
    }

    /// The payload of the handle.
    pub fn value(&self) -> (value: &Arc<P>)
        ensures
            *value == self.spec_value(),
    {
        &self.value
    }

    /// The activity the call counts on.
    pub fn activity(&self) -> (activity: ActivityId)
        ensures
            activity == self.spec_activity(),
    {
        self.activity
    }

    /// Another owner of the payload, which does not count as a call.
    pub fn clone_arc(&self) -> (value: Arc<P>)
        ensures
            value == self.spec_value(),
    {
        self.value.clone()
    }

    /// Ends the call, in the forest that its registry counts calls in, and
    /// keeps the payload.
    pub fn into_arc(self, forest: &mut ActivityForest) -> (value: Arc<P>)
        requires
            old(forest).wf(),
            activity_fits(old(forest).nodes@, self.spec_activity(), self.spec_identity()),
            activity::call_in_flight(old(forest).nodes@, self.spec_activity().index as int),
        ensures
            final(forest).wf(),
            value == self.spec_value(),
            final(forest).nodes@ == activity::without_call(
                old(forest).nodes@,
                self.spec_activity().index as int,
            ),
    {
        forest.release_call(self.activity);
        self.value
    }
}

/// A close under way. Until it ends, no call on the handle or its descendants
/// starts.
#[derive(Debug)]
pub struct CloseGuard {
    activity: ActivityId,
    identity: u64,
}

impl CloseGuard {
    /// The activity being closed.
    pub closed spec fn spec_activity(self) -> ActivityId {
        self.activity
    }

    /// The registry that began the close.
    pub closed spec fn spec_identity(self) -> u64 {
        self.identity
    }

    /// Ends the close, in the forest that its registry counts calls in. Calls
    /// are admitted again unless the handle was retired.
    pub fn reopen(self, forest: &mut ActivityForest)
        requires
            old(forest).wf(),
            activity_fits(old(forest).nodes@, self.spec_activity(), self.spec_identity()),
        ensures
            final(forest).wf(),
            final(forest).nodes@ == activity::reopened_nodes(
                old(forest).nodes@,
                self.spec_activity().index as int,
            ),
    {
        forest.reopen(self.activity);
    }
}

/// Whether an activity can belong to a live handle of registry `identity`.
pub open spec fn activity_fits(
    nodes: Seq<HandleActivity>,
    activity: ActivityId,
    identity: u64,
) -> bool {
    &&& activity.index < nodes.len()
    &&& nodes[activity.index as int].registered
    &&& nodes[activity::root_of(nodes, activity.index as int)].owner == Some(identity)
}

impl<P> HandleRegistry<P> {
    /// The slot at `index`.
    pub closed spec fn slot(self, index: int) -> SlotState<P> {
        self.slots.slot(index)
    }

    /// Whether there is storage for the slot at `index`.
    pub closed spec fn published(self, index: int) -> bool {
        self.slots.published(index)
    }

    /// The retired slots, the one to be reused next first.
    pub closed spec fn free_list(self) -> Seq<usize> {
        self.free@
    }

    /// The first slot that was never used.
    pub closed spec fn spec_next_index(self) -> usize {
        self.next_index
    }

    /// The number of registered handles.
    pub closed spec fn spec_live(self) -> usize {
        self.live
    }

    /// The number of slots this registry may use.
    pub closed spec fn spec_slot_limit(self) -> usize {
        self.slot_limit
    }

    /// The largest generation this registry hands out.
    pub closed spec fn spec_generation_limit(self) -> usize {
        self.generation_limit
    }

    /// What tells this registry from others.
    pub closed spec fn spec_identity(self) -> u64 {
        self.identity
    }

    /// The first slot this registry ever used.
    pub closed spec fn spec_first_index(self) -> int {
        self.first_index@
    }

    /// What each activity was registered with, also those whose handles are
    /// retired.
    pub closed spec fn payloads(self) -> Map<ActivityId, Arc<P>> {
        self.payloads@
    }

    /// Whether a call is one of this registry: it was admitted here, on an
    /// activity that was registered with its payload.
    pub open spec fn admitted(self, handle: HandleRef<P>) -> bool {
        &&& handle.spec_identity() == self.spec_identity()
        &&& self.payloads().contains_key(handle.spec_activity())
        &&& self.payloads()[handle.spec_activity()] == handle.spec_value()
    }

    /// Whether what the slot at `i` holds is what its activity was registered
    /// with.
    pub open spec fn recorded(self, i: int) -> bool {
        self.slot(i).entry matches Some(entry) ==> {
            &&& self.payloads().contains_key(entry.activity)
            &&& self.payloads()[entry.activity] == entry.value
        }
    }

    /// Whether position `k` of the free list is a used slot without an
    /// occupant that links to position `k + 1`.
    closed spec fn free_slot_ok(self, k: int) -> bool {
        &&& self.first_index@ <= self.free@[k] < self.next_index
        &&& self.slots.published(self.free@[k] as int)
        &&& self.slot(self.free@[k] as int).entry is None
        &&& self.slot(self.free@[k] as int).next_free == (if k + 1 < self.free@.len() {
            Some(self.free@[k + 1])
        } else {
            None
        })
    }

    /// Well-formedness: the free list holds exactly the used slots without an
    /// occupant, each once, every live or free slot is counted, and every live
    /// one holds what its activity was registered with.
    pub closed spec fn wf(self) -> bool {
        &&& self.slots.wf()
        &&& self.slot_limit <= slot_capacity()
        &&& 1 <= self.generation_limit <= generation_mask()
        &&& 0 <= self.first_index@ <= self.next_index <= slot_capacity()
        &&& self.live + self.free@.len() == self.next_index - self.first_index@
        &&& self.free_head == (if self.free@.len() > 0 {
            Some(self.free@[0])
        } else {
            None
        })
        &&& forall|k: int| 0 <= k < self.free@.len() ==> #[trigger] self.free_slot_ok(k)
        &&& forall|k: int, m: int|
            0 <= k < m < self.free@.len() ==> self.free@[k] != self.free@[m]
        &&& forall|i: int|
            #![trigger self.slot(i)]
            {
                &&& self.slot(i).generation <= generation_mask()
                &&& self.recorded(i)
                &&& self.slot(i).entry is Some ==> {
                    &&& self.first_index@ <= i < self.next_index
                    &&& self.slots.published(i)
                    &&& 1 <= self.slot(i).generation
                }
            }
    }

    /// Every live handle has an activity of its own in the forest, registered
    /// and in a tree that belongs to this registry; so are those whose handles
    /// are retired.
    pub open spec fn fits(self, nodes: Seq<HandleActivity>) -> bool {
        &&& forall|i: int|
            (#[trigger] self.slot(i)).entry is Some ==> activity_fits(
                nodes,
                self.slot(i).entry->Some_0.activity,
                self.spec_identity(),
            )
        &&& forall|i: int, j: int|
            i != j && (#[trigger] self.slot(i)).entry is Some && (#[trigger] self.slot(j)).entry
                is Some ==> self.slot(i).entry->Some_0.activity
                != self.slot(j).entry->Some_0.activity
        &&& forall|a: ActivityId| #[trigger]
            self.payloads().contains_key(a) ==> activity_fits(nodes, a, self.spec_identity())
    }

    /// The slot the next registration takes.
    pub open spec fn candidate(self) -> usize {
        if self.free_list().len() > 0 {
            self.free_list()[0]
        } else {
            self.spec_next_index()
        }
    }

    /// The generation that follows `previous` in one slot.
    pub open spec fn spec_next_generation(self, previous: usize) -> usize {
        if previous >= self.spec_generation_limit() {
            1
        } else {
            (previous + 1) as usize
        }
    }

    /// Whether both registries hold the same handles and hand out the same
    /// identities next.
    pub open spec fn same_state(self, other: Self) -> bool {
        &&& self.free_list() == other.free_list()
        &&& self.spec_next_index() == other.spec_next_index()
        &&& self.spec_live() == other.spec_live()
        &&& self.same_limits(other)
        &&& self.payloads() == other.payloads()
        &&& forall|i: int| #[trigger] self.slot(i) == other.slot(i)
    }

    /// The live handles of a kind in the first `n` slots.
    pub open spec fn live_before(self, kind: HandleType, n: int) -> int
        decreases n,
    {
        if n <= 0 {
            0
        } else {
            self.live_before(kind, n - 1) + self.holds(kind, n - 1)
        }
    }

    /// One if the slot at `i` holds a handle of a kind, and nothing if not.
    pub open spec fn holds(self, kind: HandleType, i: int) -> int {
        if self.slot(i).entry is Some && self.slot(i).entry->Some_0.kind == kind {
            1
        } else {
            0
        }
    }

    /// The number of live handles of a kind.
    pub open spec fn kind_count(self, kind: HandleType) -> int {
        self.live_before(kind, self.spec_next_index() as int)
    }

    /// No more handles than slots.
    proof fn lemma_live_before_bounded(self, kind: HandleType, n: int)
        requires
            0 <= n,
        ensures
            0 <= self.live_before(kind, n) <= n,
        decreases n,
    {
        if n > 0 {
            self.lemma_live_before_bounded(kind, n - 1);
        }
    }

    /// There are no more handles of a kind than slots.
    pub proof fn lemma_kind_count_bounded(self, kind: HandleType)
        requires
            self.wf(),
        ensures
            0 <= self.kind_count(kind) <= slot_capacity(),
    {
        self.lemma_live_before_bounded(kind, self.spec_next_index() as int);
    }

    /// A change of one slot changes the count by what that slot holds.
    proof fn lemma_live_before_changed(self, before: Self, kind: HandleType, index: int, n: int)
        requires
            0 <= index,
            forall|i: int| i != index ==> #[trigger] self.slot(i) == before.slot(i),
        ensures
            self.live_before(kind, n) == before.live_before(kind, n) + (if index < n {
                self.holds(kind, index) - before.holds(kind, index)
            } else {
                0
            }),
        decreases n,
    {
        if n > 0 {
            self.lemma_live_before_changed(before, kind, index, n - 1);
        }
    }

    /// The same handles count the same.
    pub proof fn lemma_kind_count_of_same_state(self, before: Self, kind: HandleType)
        requires
            self.same_state(before),
        ensures
            self.kind_count(kind) == before.kind_count(kind),
    {
        self.lemma_live_before_changed(before, kind, 0, self.spec_next_index() as int);
        assert(self.slot(0) == before.slot(0));
    }

    /// Whether both registries have the same limits and identity.
    pub open spec fn same_limits(self, other: Self) -> bool {
        &&& self.spec_slot_limit() == other.spec_slot_limit()
        &&& self.spec_generation_limit() == other.spec_generation_limit()
        &&& self.spec_identity() == other.spec_identity()
        &&& self.spec_first_index() == other.spec_first_index()
    }

    /// A registry without handles, told from others by `identity`, which no two
    /// of them share.
    pub fn new(identity: u64) -> (registry: Self)
        ensures
            registry.wf(),
            registry.spec_live() == 0,
            registry.spec_next_index() == 0,
            registry.free_list().len() == 0,
            registry.spec_slot_limit() == slot_capacity(),
            registry.spec_generation_limit() == generation_mask(),
            registry.spec_identity() == identity,
            registry.spec_first_index() == 0,
            registry.payloads() == Map::<ActivityId, Arc<P>>::empty(),
            forall|i: int| #[trigger] registry.slot(i) == slots::untouched_slot::<P>(),
    {
        Self::with_limits(identity, slot_capacity(), generation_mask())
    }

    /// A registry without handles that uses fewer slots or generations.
    pub fn with_limits(identity: u64, slot_limit: usize, generation_limit: usize) -> (registry:
        Self)
        requires
            slot_limit <= slot_capacity(),
            1 <= generation_limit <= generation_mask(),
        ensures
            registry.wf(),
            registry.spec_live() == 0,
            registry.spec_next_index() == 0,
            registry.free_list().len() == 0,
            registry.spec_slot_limit() == slot_limit,
            registry.spec_generation_limit() == generation_limit,
            registry.spec_identity() == identity,
            registry.spec_first_index() == 0,
            registry.payloads() == Map::<ActivityId, Arc<P>>::empty(),
            forall|i: int| #[trigger] registry.slot(i) == slots::untouched_slot::<P>(),
    {
        HandleRegistry {
            next_index: 0,
            free_head: None,
            live: 0,
            slot_limit,
            generation_limit,
            identity,
            slots: SlotTable::new(),
            first_index: Ghost(0),
            free: Ghost(Seq::empty()),
            payloads: Ghost(Map::empty()),
        }
    }

    /// The number of registered handles.
    pub fn live(&self) -> (live: usize)
        ensures
            live == self.spec_live(),
    {
        self.live
    }

    /// The first slot that was never used.
    pub fn next_index(&self) -> (index: usize)
        ensures
            index == self.spec_next_index(),
    {
        self.next_index
    }

    /// The generation that follows `previous` in one slot.
    fn next_generation(&self, previous: usize) -> (next: usize)
        requires
            self.wf(),
        ensures
            next == self.spec_next_generation(previous),
            1 <= next <= generation_mask(),
    {
        if previous >= self.generation_limit {
            1
        } else {
            previous + 1
        }
    }

    /// Why a registration is refused, before any storage is asked for.
    pub open spec fn registration_error(
        self,
        nodes: Seq<HandleActivity>,
        kind: HandleType,
        activity: ActivityId,
    ) -> Option<RegistryError> {
        let i = activity.index as int;
        if kind == HandleType::Invalid {
            Some(RegistryError::WrongType)
        } else if nodes[i].registered || (nodes[activity::root_of(nodes, i)].owner matches Some(owner)
            && owner != self.spec_identity()) {
            Some(RegistryError::InvalidActivity)
        } else if activity::closed_by(nodes, i) is Some {
            activity::closed_by(nodes, i)
        } else if self.candidate() >= self.spec_slot_limit() {
            Some(RegistryError::IdSpaceFull)
        } else {
            None
        }
    }

    /// Checks a registration, before any storage is asked for.
    fn check_registration(
        &self,
        forest: &ActivityForest,
        kind: HandleType,
        activity: ActivityId,
    ) -> (result: Result<usize, RegistryError>)
        requires
            self.wf(),
            forest.wf(),
            forest.has(activity),
        ensures
            match self.registration_error(forest.nodes@, kind, activity) {
                Some(error) => result == Err::<usize, RegistryError>(error),
                None => result == Ok::<usize, RegistryError>(self.candidate()),
            },
    {
        if kind == HandleType::Invalid {
            return Err(RegistryError::WrongType);
        }
        let root = forest.root(activity);
        let foreign: bool = match forest.at(root).owner {
            Some(owner) => owner != self.identity,
            None => false,
        };
        if forest.at(activity).registered || foreign {
            return Err(RegistryError::InvalidActivity);
        }
        if let Err(error) = forest.check_open(activity) {
            return Err(error);
        }
        let index: usize = match self.free_head {
            Some(head) => head,
            None => self.next_index,
        };
        if index >= self.slot_limit {
            return Err(RegistryError::IdSpaceFull);
        }
        Ok(index)
    }

    /// Registers a payload once it is known whether there is storage for its
    /// slot. An activity may be registered once; its tree then belongs to this
    /// registry.
    pub fn register_reserved(
        &mut self,
        forest: &mut ActivityForest,
        kind: HandleType,
        value: Arc<P>,
        payload_type: u64,
        activity: ActivityId,
        reserved: bool,
    ) -> (result: Result<HandleId, RegistryError>)
        requires
            old(self).wf(),
            old(forest).wf(),
            old(forest).has(activity),
            old(self).fits(old(forest).nodes@),
            reserved && old(self).registration_error(old(forest).nodes@, kind, activity) is None
                ==> old(self).published(old(self).candidate() as int),
        ensures
            final(self).wf(),
            final(forest).wf(),
            final(self).fits(final(forest).nodes@),
            match old(self).registration_error(old(forest).nodes@, kind, activity) {
                Some(error) => {
                    &&& result == Err::<HandleId, RegistryError>(error)
                    &&& final(self).same_state(*old(self))
                    &&& final(forest).nodes@ == old(forest).nodes@
                },
                None => if reserved {
                    &&& result is Ok
                    &&& final(self).registered_from(
                        *old(self),
                        result->Ok_0,
                        kind,
                        value,
                        payload_type,
                        activity,
                    )
                    &&& final(forest).nodes@ == activity::claimed_nodes(
                        old(forest).nodes@,
                        activity.index as int,
                        activity::root_of(old(forest).nodes@, activity.index as int),
                        old(self).spec_identity(),
                    )
                } else {
                    &&& result == Err::<HandleId, RegistryError>(RegistryError::Capacity)
                    &&& final(self).same_state(*old(self))
                    &&& final(forest).nodes@ == old(forest).nodes@
                },
            },
    {
        let index: usize = match self.check_registration(forest, kind, activity) {
            Ok(index) => index,
            Err(error) => {
                return Err(error);
            },
        };
        if !reserved {
            return Err(RegistryError::Capacity);
        }
        let ghost before = *self;
        let ghost nodes = forest.nodes@;
        let reused: bool = self.free_head.is_some();
        proof {
            assert(self.slot(index as int).generation <= generation_mask());
            if reused {
                assert(self.free_slot_ok(0));
            }
        }
        let (previous, next_free) = match self.slots.get(index) {
            Some(slot) => (slot.generation, slot.next_free),
            None => (0, None),
        };
        let generation: usize = self.next_generation(previous);
        let id: HandleId = match HandleId::from_parts(index, generation) {
            Ok(id) => id,
            Err(error) => {
                return Err(error);
            },
        };
        let root = forest.root(activity);
        forest.claim(activity, root, self.identity);
        if reused {
            self.free_head = next_free;
            self.free = Ghost(self.free@.drop_first());
        } else {
            self.next_index = self.next_index + 1;
        }
        let entry = RegistryEntry { kind, payload_type, value, activity };
        let _ = self.slots.replace(
            index,
            SlotState { generation, entry: Some(entry), next_free: None },
        );
        self.live = self.live + 1;
        self.payloads = Ghost(self.payloads@.insert(activity, entry.value));
        proof {
            assert(self.slot(index as int) == SlotState {
                generation,
                entry: Some(entry),
                next_free: None,
            });
            assert forall|i: int| i != index implies #[trigger] self.slot(i) == before.slot(i) by {}
            self.lemma_wf_after_registration(before, index);
            lemma_claimed_keeps_roots(
                nodes,
                activity.index as int,
                self.identity,
            );
            assert(activity::claimed_nodes(
                nodes,
                activity.index as int,
                activity::root_of(nodes, activity.index as int),
                self.identity,
            ) == forest.nodes@);
            assert forall|i: int| (#[trigger] self.slot(i)).entry is Some implies activity_fits(
                forest.nodes@,
                self.slot(i).entry->Some_0.activity,
                self.spec_identity(),
            ) by {
                if i != index {
                    assert(self.slot(i) == before.slot(i));
                }
            }
            assert forall|i: int, j: int|
                i != j && (#[trigger] self.slot(i)).entry is Some && (#[trigger] self.slot(
                    j,
                )).entry is Some implies self.slot(i).entry->Some_0.activity != self.slot(
                j,
            ).entry->Some_0.activity by {
                if i != index {
                    assert(self.slot(i) == before.slot(i));
                }
                if j != index {
                    assert(self.slot(j) == before.slot(j));
                }
            }
            assert forall|a: ActivityId| #[trigger] self.payloads().contains_key(a) implies activity_fits(
                forest.nodes@,
                a,
                self.spec_identity(),
            ) by {
                if a != activity {
                    assert(before.payloads().contains_key(a));
                }
            }
        }
        Ok(id)
    }

    /// Taking the candidate slot keeps the registry well formed.
    proof fn lemma_wf_after_registration(self, before: Self, index: usize)
        requires
            before.wf(),
            before.slots.published(index as int),
            index == before.candidate(),
            index < before.slot_limit,
            self.slots.wf(),
            self.slot_limit == before.slot_limit,
            self.generation_limit == before.generation_limit,
            self.first_index@ == before.first_index@,
            self.live == before.live + 1,
            before.free@.len() > 0 ==> self.next_index == before.next_index && self.free@
                == before.free@.drop_first() && self.free_head == before.slot(index as int).next_free,
            before.free@.len() == 0 ==> self.next_index == before.next_index + 1 && self.free@
                == before.free@ && self.free_head == before.free_head,
            forall|i: int| #[trigger] self.slots.published(i) == before.slots.published(i),
            forall|i: int| i != index ==> #[trigger] self.slot(i) == before.slot(i),
            self.slot(index as int).entry is Some,
            1 <= self.slot(index as int).generation <= generation_mask(),
            self.recorded(index as int),
            forall|a: ActivityId| #[trigger]
                before.payloads().contains_key(a) ==> self.payloads().contains_key(a)
                    && self.payloads()[a] == before.payloads()[a],
        ensures
            self.wf(),
    {
        if before.free@.len() > 0 {
            assert(before.free_slot_ok(0));
        }
        assert forall|k: int| 0 <= k < self.free@.len() implies #[trigger] self.free_slot_ok(k) by {
            if before.free@.len() > 0 {
                assert(self.free@[k] == before.free@[k + 1]);
                assert(before.free@[0] != before.free@[k + 1]);
                assert(before.free_slot_ok(k + 1));
            } else {
                assert(before.free_slot_ok(k));
            }
        }
        assert forall|i: int|
            #![trigger self.slot(i)]
            {
                &&& self.slot(i).generation <= generation_mask()
                &&& self.recorded(i)
                &&& self.slot(i).entry is Some ==> {
                    &&& self.first_index@ <= i < self.next_index
                    &&& self.slots.published(i)
                    &&& 1 <= self.slot(i).generation
                }
            } by {
            if i != index {
                assert(self.slot(i) == before.slot(i));
            }
        }
    }

    /// How a registration changes the registry.
    pub open spec fn registered_from(
        self,
        before: Self,
        id: HandleId,
        kind: HandleType,
        value: Arc<P>,
        payload_type: u64,
        activity: ActivityId,
    ) -> bool {
        let index = before.candidate();
        &&& id.spec_index() == index
        &&& id.spec_generation() == before.spec_next_generation(
            before.slot(index as int).generation,
        )
        &&& self.slot(index as int) == (SlotState {
            generation: id.spec_generation(),
            entry: Some(RegistryEntry { kind, payload_type, value, activity }),
            next_free: None,
        })
        &&& forall|i: int| i != index ==> #[trigger] self.slot(i) == before.slot(i)
        &&& self.spec_live() == before.spec_live() + 1
        &&& self.same_limits(before)
        &&& self.payloads() == before.payloads().insert(activity, value)
        &&& if before.free_list().len() > 0 {
            &&& self.free_list() == before.free_list().drop_first()
            &&& self.spec_next_index() == before.spec_next_index()
        } else {
            &&& self.free_list() == before.free_list()
            &&& self.spec_next_index() == before.spec_next_index() + 1
        }
    }

    /// A registration adds one handle of its kind.
    pub proof fn lemma_kind_count_of_registration(
        self,
        before: Self,
        id: HandleId,
        kind: HandleType,
        value: Arc<P>,
        payload_type: u64,
        activity: ActivityId,
        counted: HandleType,
    )
        requires
            before.wf(),
            self.registered_from(before, id, kind, value, payload_type, activity),
        ensures
            self.kind_count(counted) == before.kind_count(counted) + (if counted == kind {
                1int
            } else {
                0
            }),
    {
        let index = before.candidate() as int;
        let next = before.spec_next_index() as int;
        if before.free_list().len() > 0 {
            assert(before.free_slot_ok(0));
        } else {
            assert(before.slot(next).entry is None);
        }
        self.lemma_live_before_changed(
            before,
            counted,
            index,
            self.spec_next_index() as int,
        );
    }

    /// Registers a payload under a new identity. Fails for want of storage
    /// only where the slot was never stored before; one that was retired is (see
    /// [`a_retired_slot_is_stored`]).
    pub fn register(
        &mut self,
        forest: &mut ActivityForest,
        kind: HandleType,
        value: Arc<P>,
        payload_type: u64,
        activity: ActivityId,
    ) -> (result: Result<HandleId, RegistryError>)
        requires
            old(self).wf(),
            old(forest).wf(),
            old(forest).has(activity),
            old(self).fits(old(forest).nodes@),
        ensures
            final(self).wf(),
            final(forest).wf(),
            final(self).fits(final(forest).nodes@),
            match old(self).registration_error(old(forest).nodes@, kind, activity) {
                Some(error) => {
                    &&& result == Err::<HandleId, RegistryError>(error)
                    &&& final(self).same_state(*old(self))
                    &&& final(forest).nodes@ == old(forest).nodes@
                },
                None => match result {
                    Ok(id) => {
                        &&& final(self).registered_from(
                            *old(self),
                            id,
                            kind,
                            value,
                            payload_type,
                            activity,
                        )
                        &&& final(forest).nodes@ == activity::claimed_nodes(
                            old(forest).nodes@,
                            activity.index as int,
                            activity::root_of(old(forest).nodes@, activity.index as int),
                            old(self).spec_identity(),
                        )
                    },
                    Err(error) => {
                        &&& error == RegistryError::Capacity
                        &&& !old(self).published(old(self).candidate() as int)
                        &&& final(self).same_state(*old(self))
                        &&& final(forest).nodes@ == old(forest).nodes@
                    },
                },
            },
    {
        let ghost before = *self;
        let index: usize = match self.check_registration(forest, kind, activity) {
            Ok(index) => index,
            Err(error) => {
                return Err(error);
            },
        };
        let reserved: bool = self.slots.get_or_create(index).is_ok();
        proof {
            assert forall|i: int| #[trigger] self.slot(i) == before.slot(i) by {}
            self.lemma_wf_of_same_state(before);
        }
        self.register_reserved(forest, kind, value, payload_type, activity, reserved)
    }

    /// Publishing pages keeps the registry well formed.
    proof fn lemma_wf_of_same_state(self, before: Self)
        requires
            before.wf(),
            self.same_state(before),
            self.slots.wf(),
            self.free_head == before.free_head,
            forall|i: int| before.slots.published(i) ==> #[trigger] self.slots.published(i),
        ensures
            self.wf(),
    {
        assert forall|k: int| 0 <= k < self.free@.len() implies #[trigger] self.free_slot_ok(k) by {
            assert(before.free_slot_ok(k));
        }
        assert forall|i: int|
            #![trigger self.slot(i)]
            {
                &&& self.slot(i).generation <= generation_mask()
                &&& self.recorded(i)
                &&& self.slot(i).entry is Some ==> {
                    &&& self.first_index@ <= i < self.next_index
                    &&& self.slots.published(i)
                    &&& 1 <= self.slot(i).generation
                }
            } by {
            assert(self.slot(i) == before.slot(i));
        }
    }

    /// Why a call on `id` is refused.
    pub open spec fn acquire_error(
        self,
        nodes: Seq<HandleActivity>,
        id: HandleId,
        expected: HandleType,
        payload_type: u64,
    ) -> Option<RegistryError> {
        let slot = self.slot(id.spec_index() as int);
        if slots::entry_error(slot, id, expected) is Some {
            slots::entry_error(slot, id, expected)
        } else {
            let entry = slot.entry->Some_0;
            let i = entry.activity.index as int;
            if activity::closed_by(nodes, i) is Some {
                activity::closed_by(nodes, i)
            } else if activity::refused_by(nodes, i, i) is Some {
                activity::refused_by(nodes, i, i)
            } else if entry.payload_type != payload_type {
                Some(RegistryError::WrongType)
            } else {
                None
            }
        }
    }

    /// The entry `id` names, if it is of kind `expected`.
    fn checked_entry(&self, id: HandleId, expected: HandleType) -> (result: Result<
        &RegistryEntry<P>,
        RegistryError,
    >)
        requires
            self.wf(),
        ensures
            match slots::entry_error(self.slot(id.spec_index() as int), id, expected) {
                Some(error) => result is Err && result->Err_0 == error,
                None => result is Ok && Some(*result->Ok_0) == self.slot(
                    id.spec_index() as int,
                ).entry,
            },
    {
        match self.slots.get(id.index()) {
            Some(slot) => slot.checked_entry(id, expected),
            None => Err(RegistryError::NotFound),
        }
    }

    /// Starts a call on `id`. A refused call leaves every count as it was.
    pub fn acquire(
        &self,
        forest: &mut ActivityForest,
        id: HandleId,
        expected: HandleType,
        payload_type: u64,
    ) -> (result: Result<HandleRef<P>, RegistryError>)
        requires
            self.wf(),
            old(forest).wf(),
            self.fits(old(forest).nodes@),
        ensures
            final(forest).wf(),
            self.fits(final(forest).nodes@),
            match self.acquire_error(old(forest).nodes@, id, expected, payload_type) {
                Some(error) => {
                    &&& result is Err
                    &&& result->Err_0 == error
                    &&& final(forest).nodes@ == old(forest).nodes@
                },
                None => {
                    let entry = self.slot(id.spec_index() as int).entry->Some_0;
                    &&& result is Ok
                    &&& result->Ok_0.spec_id() == id
                    &&& result->Ok_0.spec_kind() == expected
                    &&& result->Ok_0.spec_value() == entry.value
                    &&& result->Ok_0.spec_activity() == entry.activity
                    &&& result->Ok_0.spec_identity() == self.spec_identity()
                    &&& self.admitted(result->Ok_0)
                    &&& activity_fits(
                        final(forest).nodes@,
                        entry.activity,
                        self.spec_identity(),
                    )
                    &&& final(forest).nodes@ == activity::with_call(
                        old(forest).nodes@,
                        entry.activity.index as int,
                    )
                    &&& activity::call_in_flight(
                        final(forest).nodes@,
                        entry.activity.index as int,
                    )
                },
            },
    {
        let entry = match self.checked_entry(id, expected) {
            Ok(entry) => entry,
            Err(error) => {
                return Err(error);
            },
        };
        let activity = entry.activity;
        let ghost nodes = forest.nodes@;
        let ghost i = activity.index as int;
        proof {
            assert(self.slot(id.spec_index() as int).entry is Some);
        }
        if let Err(error) = forest.check_open(activity) {
            return Err(error);
        }
        if let Err(error) = forest.reserve_call(activity) {
            return Err(error);
        }
        proof {
            activity::release_call_undoes_reserve_call(nodes, i);
            self.lemma_fits_same_identity(nodes, forest.nodes@);
        }
        if entry.payload_type != payload_type {
            forest.release_call(activity);
            return Err(RegistryError::WrongType);
        }
        assert(self.recorded(id.spec_index() as int));
        Ok(
            HandleRef {
                id,
                kind: expected,
                value: entry.value.clone(),
                activity,
                identity: self.identity,
            },
        )
    }

    /// Changing counts and admission only keeps the handles' activities
    /// theirs.
    pub proof fn lemma_fits_same_identity(
        self,
        nodes: Seq<HandleActivity>,
        after: Seq<HandleActivity>,
    )
        requires
            self.fits(nodes),
            after.len() == nodes.len(),
            forall|k: int|
                0 <= k < nodes.len() ==> {
                    &&& (#[trigger] after[k]).parent == nodes[k].parent
                    &&& after[k].owner == nodes[k].owner
                    &&& after[k].registered == nodes[k].registered
                },
        ensures
            self.fits(after),
    {
        assert forall|i: int| (#[trigger] self.slot(i)).entry is Some implies activity_fits(
            after,
            self.slot(i).entry->Some_0.activity,
            self.spec_identity(),
        ) by {
            let k = self.slot(i).entry->Some_0.activity.index as int;
            lemma_claimed_root(nodes, after, k);
            assert(after[k].registered == nodes[k].registered);
        }
        assert forall|a: ActivityId| #[trigger] self.payloads().contains_key(a) implies activity_fits(
            after,
            a,
            self.spec_identity(),
        ) by {
            lemma_claimed_root(nodes, after, a.index as int);
            assert(after[a.index as int].registered == nodes[a.index as int].registered);
        }
    }

    /// The kind of the handle `id` names, if it names one.
    pub fn kind(&self, id: HandleId) -> (result: Result<Option<HandleType>, RegistryError>)
        requires
            self.wf(),
        ensures
            result == Ok::<Option<HandleType>, RegistryError>(self.spec_kind_of(id)),
    {
        match self.slots.get(id.index()) {
            None => Ok(None),
            Some(slot) => match &slot.entry {
                Some(entry) => if slot.generation == id.generation() {
                    Ok(Some(entry.kind))
                } else {
                    Ok(None)
                },
                None => Ok(None),
            },
        }
    }

    /// The kind of the handle `id` names, if it names one.
    pub open spec fn spec_kind_of(self, id: HandleId) -> Option<HandleType> {
        let slot = self.slot(id.spec_index() as int);
        if slot.generation == id.spec_generation() && slot.entry is Some {
            Some(slot.entry->Some_0.kind)
        } else {
            None
        }
    }

    /// Why the diagnostics of `id` cannot be read.
    pub open spec fn diagnostics_error(
        self,
        nodes: Seq<HandleActivity>,
        id: HandleId,
        expected: HandleType,
        payload_type: u64,
    ) -> Option<RegistryError> {
        let slot = self.slot(id.spec_index() as int);
        if slots::entry_error(slot, id, expected) is Some {
            slots::entry_error(slot, id, expected)
        } else if retired_above(nodes, slot.entry->Some_0.activity.index as int) {
            Some(RegistryError::NotFound)
        } else if slot.entry->Some_0.payload_type != payload_type {
            Some(RegistryError::WrongType)
        } else {
            None
        }
    }

    /// The payload of `id` for reading its diagnostics. Closing and call limits
    /// do not matter here, but a retired handle or ancestor does.
    pub fn diagnostics(
        &self,
        forest: &ActivityForest,
        id: HandleId,
        expected: HandleType,
        payload_type: u64,
    ) -> (result: Result<Arc<P>, RegistryError>)
        requires
            self.wf(),
            forest.wf(),
            self.fits(forest.nodes@),
        ensures
            match self.diagnostics_error(forest.nodes@, id, expected, payload_type) {
                Some(error) => result == Err::<Arc<P>, RegistryError>(error),
                None => result == Ok::<Arc<P>, RegistryError>(
                    self.slot(id.spec_index() as int).entry->Some_0.value,
                ),
            },
            match slots::entry_error(self.slot(id.spec_index() as int), id, expected) {
                Some(error) => result is Err && result->Err_0 == error,
                None => {
                    let entry = self.slot(id.spec_index() as int).entry->Some_0;
                    if retired_above(forest.nodes@, entry.activity.index as int) {
                        result is Err && result->Err_0 == RegistryError::NotFound
                    } else if entry.payload_type != payload_type {
                        result is Err && result->Err_0 == RegistryError::WrongType
                    } else {
                        result is Ok && result->Ok_0 == entry.value
                    }
                },
            },
    {
        let entry = match self.checked_entry(id, expected) {
            Ok(entry) => entry,
            Err(error) => {
                return Err(error);
            },
        };
        proof {
            assert(self.slot(id.spec_index() as int).entry is Some);
        }
        if forest.any_retired(entry.activity) {
            return Err(RegistryError::NotFound);
        }
        if entry.payload_type != payload_type {
            return Err(RegistryError::WrongType);
        }
        Ok(entry.value.clone())
    }

    /// Why a close by `handle` is refused.
    pub open spec fn close_error(
        self,
        nodes: Seq<HandleActivity>,
        handle: HandleRef<P>,
    ) -> Option<RegistryError> {
        let id = handle.spec_id();
        let slot = self.slot(id.spec_index() as int);
        if slots::entry_error(slot, id, handle.spec_kind()) is Some {
            slots::entry_error(slot, id, handle.spec_kind())
        } else {
            let entry = slot.entry->Some_0;
            let i = entry.activity.index as int;
            if handle.spec_identity() != self.spec_identity() || entry.activity
                != handle.spec_activity() {
                Some(RegistryError::OwnershipMismatch)
            } else if activity::closed_by(nodes, i) is Some {
                activity::closed_by(nodes, i)
            } else if nodes[i].state != activity::spec_pack(activity::Admission::Open, 1) {
                Some(RegistryError::Busy)
            } else {
                None
            }
        }
    }

    /// The activities after a close on behalf of `handle` was asked for: a refusal
    /// leaves them as they were.
    pub open spec fn closing_from(
        self,
        nodes: Seq<HandleActivity>,
        handle: HandleRef<P>,
    ) -> Seq<HandleActivity> {
        if self.close_error(nodes, handle) is Some {
            nodes
        } else {
            activity::closing_nodes(nodes, handle.spec_activity().index as int)
        }
    }

    /// Starts a close on behalf of the call `handle`, which must be one of this
    /// registry and the only one that its handle counts.
    pub fn begin_close(&self, forest: &mut ActivityForest, handle: &HandleRef<P>) -> (result: Result<
        CloseGuard,
        RegistryError,
    >)
        requires
            self.wf(),
            old(forest).wf(),
            self.fits(old(forest).nodes@),
        ensures
            final(forest).wf(),
            self.fits(final(forest).nodes@),
            final(forest).nodes@ == self.closing_from(old(forest).nodes@, *handle),
            match self.close_error(old(forest).nodes@, *handle) {
                Some(error) => {
                    &&& result is Err
                    &&& result->Err_0 == error
                },
                None => {
                    &&& result is Ok
                    &&& self.admitted(*handle) ==> handle.spec_value() == self.slot(
                        handle.spec_id().spec_index() as int,
                    ).entry->Some_0.value
                    &&& result->Ok_0.spec_activity() == handle.spec_activity()
                    &&& result->Ok_0.spec_identity() == self.spec_identity()
                    &&& activity_fits(
                        final(forest).nodes@,
                        handle.spec_activity(),
                        self.spec_identity(),
                    )
                },
            },
    {
        let entry = match self.checked_entry(handle.id, handle.kind) {
            Ok(entry) => entry,
            Err(error) => {
                return Err(error);
            },
        };
        let ghost nodes = forest.nodes@;
        proof {
            assert(self.slot(handle.id.spec_index() as int).entry is Some);
        }
        if handle.identity != self.identity || entry.activity != handle.activity {
            return Err(RegistryError::OwnershipMismatch);
        }
        let activity = entry.activity;
        if let Err(error) = forest.check_open(activity) {
            return Err(error);
        }
        if let Err(error) = forest.start_close(activity) {
            return Err(error);
        }
        proof {
            self.lemma_fits_same_identity(nodes, forest.nodes@);
            assert(self.recorded(handle.id.spec_index() as int));
        }
        Ok(CloseGuard { activity, identity: self.identity })
    }

    /// How retiring the slot at `index` changes the registry.
    pub open spec fn retired_from(self, before: Self, index: usize) -> bool {
        &&& self.slot(index as int) == (SlotState {
            generation: before.slot(index as int).generation,
            entry: None::<RegistryEntry<P>>,
            next_free: if before.free_list().len() > 0 {
                Some(before.free_list()[0])
            } else {
                None
            },
        })
        &&& forall|i: int| i != index ==> #[trigger] self.slot(i) == before.slot(i)
        &&& self.free_list() == seq![index] + before.free_list()
        &&& self.spec_live() == before.spec_live() - 1
        &&& self.spec_next_index() == before.spec_next_index()
        &&& self.same_limits(before)
        &&& self.payloads() == before.payloads()
    }

    /// A retirement takes one handle of its kind away.
    pub proof fn lemma_kind_count_of_retirement(self, before: Self, index: usize, counted: HandleType)
        requires
            before.wf(),
            before.slot(index as int).entry is Some,
            self.retired_from(before, index),
        ensures
            self.kind_count(counted) == before.kind_count(counted) - (if counted == before.slot(
                index as int,
            ).entry->Some_0.kind {
                1int
            } else {
                0
            }),
    {
        self.lemma_live_before_changed(
            before,
            counted,
            index as int,
            before.spec_next_index() as int,
        );
    }

    /// Frees a live slot and retires its activity.
    fn retire_slot(&mut self, forest: &mut ActivityForest, index: usize)
        requires
            old(self).wf(),
            old(forest).wf(),
            old(self).fits(old(forest).nodes@),
            old(self).slot(index as int).entry is Some,
        ensures
            final(self).wf(),
            final(forest).wf(),
            final(self).fits(final(forest).nodes@),
            final(self).retired_from(*old(self), index),
            final(forest).nodes@ == activity::retired_nodes(
                old(forest).nodes@,
                old(self).slot(index as int).entry->Some_0.activity.index as int,
            ),
    {
        let ghost before = *self;
        let ghost nodes = forest.nodes@;
        let generation: usize = match self.slots.get(index) {
            Some(slot) => slot.generation,
            None => 0,
        };
        let freed = SlotState { generation, entry: None, next_free: self.free_head };
        let removed = self.slots.replace(index, freed);
        if let Some(entry) = &removed.entry {
            forest.retire(entry.activity);
        }
        proof {
            lemma_free_list_shorter(before, index);
        }
        self.free_head = Some(index);
        self.free = Ghost(seq![index] + self.free@);
        self.live = self.live - 1;
        proof {
            assert forall|i: int| i != index implies #[trigger] self.slot(i) == before.slot(i) by {}
            assert(self.slot(index as int) == freed);
            assert forall|k: int| 0 <= k < self.free@.len() implies #[trigger] self.free_slot_ok(k) by {
                if k > 0 {
                    assert(self.free@[k] == before.free@[k - 1]);
                    assert(before.free_slot_ok(k - 1));
                }
            }
            assert forall|k: int, m: int| 0 <= k < m < self.free@.len() implies self.free@[k]
                != self.free@[m] by {
                assert(self.free@[m] == before.free@[m - 1]);
                if k > 0 {
                    assert(self.free@[k] == before.free@[k - 1]);
                }
                assert(before.free_slot_ok(m - 1));
            }
            assert forall|i: int|
                #![trigger self.slot(i)]
                {
                    &&& self.slot(i).generation <= generation_mask()
                    &&& self.recorded(i)
                    &&& self.slot(i).entry is Some ==> {
                        &&& self.first_index@ <= i < self.next_index
                        &&& self.slots.published(i)
                        &&& 1 <= self.slot(i).generation
                    }
                } by {
                assert(before.slot(i).generation <= generation_mask());
            }
            self.lemma_fits_after_retirement(before, index, nodes, forest.nodes@);
        }
    }

    /// Retiring one handle keeps the other handles' activities theirs.
    proof fn lemma_fits_after_retirement(
        self,
        before: Self,
        index: usize,
        nodes: Seq<HandleActivity>,
        after: Seq<HandleActivity>,
    )
        requires
            before.fits(nodes),
            self.identity == before.identity,
            self.payloads() == before.payloads(),
            before.slot(index as int).entry is Some,
            self.slot(index as int).entry is None,
            forall|i: int| i != index ==> #[trigger] self.slot(i) == before.slot(i),
            after == activity::retired_nodes(
                nodes,
                before.slot(index as int).entry->Some_0.activity.index as int,
            ),
        ensures
            self.fits(after),
    {
        before.lemma_fits_same_identity(nodes, after);
        assert forall|i: int| (#[trigger] self.slot(i)).entry is Some implies activity_fits(
            after,
            self.slot(i).entry->Some_0.activity,
            self.spec_identity(),
        ) by {
            assert(self.slot(i) == before.slot(i));
        }
        assert forall|i: int, j: int|
            i != j && (#[trigger] self.slot(i)).entry is Some && (#[trigger] self.slot(j)).entry
                is Some implies self.slot(i).entry->Some_0.activity != self.slot(
            j,
        ).entry->Some_0.activity by {
            assert(self.slot(i) == before.slot(i));
            assert(self.slot(j) == before.slot(j));
        }
    }

    /// Retires the handle `id` names. Its payload lives on in the calls and
    /// owners that hold it.
    pub fn retire(&mut self, forest: &mut ActivityForest, id: HandleId, expected: HandleType) -> (result: Result<
        (),
        RegistryError,
    >)
        requires
            old(self).wf(),
            old(forest).wf(),
            old(self).fits(old(forest).nodes@),
        ensures
            final(self).wf(),
            final(forest).wf(),
            final(self).fits(final(forest).nodes@),
            match slots::entry_error(old(self).slot(id.spec_index() as int), id, expected) {
                Some(error) => {
                    &&& result == Err::<(), RegistryError>(error)
                    &&& final(self).same_state(*old(self))
                    &&& final(forest).nodes@ == old(forest).nodes@
                },
                None => {
                    &&& result == Ok::<(), RegistryError>(())
                    &&& final(self).retired_from(*old(self), id.spec_index())
                    &&& final(forest).nodes@ == activity::retired_nodes(
                        old(forest).nodes@,
                        old(self).slot(id.spec_index() as int).entry->Some_0.activity.index as int,
                    )
                },
            },
    {
        if let Err(error) = self.checked_entry(id, expected) {
            return Err(error);
        }
        self.retire_slot(forest, id.index());
        Ok(())
    }

    /// Why position `k` of a retirement batch is refused.
    pub open spec fn position_error(
        self,
        handles: Seq<(HandleId, HandleType)>,
        k: int,
    ) -> Option<RegistryError> {
        let id = handles[k].0;
        if exists|m: int| 0 <= m < k && (#[trigger] handles[m]).0 == id {
            Some(RegistryError::DuplicateId)
        } else if exists|m: int|
            0 <= m < k && (#[trigger] handles[m]).0.spec_index() == id.spec_index() {
            Some(RegistryError::NotFound)
        } else {
            slots::entry_error(self.slot(id.spec_index() as int), id, handles[k].1)
        }
    }

    /// The refusal of the first refused position among the first `n` of a
    /// batch.
    pub open spec fn batch_error(self, handles: Seq<(HandleId, HandleType)>, n: int) -> Option<
        RegistryError,
    >
        decreases n,
    {
        if n <= 0 {
            None
        } else if self.batch_error(handles, n - 1) is Some {
            self.batch_error(handles, n - 1)
        } else {
            self.position_error(handles, n - 1)
        }
    }

    /// How retiring the first `n` handles of a batch changes the registry.
    pub open spec fn batch_retired_from(
        self,
        before: Self,
        handles: Seq<(HandleId, HandleType)>,
        n: int,
    ) -> bool {
        &&& forall|i: int|
            #![trigger self.slot(i)]
            if names_slot(handles, n, i) {
                &&& self.slot(i).entry is None
                &&& self.slot(i).generation == before.slot(i).generation
            } else {
                self.slot(i) == before.slot(i)
            }
        &&& self.free_list() == Seq::new(
            n as nat,
            |k: int| handles[n - 1 - k].0.spec_index(),
        ) + before.free_list()
        &&& self.spec_live() == before.spec_live() - n
        &&& self.spec_next_index() == before.spec_next_index()
        &&& self.same_limits(before)
        &&& self.payloads() == before.payloads()
    }

    /// The activities after the first `n` handles of a batch were retired.
    pub open spec fn batch_nodes(
        self,
        nodes: Seq<HandleActivity>,
        handles: Seq<(HandleId, HandleType)>,
        n: int,
    ) -> Seq<HandleActivity> {
        Seq::new(
            nodes.len(),
            |a: int|
                if exists|k: int|
                    0 <= k < n && self.slot(
                        (#[trigger] handles[k]).0.spec_index() as int,
                    ).entry->Some_0.activity.index == a {
                    activity::retired_nodes(nodes, a)[a]
                } else {
                    nodes[a]
                },
        )
    }

    /// Checks a whole retirement batch before anything is removed.
    fn preflight(&self, handles: &[(HandleId, HandleType)]) -> (result: Result<(), RegistryError>)
        requires
            self.wf(),
        ensures
            match self.batch_error(handles@, handles@.len() as int) {
                Some(error) => result == Err::<(), RegistryError>(error),
                None => result == Ok::<(), RegistryError>(()),
            },
            result is Ok ==> forall|k: int|
                0 <= k < handles@.len() ==> self.position_error(handles@, k) is None,
    {
        let mut k: usize = 0;
        while k < handles.len()
            invariant
                self.wf(),
                k <= handles@.len(),
                self.batch_error(handles@, k as int) is None,
                forall|j: int| 0 <= j < k ==> self.position_error(handles@, j) is None,
            decreases handles@.len() - k,
        {
            let id = handles[k].0;
            let expected = handles[k].1;
            let (duplicate, same_slot) = earlier_matches(handles, k);
            let refusal: Option<RegistryError> = if duplicate {
                Some(RegistryError::DuplicateId)
            } else if same_slot {
                Some(RegistryError::NotFound)
            } else {
                match self.checked_entry(id, expected) {
                    Ok(_) => None,
                    Err(error) => Some(error),
                }
            };
            assert(refusal == self.position_error(handles@, k as int));
            if let Some(error) = refusal {
                proof {
                    self.lemma_batch_error_stays(handles@, k as int + 1, handles@.len() as int);
                }
                return Err(error);
            }
            k = k + 1;
        }
        Ok(())
    }

    /// A refusal found early is the refusal of the whole batch.
    proof fn lemma_batch_error_stays(
        self,
        handles: Seq<(HandleId, HandleType)>,
        n: int,
        total: int,
    )
        requires
            self.batch_error(handles, n) is Some,
            n <= total,
        ensures
            self.batch_error(handles, total) == self.batch_error(handles, n),
        decreases total - n,
    {
        if n < total {
            self.lemma_batch_error_stays(handles, n, total - 1);
        }
    }

    /// Retires every handle of a batch, or none when one of them is refused.
    pub fn retire_batch(
        &mut self,
        forest: &mut ActivityForest,
        handles: &[(HandleId, HandleType)],
    ) -> (result: Result<(), RegistryError>)
        requires
            old(self).wf(),
            old(forest).wf(),
            old(self).fits(old(forest).nodes@),
        ensures
            final(self).wf(),
            final(forest).wf(),
            final(self).fits(final(forest).nodes@),
            match old(self).batch_error(handles@, handles@.len() as int) {
                Some(error) => {
                    &&& result == Err::<(), RegistryError>(error)
                    &&& final(self).same_state(*old(self))
                    &&& final(forest).nodes@ == old(forest).nodes@
                },
                None => {
                    &&& result == Ok::<(), RegistryError>(())
                    &&& final(self).batch_retired_from(
                        *old(self),
                        handles@,
                        handles@.len() as int,
                    )
                    &&& final(forest).nodes@ == old(self).batch_nodes(
                        old(forest).nodes@,
                        handles@,
                        handles@.len() as int,
                    )
                    &&& forall|kind: HandleType| #[trigger]
                        final(self).kind_count(kind) == old(self).kind_count(kind) - kinds_in(
                            handles@,
                            kind,
                            handles@.len() as int,
                        )
                },
            },
    {
        if let Err(error) = self.preflight(handles) {
            return Err(error);
        }
        let ghost before = *self;
        let ghost nodes = forest.nodes@;
        proof {
            assert(self.free_list() =~= Seq::new(
                0,
                |k: int| handles@[0 - 1 - k].0.spec_index(),
            ) + before.free_list());
            assert(forest.nodes@ =~= before.batch_nodes(nodes, handles@, 0));
        }
        let mut k: usize = 0;
        while k < handles.len()
            invariant
                k <= handles@.len(),
                self.wf(),
                forest.wf(),
                self.fits(forest.nodes@),
                before.fits(nodes),
                forall|j: int|
                    0 <= j < handles@.len() ==> before.position_error(handles@, j) is None,
                self.batch_retired_from(before, handles@, k as int),
                forest.nodes@ == before.batch_nodes(nodes, handles@, k as int),
                forall|kind: HandleType| #[trigger]
                    self.kind_count(kind) == before.kind_count(kind) - kinds_in(
                        handles@,
                        kind,
                        k as int,
                    ),
            decreases handles@.len() - k,
        {
            let index: usize = handles[k].0.index();
            let ghost middle = *self;
            let ghost middle_nodes = forest.nodes@;
            proof {
                assert(before.position_error(handles@, k as int) is None);
                assert(!names_slot(handles@, k as int, index as int));
                assert(self.slot(index as int) == before.slot(index as int));
            }
            self.retire_slot(forest, index);
            k = k + 1;
            proof {
                before.lemma_batch_step(middle, *self, nodes, middle_nodes, handles@, k - 1);
                assert forall|kind: HandleType| #[trigger]
                    self.kind_count(kind) == before.kind_count(kind) - kinds_in(
                        handles@,
                        kind,
                        k as int,
                    ) by {
                    self.lemma_kind_count_of_retirement(middle, index, kind);
                    assert(middle.kind_count(kind) == before.kind_count(kind) - kinds_in(
                        handles@,
                        kind,
                        k - 1,
                    ));
                }
            }
        }
        Ok(())
    }

    /// One more retirement of a batch.
    proof fn lemma_batch_step(
        self,
        middle: Self,
        after: Self,
        nodes: Seq<HandleActivity>,
        middle_nodes: Seq<HandleActivity>,
        handles: Seq<(HandleId, HandleType)>,
        k: int,
    )
        requires
            0 <= k < handles.len(),
            self.fits(nodes),
            self.position_error(handles, k) is None,
            forall|j: int| 0 <= j < k ==> self.position_error(handles, j) is None,
            middle.batch_retired_from(self, handles, k),
            middle_nodes == self.batch_nodes(nodes, handles, k),
            after.retired_from(middle, handles[k].0.spec_index()),
        ensures
            after.batch_retired_from(self, handles, k + 1),
            activity::retired_nodes(
                middle_nodes,
                self.slot(handles[k].0.spec_index() as int).entry->Some_0.activity.index as int,
            ) == self.batch_nodes(nodes, handles, k + 1),
    {
        let index = handles[k].0.spec_index();
        assert(!names_slot(handles, k, index as int));
        assert forall|i: int|
            #![trigger after.slot(i)]
            if names_slot(handles, k + 1, i) {
                &&& after.slot(i).entry is None
                &&& after.slot(i).generation == self.slot(i).generation
            } else {
                after.slot(i) == self.slot(i)
            } by {
            assert(names_slot(handles, k + 1, i) <==> names_slot(handles, k, i) || i == index) by {
                if i == index {
                    assert(handles[k].0.spec_index() == i);
                }
            }
            if i != index {
                assert(after.slot(i) == middle.slot(i));
            } else {
                assert(middle.slot(i) == self.slot(i));
            }
        }
        assert(after.free_list() =~= Seq::new(
            (k + 1) as nat,
            |j: int| handles[k + 1 - 1 - j].0.spec_index(),
        ) + self.free_list());
        let hit = self.slot(index as int).entry->Some_0.activity.index as int;
        let retired = activity::retired_nodes(middle_nodes, hit);
        let goal = self.batch_nodes(nodes, handles, k + 1);
        assert(self.slot(index as int).entry is Some);
        assert forall|a: int| 0 <= a < nodes.len() implies retired[a] == goal[a] by {
            let old_hit = exists|j: int|
                0 <= j < k && self.slot(
                    (#[trigger] handles[j]).0.spec_index() as int,
                ).entry->Some_0.activity.index == a;
            let new_hit = exists|j: int|
                0 <= j < k + 1 && self.slot(
                    (#[trigger] handles[j]).0.spec_index() as int,
                ).entry->Some_0.activity.index == a;
            if a == hit {
                assert(self.slot(handles[k].0.spec_index() as int).entry->Some_0.activity.index
                    == a);
                assert(new_hit);
                if old_hit {
                    let j = choose|j: int|
                        0 <= j < k && self.slot(
                            (#[trigger] handles[j]).0.spec_index() as int,
                        ).entry->Some_0.activity.index == a;
                    assert(self.position_error(handles, j) is None);
                    assert(handles[j].0.spec_index() != index);
                    assert(false);
                }
            } else {
                assert(old_hit == new_hit);
            }
        }
        assert(retired =~= goal);
    }

    /// Lowers the largest generation this registry hands out, so that slots
    /// with that generation or a later one start over.
    pub fn limit_generations(&mut self, generation_limit: usize)
        requires
            old(self).wf(),
            1 <= generation_limit <= generation_mask(),
        ensures
            final(self).wf(),
            final(self).spec_generation_limit() == generation_limit,
            final(self).free_list() == old(self).free_list(),
            final(self).spec_next_index() == old(self).spec_next_index(),
            final(self).spec_live() == old(self).spec_live(),
            final(self).spec_slot_limit() == old(self).spec_slot_limit(),
            final(self).spec_identity() == old(self).spec_identity(),
            final(self).spec_first_index() == old(self).spec_first_index(),
            final(self).payloads() == old(self).payloads(),
            forall|i: int| #[trigger] final(self).slot(i) == old(self).slot(i),
            forall|i: int| #[trigger] final(self).published(i) == old(self).published(i),
    {
        let ghost before = *self;
        self.generation_limit = generation_limit;
        proof {
            assert forall|i: int| #[trigger] self.slot(i) == before.slot(i) by {}
            assert forall|k: int| 0 <= k < self.free@.len() implies #[trigger] self.free_slot_ok(k) by {
                assert(before.free_slot_ok(k));
            }
            assert forall|i: int|
                #![trigger self.slot(i)]
                {
                    &&& self.slot(i).generation <= generation_mask()
                    &&& self.recorded(i)
                    &&& self.slot(i).entry is Some ==> {
                        &&& self.first_index@ <= i < self.next_index
                        &&& self.slots.published(i)
                        &&& 1 <= self.slot(i).generation
                    }
                } by {
                assert(before.slot(i).generation <= generation_mask());
            }
        }
    }

    /// A registry without handles that starts at slot `index`, as if earlier
    /// slots were in use elsewhere and that slot had seen `generation`
    /// occupants.
    pub fn starting_at(identity: u64, index: usize, generation: usize) -> (registry: Self)
        requires
            index < slot_capacity(),
            generation <= generation_mask(),
        ensures
            registry.wf(),
            registry.spec_live() == 0,
            registry.spec_next_index() == index,
            registry.free_list().len() == 0,
            registry.spec_slot_limit() == slot_capacity(),
            registry.spec_generation_limit() == generation_mask(),
            registry.spec_identity() == identity,
            registry.spec_first_index() == index,
            registry.payloads() == Map::<ActivityId, Arc<P>>::empty(),
            registry.published(index as int),
            forall|i: int|
                #[trigger] registry.slot(i) == (if i == index {
                    SlotState { generation, entry: None, next_free: None }
                } else {
                    slots::untouched_slot::<P>()
                }),
    {
        HandleRegistry {
            next_index: index,
            free_head: None,
            live: 0,
            slot_limit: slot_capacity(),
            generation_limit: generation_mask(),
            identity,
            slots: SlotTable::with_slot(
                index,
                SlotState { generation, entry: None, next_free: None },
            ),
            first_index: Ghost(index as int),
            free: Ghost(Seq::empty()),
            payloads: Ghost(Map::empty()),
        }
    }
}

/// A handle that was retired is found under no kind any more.
pub proof fn retired_identity_names_nothing<P>(
    before: HandleRegistry<P>,
    after: HandleRegistry<P>,
    id: HandleId,
    expected: HandleType,
)
    requires
        slots::entry_error(before.slot(id.spec_index() as int), id, expected) is None,
        after.retired_from(before, id.spec_index()),
    ensures
        after.spec_kind_of(id) is None,
        forall|kind: HandleType|
            slots::entry_error(
                #[trigger] after.slot(id.spec_index() as int),
                id,
                kind,
            ) == Some(RegistryError::NotFound),
{
}

/// A retired identity does not name the handle that takes its slot next,
/// unless the registry has one generation only.
pub proof fn retired_identity_does_not_name_its_replacement<P>(
    before: HandleRegistry<P>,
    retired: HandleRegistry<P>,
    after: HandleRegistry<P>,
    id: HandleId,
    replacement: HandleId,
    kind: HandleType,
    value: Arc<P>,
    payload_type: u64,
    activity: ActivityId,
)
    requires
        before.wf(),
        before.spec_generation_limit() > 1,
        before.spec_kind_of(id) is Some,
        retired.retired_from(before, id.spec_index()),
        after.registered_from(retired, replacement, kind, value, payload_type, activity),
    ensures
        replacement.spec_index() == id.spec_index(),
        replacement != id,
        after.spec_kind_of(id) is None,
        after.spec_kind_of(replacement) == Some(kind),
{
    assert(retired.free_list()[0] == id.spec_index());
    assert(before.slot(id.spec_index() as int).generation <= generation_mask());
}

/// Whether `after` is `before` after one operation in which the generations of
/// `slot` do not start over.
pub open spec fn follows_without_wrap<P>(
    before: HandleRegistry<P>,
    after: HandleRegistry<P>,
    slot: usize,
) -> bool {
    ||| forall|i: int| #[trigger] after.slot(i) == before.slot(i)
    ||| exists|index: usize| #[trigger] after.retired_from(before, index)
    ||| exists|handles: Seq<(HandleId, HandleType)>, n: int| #[trigger]
        after.batch_retired_from(before, handles, n)
    ||| exists|
        id: HandleId,
        kind: HandleType,
        value: Arc<P>,
        payload_type: u64,
        activity: ActivityId,
    | #[trigger]
        after.registered_from(before, id, kind, value, payload_type, activity) && (id.spec_index()
            == slot ==> before.slot(slot as int).generation < before.spec_generation_limit())
}

/// A retired identity names nothing, whatever is registered and retired
/// afterwards, its own slot reused among it, until the generations of that slot
/// start over.
pub proof fn retired_identity_names_nothing_until_its_slot_wraps<P>(
    before: HandleRegistry<P>,
    history: Seq<HandleRegistry<P>>,
    id: HandleId,
    expected: HandleType,
    k: int,
)
    requires
        slots::entry_error(before.slot(id.spec_index() as int), id, expected) is None,
        0 <= k < history.len(),
        history[0].retired_from(before, id.spec_index()),
        forall|j: int|
            0 < j < history.len() ==> follows_without_wrap(
                history[j - 1],
                #[trigger] history[j],
                id.spec_index(),
            ),
    ensures
        history[k].spec_kind_of(id) is None,
        forall|kind: HandleType|
            slots::entry_error(
                #[trigger] history[k].slot(id.spec_index() as int),
                id,
                kind,
            ) == Some(RegistryError::NotFound),
{
    lemma_retired_identity_is_past(before, history, id, expected, k);
}

/// The slot of a retired identity is past it: at a later generation, or
/// without an occupant at its own.
proof fn lemma_retired_identity_is_past<P>(
    before: HandleRegistry<P>,
    history: Seq<HandleRegistry<P>>,
    id: HandleId,
    expected: HandleType,
    k: int,
)
    requires
        slots::entry_error(before.slot(id.spec_index() as int), id, expected) is None,
        0 <= k < history.len(),
        history[0].retired_from(before, id.spec_index()),
        forall|j: int|
            0 < j < history.len() ==> follows_without_wrap(
                history[j - 1],
                #[trigger] history[j],
                id.spec_index(),
            ),
    ensures
        ({
            let slot = history[k].slot(id.spec_index() as int);
            slot.generation > id.spec_generation() || slot.generation == id.spec_generation()
                && slot.entry is None
        }),
    decreases k,
{
    if k > 0 {
        lemma_retired_identity_is_past(before, history, id, expected, k - 1);
        let index = id.spec_index();
        let (earlier, later) = (history[k - 1], history[k]);
        assert(follows_without_wrap(earlier, later, index));
        let (from, to) = (earlier.slot(index as int), later.slot(index as int));
        if exists|gone: usize| #[trigger] later.retired_from(earlier, gone) {
            let gone = choose|gone: usize| #[trigger] later.retired_from(earlier, gone);
            assert(to == from || gone == index);
        }
    }
}

/// An activity that was registered is refused ever after, by every registry and
/// for every kind, also once its handle is retired.
pub proof fn an_activity_is_registered_once<P>(
    registry: HandleRegistry<P>,
    nodes: Seq<HandleActivity>,
    activity: ActivityId,
    owner: u64,
    kind: HandleType,
)
    requires
        activity::nodes_wf(nodes),
        activity.index < nodes.len(),
        kind != HandleType::Invalid,
    ensures
        ({
            let i = activity.index as int;
            let claimed = activity::claimed_nodes(nodes, i, activity::root_of(nodes, i), owner);
            &&& registry.registration_error(claimed, kind, activity) == Some(
                RegistryError::InvalidActivity,
            )
            &&& registry.registration_error(
                activity::retired_nodes(claimed, i),
                kind,
                activity,
            ) == Some(RegistryError::InvalidActivity)
        }),
{
    lemma_claimed_keeps_roots(nodes, activity.index as int, owner);
}

/// A call that another registry admitted closes nothing here, though it has the
/// identity, the kind and the activity of a live handle.
pub proof fn a_foreign_reference_closes_nothing<P>(
    registry: HandleRegistry<P>,
    nodes: Seq<HandleActivity>,
    handle: HandleRef<P>,
)
    requires
        handle.spec_identity() != registry.spec_identity(),
    ensures
        registry.close_error(nodes, handle) is Some,
        registry.closing_from(nodes, handle) == nodes,
        ({
            let id = handle.spec_id();
            slots::entry_error(registry.slot(id.spec_index() as int), id, handle.spec_kind()) is None
        }) ==> registry.close_error(nodes, handle) == Some(RegistryError::OwnershipMismatch),
{
}

/// Whether `after` is `before` after one operation, on activities `nodes`.
pub open spec fn follows<P>(
    before: HandleRegistry<P>,
    after: HandleRegistry<P>,
    nodes: Seq<HandleActivity>,
) -> bool {
    ||| after.same_state(before)
    ||| exists|index: usize| #[trigger] after.retired_from(before, index)
    ||| exists|handles: Seq<(HandleId, HandleType)>, n: int| #[trigger]
        after.batch_retired_from(before, handles, n)
    ||| exists|
        id: HandleId,
        kind: HandleType,
        value: Arc<P>,
        payload_type: u64,
        activity: ActivityId,
    | #[trigger]
        after.registered_from(before, id, kind, value, payload_type, activity)
            && before.registration_error(nodes, kind, activity) is None
}

/// A call stays one of its registry, whatever is registered and retired
/// afterwards: no activity is registered with a second payload.
pub proof fn a_reference_stays_one_of_its_registry<P>(
    before: HandleRegistry<P>,
    after: HandleRegistry<P>,
    nodes: Seq<HandleActivity>,
    handle: HandleRef<P>,
)
    requires
        before.fits(nodes),
        before.admitted(handle),
        follows(before, after, nodes),
    ensures
        after.admitted(handle),
{
    assert(before.payloads().contains_key(handle.spec_activity()));
}

/// A call of this registry, on the activity of the live entry that it names,
/// holds the payload of that entry.
pub proof fn a_reference_holds_the_payload_of_its_entry<P>(
    registry: HandleRegistry<P>,
    handle: HandleRef<P>,
)
    requires
        registry.wf(),
        registry.admitted(handle),
        ({
            let entry = registry.slot(handle.spec_id().spec_index() as int).entry;
            entry is Some && entry->Some_0.activity == handle.spec_activity()
        }),
    ensures
        registry.slot(handle.spec_id().spec_index() as int).entry->Some_0.value
            == handle.spec_value(),
{
    assert(registry.recorded(handle.spec_id().spec_index() as int));
}

/// A close begins exactly where the call is one of the live entry it names, with
/// the same activity and the same payload, neither that handle nor an ancestor
/// is closing or retired, and the call is the only one that the handle counts.
pub proof fn a_close_begins_for_the_only_call_of_its_entry<P>(
    registry: HandleRegistry<P>,
    nodes: Seq<HandleActivity>,
    handle: HandleRef<P>,
)
    requires
        registry.wf(),
        registry.fits(nodes),
        activity::nodes_wf(nodes),
        registry.admitted(handle),
    ensures
        registry.close_error(nodes, handle) is None <==> {
            let id = handle.spec_id();
            let slot = registry.slot(id.spec_index() as int);
            let entry = slot.entry->Some_0;
            let i = entry.activity.index as int;
            &&& slots::entry_error(slot, id, handle.spec_kind()) is None
            &&& entry.activity == handle.spec_activity()
            &&& entry.value == handle.spec_value()
            &&& activity::closed_by(nodes, i) is None
            &&& nodes[i].spec_count() == 1
        },
{
    let slot = registry.slot(handle.spec_id().spec_index() as int);
    if slot.entry is Some && slot.entry->Some_0.activity == handle.spec_activity() {
        let i = handle.spec_activity().index as int;
        a_reference_holds_the_payload_of_its_entry(registry, handle);
        assert(activity::word_wf(nodes[i].state));
    }
}

/// Counting calls on a handle to be leaves the handles that are there theirs.
pub proof fn a_new_activity_takes_nothing_from_handles<P>(
    registry: HandleRegistry<P>,
    nodes: Seq<HandleActivity>,
    added: HandleActivity,
)
    requires
        registry.fits(nodes),
    ensures
        registry.fits(nodes.push(added)),
{
    let after = nodes.push(added);
    assert forall|a: ActivityId|
        #[trigger] activity_fits(nodes, a, registry.spec_identity()) implies activity_fits(
        after,
        a,
        registry.spec_identity(),
    ) by {
        lemma_root_in_more(nodes, added, a.index as int);
    }
}

/// One more activity leaves every root where it was.
proof fn lemma_root_in_more(nodes: Seq<HandleActivity>, added: HandleActivity, k: int)
    requires
        0 <= k < nodes.len(),
    ensures
        activity::root_of(nodes.push(added), k) == activity::root_of(nodes, k),
        0 <= activity::root_of(nodes, k) <= k,
    decreases k,
{
    if let Some(p) = nodes[k].parent {
        if p < k {
            lemma_root_in_more(nodes, added, p as int);
        }
    }
}

/// A slot that was retired is stored, so the registration that takes it does not
/// fail for want of storage.
pub proof fn a_retired_slot_is_stored<P>(registry: HandleRegistry<P>)
    requires
        registry.wf(),
        registry.free_list().len() > 0,
    ensures
        registry.published(registry.candidate() as int),
{
    assert(registry.free_slot_ok(0));
}

/// Until a close ends, a call on the handle or on a descendant of it is told
/// that the handle is busy; ending the close leaves everything as it was
/// before; and a close that is refused changes nothing.
pub proof fn a_close_refuses_calls_until_it_ends<P>(
    registry: HandleRegistry<P>,
    nodes: Seq<HandleActivity>,
    handle: HandleRef<P>,
    id: HandleId,
    kind: HandleType,
    payload_type: u64,
)
    requires
        registry.fits(nodes),
        activity::nodes_wf(nodes),
        slots::entry_error(registry.slot(id.spec_index() as int), id, kind) is None,
        ({
            let j = registry.slot(id.spec_index() as int).entry->Some_0.activity.index as int;
            &&& activity::in_chain(nodes, j, handle.spec_activity().index as int)
            &&& !retired_above(nodes, j)
        }),
    ensures
        registry.close_error(nodes, handle) is Some ==> registry.closing_from(nodes, handle)
            == nodes,
        registry.close_error(nodes, handle) is None ==> {
            let i = handle.spec_activity().index as int;
            let closing = registry.closing_from(nodes, handle);
            &&& registry.acquire_error(closing, id, kind, payload_type) == Some(
                RegistryError::Busy,
            )
            &&& activity::reopened_nodes(closing, i) == nodes
        },
{
    if registry.close_error(nodes, handle) is None {
        let i = handle.spec_activity().index as int;
        let j = registry.slot(id.spec_index() as int).entry->Some_0.activity.index as int;
        assert(registry.slot(handle.spec_id().spec_index() as int).entry is Some);
        activity::reopening_undoes_closing(nodes, i);
        assert forall|b: int| #[trigger] activity::in_chain(nodes, j, b) implies nodes[b].spec_admission()
            != activity::Admission::Retired by {}
        activity::a_close_makes_descendants_busy(nodes, j, i);
    }
}

/// A new handle is found under its identity with what it was registered with,
/// and every other identity names what it named before.
pub proof fn registration_adds_one_identity<P>(
    before: HandleRegistry<P>,
    after: HandleRegistry<P>,
    id: HandleId,
    other: HandleId,
    kind: HandleType,
    value: Arc<P>,
    payload_type: u64,
    activity: ActivityId,
)
    requires
        before.wf(),
        after.registered_from(before, id, kind, value, payload_type, activity),
        other != id,
    ensures
        after.spec_kind_of(id) == Some(kind),
        after.slot(id.spec_index() as int).entry->Some_0.value == value,
        before.spec_kind_of(id) is None,
        after.spec_kind_of(other) == before.spec_kind_of(other),
{
    super::handle_id::identity_is_index_and_generation(id, other);
    let index = before.candidate() as int;
    assert(before.slot(index).entry is None) by {
        if before.free_list().len() > 0 {
            assert(before.free_slot_ok(0));
        }
    }
}

/// Where neither a close nor a full count stands in the way, a new handle is
/// acquired under its identity with the payload and the activity it was
/// registered with; asking for another kind or another type of payload is
/// refused as such.
pub proof fn a_registered_handle_is_acquired_with_its_payload<P>(
    before: HandleRegistry<P>,
    after: HandleRegistry<P>,
    nodes: Seq<HandleActivity>,
    id: HandleId,
    kind: HandleType,
    value: Arc<P>,
    payload_type: u64,
    activity: ActivityId,
    other_kind: HandleType,
    other_type: u64,
)
    requires
        after.registered_from(before, id, kind, value, payload_type, activity),
        activity::closed_by(nodes, activity.index as int) is None,
        activity::refused_by(nodes, activity.index as int, activity.index as int) is None,
        other_kind != kind,
        other_type != payload_type,
    ensures
        after.acquire_error(nodes, id, kind, payload_type) is None,
        after.slot(id.spec_index() as int).entry->Some_0.value == value,
        after.slot(id.spec_index() as int).entry->Some_0.activity == activity,
        after.acquire_error(nodes, id, other_kind, payload_type) == Some(RegistryError::WrongType),
        after.acquire_error(nodes, id, kind, other_type) == Some(RegistryError::WrongType),
{
}

/// The live handles and the free slots are together the slots ever used.
pub proof fn live_and_free_slots_are_the_used_ones<P>(registry: HandleRegistry<P>, i: int)
    requires
        registry.wf(),
    ensures
        registry.spec_live() + registry.free_list().len() == registry.spec_next_index()
            - registry.spec_first_index(),
        registry.slot(i).entry is Some ==> registry.spec_first_index() <= i
            < registry.spec_next_index(),
        registry.slot(i).entry is Some ==> !registry.free_list().contains(i as usize),
{
    if registry.slot(i).entry is Some && registry.free_list().contains(i as usize) {
        let k = choose|k: int| 0 <= k < registry.free@.len() && registry.free@[k] == i as usize;
        assert(registry.free_slot_ok(k));
    }
}

/// Whether a batch holds the identity at `k`, or another one of its slot,
/// before `k`.
fn earlier_matches(handles: &[(HandleId, HandleType)], k: usize) -> (found: (bool, bool))
    requires
        k < handles@.len(),
    ensures
        found.0 <==> exists|j: int| 0 <= j < k && (#[trigger] handles@[j]).0 == handles@[k as int].0,
        found.1 <==> exists|j: int|
            0 <= j < k && (#[trigger] handles@[j]).0.spec_index()
                == handles@[k as int].0.spec_index(),
{
    let id = handles[k].0;
    let mut duplicate: bool = false;
    let mut same_slot: bool = false;
    let mut m: usize = 0;
    while m < k
        invariant
            m <= k < handles@.len(),
            id == handles@[k as int].0,
            duplicate <==> exists|j: int| 0 <= j < m && (#[trigger] handles@[j]).0 == id,
            same_slot <==> exists|j: int|
                0 <= j < m && (#[trigger] handles@[j]).0.spec_index() == id.spec_index(),
        decreases k - m,
    {
        let other = handles[m].0;
        if other == id {
            duplicate = true;
        }
        if other.index() == id.index() {
            same_slot = true;
        }
        m = m + 1;
    }
    (duplicate, same_slot)
}

/// How many of the first `n` handles of a batch are of a kind.
pub open spec fn kinds_in(handles: Seq<(HandleId, HandleType)>, kind: HandleType, n: int) -> int
    decreases n,
{
    if n <= 0 {
        0
    } else {
        kinds_in(handles, kind, n - 1) + (if handles[n - 1].1 == kind {
            1int
        } else {
            0
        })
    }
}

/// Whether one of the first `n` identities of a batch names slot `i`.
pub open spec fn names_slot(handles: Seq<(HandleId, HandleType)>, n: int, i: int) -> bool {
    exists|k: int| 0 <= k < n && (#[trigger] handles[k]).0.spec_index() == i
}

/// Whether `i` or one of its ancestors was retired.
pub open spec fn retired_above(nodes: Seq<HandleActivity>, i: int) -> bool {
    exists|a: int| #[trigger]
        activity::in_chain(nodes, i, a) && nodes[a].spec_admission() == activity::Admission::Retired
}

/// While a handle is live, not every used slot is free.
proof fn lemma_free_list_shorter<P>(registry: HandleRegistry<P>, index: usize)
    requires
        registry.wf(),
        registry.slot(index as int).entry is Some,
    ensures
        registry.live > 0,
        registry.first_index@ <= index < registry.next_index,
{
    let first = registry.first_index@;
    let free = registry.free@.map_values(|x: usize| x as int);
    assert(free.no_duplicates()) by {
        assert forall|k: int, m: int|
            0 <= k < free.len() && 0 <= m < free.len() && k != m implies free[k] != free[m] by {
            if k < m {
                assert(registry.free@[k] != registry.free@[m]);
            } else {
                assert(registry.free@[m] != registry.free@[k]);
            }
        }
    }
    free.unique_seq_to_set();
    let used = vstd::set_lib::set_int_range(first, registry.next_index as int);
    vstd::set_lib::lemma_int_range(first, registry.next_index as int);
    assert(used.contains(index as int));
    assert(free.to_set().subset_of(used.remove(index as int))) by {
        assert forall|x: int| free.to_set().contains(x) implies used.remove(
            index as int,
        ).contains(x) by {
            let k = choose|k: int| 0 <= k < free.len() && free[k] == x;
            assert(registry.free@[k] as int == x);
            assert(registry.free_slot_ok(k));
        }
    }
    vstd::set_lib::lemma_len_subset(free.to_set(), used.remove(index as int));
}

/// Binding a tree to a registry leaves every root where it was.
proof fn lemma_claimed_root(nodes: Seq<HandleActivity>, after: Seq<HandleActivity>, k: int)
    requires
        after.len() == nodes.len(),
        0 <= k < nodes.len(),
        forall|j: int| 0 <= j < nodes.len() ==> (#[trigger] after[j]).parent == nodes[j].parent,
    ensures
        activity::root_of(after, k) == activity::root_of(nodes, k),
        0 <= activity::root_of(nodes, k) <= k,
    decreases k,
{
    assert(after[k].parent == nodes[k].parent);
    if let Some(p) = nodes[k].parent {
        if p < k {
            lemma_claimed_root(nodes, after, p as int);
        }
    }
}

/// After binding the tree of `i` to `owner`, that tree belongs to `owner` and
/// every tree that did before still does.
proof fn lemma_claimed_keeps_roots(nodes: Seq<HandleActivity>, i: int, owner: u64)
    requires
        activity::nodes_wf(nodes),
        0 <= i < nodes.len(),
    ensures
        ({
            let after = activity::claimed_nodes(nodes, i, activity::root_of(nodes, i), owner);
            &&& after.len() == nodes.len()
            &&& after[i].registered
            &&& after[activity::root_of(after, i)].owner == Some(owner)
            &&& forall|k: int|
                0 <= k < nodes.len() && (#[trigger] nodes[k]).registered ==> after[k].registered
            &&& forall|k: int|
                0 <= k < nodes.len() && nodes[#[trigger] activity::root_of(nodes, k)].owner == Some(
                    owner,
                ) ==> after[activity::root_of(after, k)].owner == Some(owner)
        }),
{
    let after = activity::claimed_nodes(nodes, i, activity::root_of(nodes, i), owner);
    lemma_claimed_root(nodes, nodes, i);
    lemma_claimed_root(nodes, after, i);
    assert forall|k: int|
        0 <= k < nodes.len() && nodes[#[trigger] activity::root_of(nodes, k)].owner == Some(
            owner,
        ) implies after[activity::root_of(after, k)].owner == Some(owner) by {
        lemma_claimed_root(nodes, after, k);
    }
}

/// An identity is looked up by what it names: one that names nothing is not found, and
/// one that names a handle of another kind is of the wrong type.
pub proof fn an_identity_is_looked_up_by_what_it_names<P>(
    registry: HandleRegistry<P>,
    id: HandleId,
    expected: HandleType,
)
    ensures
        slots::entry_error(registry.slot(id.spec_index() as int), id, expected) == (
        match registry.spec_kind_of(id) {
            None => Some(RegistryError::NotFound),
            Some(kind) => if kind == expected {
                None
            } else {
                Some(RegistryError::WrongType)
            },
        }),
{
}

/// A call is refused for the first reason there is: its identity, then a close or a
/// retirement of the handle or above it, then a count that is full, then the type of
/// the payload. Without any it is admitted.
pub proof fn a_call_is_refused_for_the_first_reason<P>(
    registry: HandleRegistry<P>,
    nodes: Seq<HandleActivity>,
    id: HandleId,
    expected: HandleType,
    payload_type: u64,
)
    ensures
        ({
            let error = registry.acquire_error(nodes, id, expected, payload_type);
            let entry = registry.slot(id.spec_index() as int).entry->Some_0;
            let i = entry.activity.index as int;
            let named = registry.spec_kind_of(id) == Some(expected);
            let open = activity::closed_by(nodes, i) is None;
            let room = activity::refused_by(nodes, i, i) is None;
            &&& registry.spec_kind_of(id) is None ==> error == Some(RegistryError::NotFound)
            &&& registry.spec_kind_of(id) is Some && !named ==> error == Some(
                RegistryError::WrongType,
            )
            &&& named && !open ==> error == activity::closed_by(nodes, i)
            &&& named && open && !room ==> error == activity::refused_by(nodes, i, i)
            &&& named && open && room && entry.payload_type != payload_type ==> error == Some(
                RegistryError::WrongType,
            )
            &&& error is None <==> named && open && room && entry.payload_type == payload_type
        }),
{
}

/// A registration is refused for the first reason there is: a kind that is none, an
/// activity that is registered or of another registry's tree, a close or a retirement
/// above it, or that no slot is left. Without any, only storage can be wanting.
pub proof fn a_registration_is_refused_for_the_first_reason<P>(
    registry: HandleRegistry<P>,
    nodes: Seq<HandleActivity>,
    kind: HandleType,
    activity: ActivityId,
)
    ensures
        ({
            let error = registry.registration_error(nodes, kind, activity);
            let i = activity.index as int;
            let owner = nodes[activity::root_of(nodes, i)].owner;
            let valid = !(kind is Invalid);
            let free = !nodes[i].registered && (owner is None || owner == Some(
                registry.spec_identity(),
            ));
            let open = activity::closed_by(nodes, i) is None;
            let room = registry.candidate() < registry.spec_slot_limit();
            &&& !valid ==> error == Some(RegistryError::WrongType)
            &&& valid && !free ==> error == Some(RegistryError::InvalidActivity)
            &&& valid && free && !open ==> error == activity::closed_by(nodes, i)
            &&& valid && free && open && !room ==> error == Some(RegistryError::IdSpaceFull)
            &&& error is None <==> valid && free && open && room
        }),
{
}

/// Diagnostics are read while a close goes on and while a count is full, unlike calls
/// that are made; a retirement, of the handle or above it, ends that too.
pub proof fn diagnostics_are_read_while_a_close_goes_on<P>(
    registry: HandleRegistry<P>,
    nodes: Seq<HandleActivity>,
    id: HandleId,
    expected: HandleType,
    payload_type: u64,
    a: int,
)
    requires
        registry.fits(nodes),
        activity::nodes_wf(nodes),
        0 <= a < nodes.len(),
        nodes[a].spec_admission() != activity::Admission::Retired,
    ensures
        registry.diagnostics_error(activity::closing_nodes(nodes, a), id, expected, payload_type)
            == registry.diagnostics_error(nodes, id, expected, payload_type),
        registry.acquire_error(nodes, id, expected, payload_type) is None
            ==> registry.diagnostics_error(nodes, id, expected, payload_type) is None,
        ({
            let entry = registry.slot(id.spec_index() as int).entry;
            registry.spec_kind_of(id) == Some(expected) && activity::in_chain(
                nodes,
                entry->Some_0.activity.index as int,
                a,
            ) ==> registry.diagnostics_error(
                activity::retired_nodes(nodes, a),
                id,
                expected,
                payload_type,
            ) == Some(RegistryError::NotFound)
        }),
{
    let closing = activity::closing_nodes(nodes, a);
    let retired = activity::retired_nodes(nodes, a);
    let slot = registry.slot(id.spec_index() as int);
    if slots::entry_error(slot, id, expected) is None {
        let i = slot.entry->Some_0.activity.index as int;
        assert(activity_fits(nodes, slot.entry->Some_0.activity, registry.spec_identity()));
        assert(activity::word_wf(nodes[a].state));
        activity::lemma_nothing_above(nodes, i);
        assert forall|b: int| 0 <= b < nodes.len() implies #[trigger] activity::in_chain(
            closing,
            i,
            b,
        ) == activity::in_chain(nodes, i, b) by {
            activity::lemma_in_chain_same_parents(closing, nodes, i, b);
        }
        if retired_above(nodes, i) {
            let b = choose|b: int| #[trigger]
                activity::in_chain(nodes, i, b) && nodes[b].spec_admission()
                    == activity::Admission::Retired;
            activity::lemma_in_chain_in_bounds(nodes, i, b);
            activity::lemma_in_chain_same_parents(closing, nodes, i, b);
            assert(activity::in_chain(closing, i, b));
            assert(closing[b] == nodes[b]);
        }
        if retired_above(closing, i) {
            let b = choose|b: int| #[trigger]
                activity::in_chain(closing, i, b) && closing[b].spec_admission()
                    == activity::Admission::Retired;
            activity::lemma_in_chain_in_bounds(closing, i, b);
            activity::lemma_in_chain_same_parents(closing, nodes, i, b);
            assert(activity::in_chain(nodes, i, b));
            assert(b != a);
            assert(closing[b] == nodes[b]);
        }
        if activity::in_chain(nodes, i, a) {
            activity::lemma_in_chain_same_parents(retired, nodes, i, a);
            assert(activity::in_chain(retired, i, a));
            assert(retired[a].spec_admission() == activity::Admission::Retired);
        }
        if registry.acquire_error(nodes, id, expected, payload_type) is None && retired_above(
            nodes,
            i,
        ) {
            let b = choose|b: int| #[trigger]
                activity::in_chain(nodes, i, b) && nodes[b].spec_admission()
                    == activity::Admission::Retired;
            activity::closed_ancestor_refuses_descendants(nodes, i, b);
        }
    }
}

/// The slot that was retired last is taken first, and its generation goes on.
pub proof fn the_last_retired_slot_is_taken_first<P>(
    before: HandleRegistry<P>,
    retired: HandleRegistry<P>,
    index: usize,
)
    requires
        retired.retired_from(before, index),
    ensures
        retired.candidate() == index,
        retired.slot(index as int).generation == before.slot(index as int).generation,
        retired.slot(index as int).entry is None,
        before.free_list().len() == 0 ==> retired.slot(index as int).next_free is None,
        before.free_list().len() > 0 ==> retired.slot(index as int).next_free == Some(
            before.candidate(),
        ),
{
}

/// An identity that stands in a batch twice is a duplicate; another one of a slot that
/// the batch has named names nothing, since a slot has one occupant.
pub proof fn a_batch_names_a_slot_once<P>(
    registry: HandleRegistry<P>,
    handles: Seq<(HandleId, HandleType)>,
    j: int,
    k: int,
)
    requires
        0 <= j < k < handles.len(),
        handles[j].0.spec_index() == handles[k].0.spec_index(),
    ensures
        handles[j].0 == handles[k].0 ==> registry.position_error(handles, k) == Some(
            RegistryError::DuplicateId,
        ),
        (forall|m: int| 0 <= m < k ==> (#[trigger] handles[m]).0 != handles[k].0)
            ==> registry.position_error(handles, k) == Some(RegistryError::NotFound),
{
}

/// Generations count up from one to the limit and start over: none is zero, and as long
/// as there is more than one, the next is another.
pub proof fn generations_count_up<P>(registry: HandleRegistry<P>, previous: usize)
    requires
        registry.wf(),
    ensures
        registry.spec_next_generation(0) == 1,
        previous < registry.spec_generation_limit() ==> registry.spec_next_generation(previous)
            == previous + 1,
        registry.spec_next_generation(registry.spec_generation_limit()) == 1,
        1 <= registry.spec_next_generation(previous) <= registry.spec_generation_limit(),
        registry.spec_generation_limit() > 1 ==> registry.spec_next_generation(previous)
            != previous,
{
}

/// A batch of one is looked up as the handle alone, and retires it as it alone would
/// be.
pub proof fn a_batch_of_one_is_a_retirement<P>(
    before: HandleRegistry<P>,
    after: HandleRegistry<P>,
    id: HandleId,
    kind: HandleType,
)
    ensures
        before.batch_error(seq![(id, kind)], 1) == slots::entry_error(
            before.slot(id.spec_index() as int),
            id,
            kind,
        ),
        after.batch_retired_from(before, seq![(id, kind)], 1) ==> {
            let index = id.spec_index() as int;
            &&& after.slot(index).entry is None
            &&& after.slot(index).generation == before.slot(index).generation
            &&& forall|i: int| i != index ==> #[trigger] after.slot(i) == before.slot(i)
            &&& after.free_list() == seq![id.spec_index()] + before.free_list()
            &&& after.spec_live() == before.spec_live() - 1
        },
{
    let handles = seq![(id, kind)];
    reveal_with_fuel(HandleRegistry::batch_error, 2);
    if after.batch_retired_from(before, handles, 1) {
        assert(handles[0].0.spec_index() == id.spec_index());
        assert(names_slot(handles, 1, id.spec_index() as int));
        assert(Seq::new(1, |k: int| handles[1 - 1 - k].0.spec_index()) =~= seq![id.spec_index()]);
    }
}

/// A batch is accepted exactly where each of its identities names a handle of its kind
/// and no two of them name one slot.
pub proof fn a_batch_is_accepted_where_each_handle_is<P>(
    registry: HandleRegistry<P>,
    handles: Seq<(HandleId, HandleType)>,
    n: int,
)
    requires
        0 <= n <= handles.len(),
    ensures
        registry.batch_error(handles, n) is None <==> {
            &&& forall|k: int|
                0 <= k < n ==> registry.spec_kind_of((#[trigger] handles[k]).0) == Some(
                    handles[k].1,
                )
            &&& forall|j: int, k: int|
                0 <= j < k < n ==> (#[trigger] handles[j]).0.spec_index() != (
                #[trigger] handles[k]).0.spec_index()
        },
    decreases n,
{
    if n > 0 {
        a_batch_is_accepted_where_each_handle_is(registry, handles, n - 1);
        let last = handles[n - 1];
        if registry.position_error(handles, n - 1) is Some {
            if exists|m: int| 0 <= m < n - 1 && (#[trigger] handles[m]).0 == last.0 {
                let m = choose|m: int| 0 <= m < n - 1 && (#[trigger] handles[m]).0 == last.0;
                assert(handles[m].0.spec_index() == last.0.spec_index());
            }
        }
    }
}

/// A batch retires the activities of its handles, each with the calls it counts, and no
/// other.
pub proof fn a_batch_retires_the_activities_of_its_handles<P>(
    registry: HandleRegistry<P>,
    nodes: Seq<HandleActivity>,
    handles: Seq<(HandleId, HandleType)>,
    n: int,
    k: int,
    a: int,
)
    requires
        activity::nodes_wf(nodes),
        0 <= k < n <= handles.len(),
        0 <= a < nodes.len(),
    ensures
        ({
            let after = registry.batch_nodes(nodes, handles, n);
            let named = registry.slot(
                handles[k].0.spec_index() as int,
            ).entry->Some_0.activity.index as int;
            &&& after.len() == nodes.len()
            &&& named < nodes.len() ==> after[named].spec_admission()
                == activity::Admission::Retired && after[named].spec_count()
                == nodes[named].spec_count()
            &&& after[a] == nodes[a] || after[a] == activity::retired_nodes(nodes, a)[a]
            &&& (forall|j: int|
                0 <= j < n ==> registry.slot(
                    (#[trigger] handles[j]).0.spec_index() as int,
                ).entry->Some_0.activity.index != a) ==> after[a] == nodes[a]
        }),
{
    let named = registry.slot(
        handles[k].0.spec_index() as int,
    ).entry->Some_0.activity.index as int;
    if named < nodes.len() {
        assert(activity::word_wf(nodes[named].state));
    }
}

} // verus!
