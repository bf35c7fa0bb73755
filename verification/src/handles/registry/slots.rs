//! A sparse table of slots, published one page at a time.

use std::sync::Arc;
use vstd::prelude::*;

use super::super::activity::ActivityId;
use super::super::handle_id::{HandleId, HandleType, RegistryError};

verus! {

/// Slots and inner pages per page.
pub const PAGE_LEN: usize = 256;

/// What a live slot holds.
#[derive(Debug)]
pub struct RegistryEntry<P> {
    pub kind: HandleType,
    /// The type of the payload behind `value`.
    pub payload_type: u64,
    pub value: Arc<P>,
    pub activity: ActivityId,
}

/// One slot: the generation that last occupied it, its occupant, and the next
/// free slot while it is free itself.
#[derive(Debug)]
pub struct SlotState<P> {
    pub generation: usize,
    pub entry: Option<RegistryEntry<P>>,
    pub next_free: Option<usize>,
}

/// The outcome of looking up `id` as a handle of kind `expected` in `slot`.
pub open spec fn entry_error<P>(
    slot: SlotState<P>,
    id: HandleId,
    expected: HandleType,
) -> Option<RegistryError> {
    if slot.generation != id.spec_generation() {
        Some(RegistryError::NotFound)
    } else {
        match slot.entry {
            None => Some(RegistryError::NotFound),
            Some(entry) => if entry.kind != expected {
                Some(RegistryError::WrongType)
            } else {
                None
            },
        }
    }
}

/// A slot nothing ever occupied.
pub open spec fn untouched_slot<P>() -> SlotState<P> {
    SlotState { generation: 0, entry: None, next_free: None }
}

impl<P> SlotState<P> {
    /// A slot nothing ever occupied.
    pub fn new() -> (slot: Self)
        ensures
            slot == untouched_slot::<P>(),
    {
        SlotState { generation: 0, entry: None, next_free: None }
    }

    /// The occupant `id` names, if it is of kind `expected`.
    pub fn checked_entry(&self, id: HandleId, expected: HandleType) -> (result: Result<
        &RegistryEntry<P>,
        RegistryError,
    >)
        ensures
            match entry_error(*self, id, expected) {
                Some(error) => result is Err && result->Err_0 == error,
                None => result is Ok && Some(*result->Ok_0) == self.entry,
            },
    {
        if self.generation != id.generation() {
            return Err(RegistryError::NotFound);
        }
        match &self.entry {
            None => Err(RegistryError::NotFound),
            Some(entry) => if entry.kind != expected {
                Err(RegistryError::WrongType)
            } else {
                Ok(entry)
            },
        }
    }
}

/// A page of slots.
pub type Segment<P> = Vec<SlotState<P>>;

/// A page of segments.
pub type Directory<P> = Vec<Option<Segment<P>>>;

/// A page of directories.
pub type Group<P> = Vec<Option<Directory<P>>>;

/// All slots. A page that was never needed holds nothing.
#[derive(Debug)]
pub struct SlotTable<P> {
    groups: Vec<Option<Group<P>>>,
}

spec fn directory_wf<P>(directory: Seq<Option<Segment<P>>>) -> bool {
    &&& directory.len() == PAGE_LEN
    &&& forall|i: int|
        0 <= i < PAGE_LEN ==> ((#[trigger] directory[i]) matches Some(segment) ==> segment@.len()
            == PAGE_LEN)
}

spec fn group_wf<P>(group: Seq<Option<Directory<P>>>) -> bool {
    &&& group.len() == PAGE_LEN
    &&& forall|i: int|
        0 <= i < PAGE_LEN ==> ((#[trigger] group[i]) matches Some(directory) ==> directory_wf(
            directory@,
        ))
}

spec fn in_directory<P>(directory: Seq<Option<Segment<P>>>, s: int, k: int) -> Option<
    SlotState<P>,
> {
    match directory[s] {
        Some(segment) => Some(segment@[k]),
        None => None,
    }
}

spec fn in_group<P>(group: Seq<Option<Directory<P>>>, d: int, s: int, k: int) -> Option<
    SlotState<P>,
> {
    match group[d] {
        Some(directory) => in_directory(directory@, s, k),
        None => None,
    }
}

spec fn in_table<P>(groups: Seq<Option<Group<P>>>, g: int, d: int, s: int, k: int) -> Option<
    SlotState<P>,
> {
    match groups[g] {
        Some(group) => in_group(group@, d, s, k),
        None => None,
    }
}

/// A published slot keeps its state; one that was not published either stays
/// so or starts untouched.
spec fn kept_or_started<P>(before: Option<SlotState<P>>, after: Option<SlotState<P>>) -> bool {
    after == before || before is None && after == Some(untouched_slot::<P>())
}

/// Two indices share a page exactly where they share every place above it, and
/// a slot exactly where they share the place in the page too.
proof fn lemma_place(i: int, j: int)
    requires
        0 <= i < 0x1_0000_0000,
        0 <= j < 0x1_0000_0000,
    ensures
        0 <= j / 0x100_0000 < PAGE_LEN,
        0 <= (j / 0x1_0000) % 0x100 < PAGE_LEN,
        0 <= (j / 0x100) % 0x100 < PAGE_LEN,
        0 <= j % 0x100 < PAGE_LEN,
        j / 0x100 == i / 0x100 <==> j / 0x100_0000 == i / 0x100_0000 && (j / 0x1_0000) % 0x100 == (
        i / 0x1_0000) % 0x100 && (j / 0x100) % 0x100 == (i / 0x100) % 0x100,
        j == i <==> j / 0x100 == i / 0x100 && j % 0x100 == i % 0x100,
{
    let (p, q) = (i / 0x100, j / 0x100);
    assert(i / 0x1_0000 == p / 0x100 && j / 0x1_0000 == q / 0x100);
    assert(i / 0x100_0000 == p / 0x1_0000 && j / 0x100_0000 == q / 0x1_0000);
}

/// Fills `storage` up to a page of absent inner pages.
fn fill_page<T>(storage: Vec<Option<T>>) -> (page: Vec<Option<T>>)
    requires
        storage@.len() == 0,
    ensures
        page@.len() == PAGE_LEN,
        forall|i: int| 0 <= i < PAGE_LEN ==> (#[trigger] page@[i]) is None,
{
    let mut values: Vec<Option<T>> = storage;
    let mut count: usize = 0;
    while count < PAGE_LEN
        invariant
            count <= PAGE_LEN,
            values@.len() == count,
            forall|i: int| 0 <= i < count ==> (#[trigger] values@[i]) is None,
        decreases PAGE_LEN - count,
    {
        values.push(None);
        count = count + 1;
    }
    values
}

/// Fills `storage` up to a page of untouched slots.
fn fill_segment<P>(storage: Segment<P>) -> (page: Segment<P>)
    requires
        storage@.len() == 0,
    ensures
        page@.len() == PAGE_LEN,
        forall|i: int| 0 <= i < PAGE_LEN ==> (#[trigger] page@[i]) == untouched_slot::<P>(),
{
    let mut values: Segment<P> = storage;
    let mut count: usize = 0;
    while count < PAGE_LEN
        invariant
            count <= PAGE_LEN,
            values@.len() == count,
            forall|i: int| 0 <= i < count ==> (#[trigger] values@[i]) == untouched_slot::<P>(),
        decreases PAGE_LEN - count,
    {
        values.push(SlotState::new());
        count = count + 1;
    }
    values
}

/// A page of absent inner pages in `storage`, or nothing when its storage was
/// not `reserved`.
fn empty_page<T>(storage: Vec<Option<T>>, reserved: bool) -> (page: Option<Vec<Option<T>>>)
    requires
        storage@.len() == 0,
    ensures
        page is Some <==> reserved,
        page matches Some(p) ==> p@.len() == PAGE_LEN && forall|i: int|
            0 <= i < PAGE_LEN ==> (#[trigger] p@[i]) is None,
{
    if !reserved {
        return None;
    }
    Some(fill_page(storage))
}

/// A page of untouched slots in `storage`, or nothing when its storage was not
/// `reserved`.
fn empty_segment<P>(storage: Segment<P>, reserved: bool) -> (page: Option<Segment<P>>)
    requires
        storage@.len() == 0,
    ensures
        page is Some <==> reserved,
        page matches Some(p) ==> p@.len() == PAGE_LEN && forall|i: int|
            0 <= i < PAGE_LEN ==> (#[trigger] p@[i]) == untouched_slot::<P>(),
{
    if !reserved {
        return None;
    }
    Some(fill_segment(storage))
}

/// Publishes segment `s` of a directory.
fn publish_segment<P>(directory: &mut Directory<P>, s: usize) -> (published: bool)
    requires
        directory_wf(old(directory)@),
        s < PAGE_LEN,
    ensures
        directory_wf(final(directory)@),
        forall|s2: int, k: int|
            0 <= s2 < PAGE_LEN && 0 <= k < PAGE_LEN ==> kept_or_started(
                in_directory(old(directory)@, s2, k),
                #[trigger] in_directory(final(directory)@, s2, k),
            ),
        published <==> final(directory)@[s as int] is Some,
        old(directory)@[s as int] is Some ==> published,
{
    if directory[s].is_some() {
        return true;
    }
    let mut storage: Segment<P> = Vec::new();
    let reserved: bool = storage.try_reserve(PAGE_LEN).is_ok();
    match empty_segment(storage, reserved) {
        Some(segment) => {
            directory.set(s, Some(segment));
            true
        },
        None => false,
    }
}

/// Publishes segment `s` of directory `d` of a group.
fn publish_in_group<P>(group: &mut Group<P>, d: usize, s: usize) -> (published: bool)
    requires
        group_wf(old(group)@),
        d < PAGE_LEN,
        s < PAGE_LEN,
    ensures
        group_wf(final(group)@),
        forall|d2: int, s2: int, k: int|
            0 <= d2 < PAGE_LEN && 0 <= s2 < PAGE_LEN && 0 <= k < PAGE_LEN ==> kept_or_started(
                in_group(old(group)@, d2, s2, k),
                #[trigger] in_group(final(group)@, d2, s2, k),
            ),
        published ==> in_group(final(group)@, d as int, s as int, 0) is Some,
        in_group(old(group)@, d as int, s as int, 0) is Some ==> published,
{
    if group[d].is_none() {
        let mut storage: Directory<P> = Vec::new();
        let reserved: bool = storage.try_reserve(PAGE_LEN).is_ok();
        match empty_page(storage, reserved) {
            Some(directory) => {
                group.set(d, Some(directory));
            },
            None => {
                return false;
            },
        }
    }
    let ghost before = group@;
    match &mut group[d] {
        Some(directory) => publish_segment(directory, s),
        None => false,
    }
}

impl<P> SlotTable<P> {
    /// Well-formedness of the pages.
    pub closed spec fn wf(self) -> bool {
        &&& self.groups@.len() == PAGE_LEN
        &&& forall|i: int|
            0 <= i < PAGE_LEN ==> ((#[trigger] self.groups@[i]) matches Some(group) ==> group_wf(
                group@,
            ))
    }

    /// The slot published at `index`.
    pub closed spec fn lookup(self, index: int) -> Option<SlotState<P>> {
        in_table(
            self.groups@,
            index / 0x100_0000,
            (index / 0x1_0000) % 0x100,
            (index / 0x100) % 0x100,
            index % 0x100,
        )
    }

    /// Whether a slot is published at `index`.
    pub open spec fn published(self, index: int) -> bool {
        0 <= index < 0x1_0000_0000 && self.lookup(index) is Some
    }

    /// The slot at `index`; one that was never published is untouched.
    pub open spec fn slot(self, index: int) -> SlotState<P> {
        if self.published(index) {
            self.lookup(index)->Some_0
        } else {
            untouched_slot()
        }
    }

    /// A table with nothing published.
    pub fn new() -> (table: Self)
        ensures
            table.wf(),
            forall|index: int| !#[trigger] table.published(index),
    {
        let groups: Vec<Option<Group<P>>> = fill_page(Vec::new());
        SlotTable { groups }
    }

    /// A table that holds `state` at `index` and publishes the page of `index`
    /// only.
    pub fn with_slot(index: usize, state: SlotState<P>) -> (table: Self)
        requires
            index < 0x1_0000_0000,
        ensures
            table.wf(),
            forall|j: int|
                #[trigger] table.published(j) <==> 0 <= j < 0x1_0000_0000 && j / 0x100 == index as int
                    / 0x100,
            forall|j: int|
                #[trigger] table.slot(j) == (if j == index {
                    state
                } else {
                    untouched_slot::<P>()
                }),
    {
        let g: usize = index / 0x100_0000;
        let d: usize = (index / 0x1_0000) % 0x100;
        let s: usize = (index / 0x100) % 0x100;
        let mut segment: Segment<P> = fill_segment(Vec::new());
        segment.set(index % 0x100, state);
        let mut directory: Directory<P> = fill_page(Vec::new());
        directory.set(s, Some(segment));
        let mut group: Group<P> = fill_page(Vec::new());
        group.set(d, Some(directory));
        let mut groups: Vec<Option<Group<P>>> = fill_page(Vec::new());
        groups.set(g, Some(group));
        let table = SlotTable { groups };
        proof {
            assert forall|j: int|
                #[trigger] table.published(j) <==> 0 <= j < 0x1_0000_0000 && j / 0x100 == index as int
                    / 0x100 by {
                if 0 <= j < 0x1_0000_0000 {
                    lemma_place(index as int, j);
                }
            }
            assert forall|j: int|
                #[trigger] table.slot(j) == (if j == index {
                    state
                } else {
                    untouched_slot::<P>()
                }) by {
                if table.published(j) {
                    lemma_place(index as int, j);
                }
            }
        }
        table
    }

    /// The slot at `index`, if its page was published.
    pub fn get(&self, index: usize) -> (slot: Option<&SlotState<P>>)
        requires
            self.wf(),
        ensures
            slot is Some <==> self.published(index as int),
            slot matches Some(state) ==> *state == self.slot(index as int),
    {
        let g: usize = index / 0x100_0000;
        if g >= PAGE_LEN {
            return None;
        }
        match &self.groups[g] {
            Some(group) => match &group[(index / 0x1_0000) % 0x100] {
                Some(directory) => match &directory[(index / 0x100) % 0x100] {
                    Some(segment) => Some(&segment[index % 0x100]),
                    None => None,
                },
                None => None,
            },
            None => None,
        }
    }

    /// Publishes the page of `index`. Fails when `index` is beyond the table
    /// or there is no storage for a page.
    pub fn get_or_create(&mut self, index: usize) -> (result: Result<(), RegistryError>)
        requires
            old(self).wf(),
        ensures
            final(self).wf(),
            forall|j: int| #[trigger] final(self).slot(j) == old(self).slot(j),
            forall|j: int| old(self).published(j) ==> #[trigger] final(self).published(j),
            match result {
                Ok(()) => final(self).published(index as int),
                Err(error) => {
                    &&& error == (if index >= 0x1_0000_0000 {
                        RegistryError::IdSpaceFull
                    } else {
                        RegistryError::Capacity
                    })
                    &&& !old(self).published(index as int)
                },
            },
    {
        let g: usize = index / 0x100_0000;
        if g >= PAGE_LEN {
            return Err(RegistryError::IdSpaceFull);
        }
        if self.groups[g].is_none() {
            let mut storage: Group<P> = Vec::new();
            let reserved: bool = storage.try_reserve(PAGE_LEN).is_ok();
            match empty_page(storage, reserved) {
                Some(group) => {
                    self.groups.set(g, Some(group));
                },
                None => {
                    return Err(RegistryError::Capacity);
                },
            }
        }
        let d: usize = (index / 0x1_0000) % 0x100;
        let s: usize = (index / 0x100) % 0x100;
        let published: bool = match &mut self.groups[g] {
            Some(group) => publish_in_group(group, d, s),
            None => false,
        };
        if published {
            Ok(())
        } else {
            Err(RegistryError::Capacity)
        }
    }

    /// Puts `state` into the published slot at `index` and hands out what it
    /// held.
    pub fn replace(&mut self, index: usize, state: SlotState<P>) -> (previous: SlotState<P>)
        requires
            old(self).wf(),
            old(self).published(index as int),
        ensures
            final(self).wf(),
            previous == old(self).slot(index as int),
            final(self).slot(index as int) == state,
            forall|j: int| j != index ==> #[trigger] final(self).slot(j) == old(self).slot(j),
            forall|j: int| #[trigger] final(self).published(j) == old(self).published(j),
    {
        let g: usize = index / 0x100_0000;
        let d: usize = (index / 0x1_0000) % 0x100;
        let s: usize = (index / 0x100) % 0x100;
        let k: usize = index % 0x100;
        let mut held: SlotState<P> = state;
        if let Some(group) = &mut self.groups[g] {
            if let Some(directory) = &mut group[d] {
                if let Some(segment) = &mut directory[s] {
                    std::mem::swap(&mut segment[k], &mut held);
                }
            }
        }
        held
    }
}

} // verus!
