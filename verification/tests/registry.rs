//! Registry scenarios: identities, calls in flight, closing and retirement.

use std::collections::HashSet;
use std::sync::atomic::{AtomicUsize, Ordering};
use std::sync::Arc;

use mssql_odbc::handles::activity::{activity_max, ActivityForest, ActivityId, Admission};
use mssql_odbc::handles::handle_id::{
    generation_mask, slot_capacity, HandleId, HandleType, RegistryError,
};
use mssql_odbc::handles::registry::slots::{SlotState, SlotTable};
use mssql_odbc::handles::registry::{HandleRef, HandleRegistry};

const U32: u64 = 1;
const U64: u64 = 2;

struct World<P> {
    registry: HandleRegistry<P>,
    forest: ActivityForest,
}

impl World<u32> {
    fn new() -> Self {
        World { registry: HandleRegistry::new(1), forest: ActivityForest::new() }
    }

    fn with_id_limit(limit: usize) -> Self {
        assert!(limit > 0 && limit <= slot_capacity());
        World {
            registry: HandleRegistry::with_limits(1, limit, 7),
            forest: ActivityForest::new(),
        }
    }

    fn register(
        &mut self,
        kind: HandleType,
        parent: Option<ActivityId>,
    ) -> (HandleId, ActivityId) {
        let activity = self.forest.add_activity(parent);
        let id = self.put(kind, 42, activity).unwrap();
        (id, activity)
    }

    fn assert_live_entries(&mut self, live: &[(HandleId, u32)]) {
        let ids: HashSet<HandleId> = live.iter().map(|(id, _)| *id).collect();
        assert_eq!(ids.len(), live.len());
        assert_eq!(self.registry.live(), live.len());
        for (id, value) in live {
            assert_eq!(HandleId::from_raw(id.to_raw()), Ok(*id));
            assert_eq!(self.registry.kind(*id), Ok(Some(HandleType::Env)));
            let handle = self.acquire(*id, HandleType::Env).unwrap();
            assert_eq!(**handle.value(), *value);
            self.end(handle);
        }
    }
}

impl<P> World<P> {
    fn put(
        &mut self,
        kind: HandleType,
        value: P,
        activity: ActivityId,
    ) -> Result<HandleId, RegistryError> {
        self.registry.register(&mut self.forest, kind, Arc::new(value), U32, activity)
    }

    fn acquire(&mut self, id: HandleId, kind: HandleType) -> Result<HandleRef<P>, RegistryError> {
        self.registry.acquire(&mut self.forest, id, kind, U32)
    }

    fn end(&mut self, handle: HandleRef<P>) {
        drop(handle.into_arc(&mut self.forest));
    }

    fn retire(&mut self, id: HandleId, kind: HandleType) -> Result<(), RegistryError> {
        self.registry.retire(&mut self.forest, id, kind)
    }

    fn retire_batch(&mut self, batch: &[(HandleId, HandleType)]) -> Result<(), RegistryError> {
        self.registry.retire_batch(&mut self.forest, batch)
    }

    fn count(&self, activity: ActivityId) -> usize {
        self.forest.at(activity).count()
    }

    fn admission(&self, activity: ActivityId) -> Admission {
        self.forest.at(activity).admission()
    }
}

struct Payload {
    drops: Arc<AtomicUsize>,
}

impl Drop for Payload {
    fn drop(&mut self) {
        self.drops.fetch_add(1, Ordering::Relaxed);
    }
}

#[test]
fn activities_and_debug_payload_references_implement_debug() {
    let mut world = World::new();
    let (id, activity) = world.register(HandleType::Env, None);
    let handle = world.acquire(id, HandleType::Env).unwrap();
    assert!(format!("{:?}", world.forest.at(activity)).contains("HandleActivity"));
    assert!(format!("{handle:?}").contains("value: 42"));
    assert_eq!(world.count(activity), 1);
}

#[test]
fn packed_ids_round_trip_at_slot_and_generation_boundaries() {
    for index in [0, 1, 255, 256, slot_capacity() - 1] {
        for generation in [1, 2, generation_mask()] {
            let id = HandleId::from_parts(index, generation).unwrap();
            assert_eq!(id.index(), index);
            assert_eq!(id.generation(), generation);
            assert_eq!(HandleId::from_raw(id.to_raw()), Ok(id));
        }
    }
    assert_eq!(HandleId::from_parts(0, 0), Err(RegistryError::InvalidId));
    assert_eq!(
        HandleId::from_parts(slot_capacity(), 1),
        Err(RegistryError::InvalidId)
    );
    assert_eq!(
        HandleId::from_parts(0, generation_mask() + 1),
        Err(RegistryError::InvalidId)
    );
}

#[test]
fn slot_addresses_remain_stable_across_segment_boundaries() {
    let mut table: SlotTable<u32> = SlotTable::new();
    assert!(table.get(0).is_none());
    assert_eq!(table.get_or_create(0), Ok(()));
    let mut first = table.replace(0, SlotState {
        generation: 9,
        entry: None,
        next_free: None,
    });
    assert_eq!(first.generation, 0);
    for index in [1, 255, 256, 65535, 65536, slot_capacity() - 1] {
        assert_eq!(table.get_or_create(index), Ok(()));
        assert_eq!(table.get(index).unwrap().generation, if index == 0 { 9 } else { 0 });
        assert_eq!(table.get(0).unwrap().generation, 9);
    }
    assert!(table.get(257).is_some());
    assert!(table.get(1 << 17).is_none());
    first.generation = 5;
    assert_eq!(table.replace(0, first).generation, 9);
    assert_eq!(table.get(0).unwrap().generation, 5);
}

#[test]
fn a_table_can_start_with_one_slot() {
    let state = SlotState { generation: 4, entry: None, next_free: None };
    let table: SlotTable<u32> = SlotTable::with_slot(65_540, state);
    assert_eq!(table.get(65_540).unwrap().generation, 4);
    assert_eq!(table.get(65_536).unwrap().generation, 0);
    assert!(table.get(65_535).is_none());
    assert!(table.get(4).is_none());
}

#[test]
fn ids_advance_before_wrap_even_when_reregistering_the_same_allocation() {
    let mut world = World::new();
    let value = Arc::new(42_u32);
    let mut previous = 0;
    for _ in 0..32 {
        let activity = world.forest.add_activity(None);
        let id = world
            .registry
            .register(&mut world.forest, HandleType::Env, Arc::clone(&value), U32, activity)
            .unwrap();
        assert!(id.to_raw() > previous);
        assert_eq!(HandleId::from_raw(id.to_raw()), Ok(id));
        assert_eq!(world.registry.kind(id), Ok(Some(HandleType::Env)));
        let handle = world.acquire(id, HandleType::Env).unwrap();
        assert_eq!(handle.id(), id);
        assert!(Arc::ptr_eq(&value, &handle.clone_arc()));
        assert_eq!(**handle.value(), 42);
        if previous != 0 {
            let old = HandleId::from_raw(previous).unwrap();
            assert_eq!(world.registry.kind(old), Ok(None));
            assert_eq!(
                world.acquire(old, HandleType::Env).err(),
                Some(RegistryError::NotFound)
            );
        }
        world.end(handle);
        world.retire(id, HandleType::Env).unwrap();
        assert_eq!(world.registry.kind(id), Ok(None));
        assert_eq!(
            world.acquire(id, HandleType::Env).err(),
            Some(RegistryError::NotFound)
        );
        assert_eq!(world.registry.live(), 0);
        previous = id.to_raw();
    }
}

#[test]
fn null_missing_and_both_kinds_of_type_mismatch_are_distinct() {
    assert_eq!(HandleId::from_raw(0), Err(RegistryError::InvalidId));
    assert_eq!(std::mem::size_of::<HandleId>(), std::mem::size_of::<usize>());
    let mut world = World::new();
    let missing = HandleId::from_raw(123).unwrap();
    assert_eq!(world.registry.kind(missing), Ok(None));
    assert_eq!(
        world.acquire(missing, HandleType::Env).err(),
        Some(RegistryError::NotFound)
    );
    assert_eq!(
        world.retire(missing, HandleType::Env),
        Err(RegistryError::NotFound)
    );
    let (id, activity) = world.register(HandleType::Env, None);
    assert_eq!(
        world.acquire(id, HandleType::Dbc).err(),
        Some(RegistryError::WrongType)
    );
    assert_eq!(
        world.registry.acquire(&mut world.forest, id, HandleType::Env, U64).err(),
        Some(RegistryError::WrongType)
    );
    assert_eq!(
        world.retire(id, HandleType::Dbc),
        Err(RegistryError::WrongType)
    );
    assert_eq!(world.count(activity), 0);
    assert_eq!(world.registry.kind(id), Ok(Some(HandleType::Env)));
    let other = world.forest.add_activity(None);
    assert_eq!(
        world.put(HandleType::Invalid, 0, other),
        Err(RegistryError::WrongType)
    );
}

#[test]
fn last_packed_identity_is_valid_and_generation_wrap_recovers_capacity() {
    let mut world = World {
        registry: HandleRegistry::starting_at(1, slot_capacity() - 1, generation_mask() - 1),
        forest: ActivityForest::new(),
    };
    let (last, _) = world.register(HandleType::Env, None);
    assert_eq!(last.to_raw(), usize::MAX);
    assert_eq!(HandleId::from_raw(last.to_raw()), Ok(last));
    world.retire(last, HandleType::Env).unwrap();
    let (wrapped, _) = world.register(HandleType::Env, None);
    assert_eq!(wrapped.index(), last.index());
    assert_eq!(wrapped.generation(), 1);
    assert_eq!(
        world.acquire(last, HandleType::Env).err(),
        Some(RegistryError::NotFound)
    );
    let handle = world.acquire(wrapped, HandleType::Env).unwrap();
    assert_eq!(**handle.value(), 42);
    world.end(handle);
    world.retire(wrapped, HandleType::Env).unwrap();
    assert_eq!(world.registry.live(), 0);
    let (next, _) = world.register(HandleType::Env, None);
    assert_eq!(next.index(), last.index());
    assert_eq!(next.generation(), 2);
}

#[test]
fn wrap_skips_live_ids_and_reuses_only_retired_entries() {
    let mut world = World::with_id_limit(3);
    world.registry.limit_generations(3);
    let (first, _) = world.register(HandleType::Env, None);
    let (second, _) = world.register(HandleType::Env, None);
    let (third, _) = world.register(HandleType::Env, None);
    let mut current = second;
    for generation in [2, 3, 1] {
        world.retire(current, HandleType::Env).unwrap();
        assert_eq!(world.registry.kind(current), Ok(None));
        let (recycled, _) = world.register(HandleType::Env, None);
        assert_eq!(recycled.index(), second.index());
        assert_eq!(recycled.generation(), generation);
        world.assert_live_entries(&[(first, 42), (recycled, 42), (third, 42)]);
        current = recycled;
    }
    assert_eq!(current, second);
}

#[test]
fn full_namespace_allows_retry_after_retirement_without_claiming_activity() {
    for limit in [1, 3, 7] {
        let mut world = World::with_id_limit(limit);
        let mut live = Vec::new();
        for value in 1..=limit {
            let value = u32::try_from(value).unwrap();
            let activity = world.forest.add_activity(None);
            let id = world.put(HandleType::Env, value, activity).unwrap();
            live.push((id, value));
            world.assert_live_entries(&live);
        }
        let activity = world.forest.add_activity(None);
        let candidate = world.registry.next_index();
        for _ in 0..2 {
            assert_eq!(
                world.put(HandleType::Env, 42, activity),
                Err(RegistryError::IdSpaceFull)
            );
            assert_eq!(world.registry.next_index(), candidate);
            assert!(!world.forest.at(activity).registered);
            assert!(world.forest.at(activity).owner.is_none());
            assert_eq!(world.count(activity), 0);
            assert_eq!(world.admission(activity), Admission::Open);
            world.assert_live_entries(&live);
        }
        let (retired, _) = live.remove(limit / 2);
        world.retire(retired, HandleType::Env).unwrap();
        world.assert_live_entries(&live);
        let recycled = world.put(HandleType::Env, 42, activity).unwrap();
        assert_eq!(recycled.index(), retired.index());
        assert_ne!(recycled, retired);
        assert!(world.forest.at(activity).registered);
        live.push((recycled, 42));
        world.assert_live_entries(&live);
    }
}

#[test]
fn bounded_live_entries_remain_unique_through_thousands_of_recycling_cycles() {
    for limit in [3, 7] {
        let mut world = World::with_id_limit(limit);
        let mut live: Vec<(HandleId, u32)> = Vec::new();
        for value in 0..2048_u32 {
            if live.len() == limit {
                let (retired, _) = live.remove(usize::try_from(value).unwrap() % limit);
                world.retire(retired, HandleType::Env).unwrap();
                assert_eq!(world.registry.kind(retired), Ok(None));
                world.assert_live_entries(&live);
            }
            let activity = world.forest.add_activity(None);
            let id = world.put(HandleType::Env, value, activity).unwrap();
            assert!(id.index() < limit);
            assert!((1..=7).contains(&id.generation()));
            live.push((id, value));
            world.assert_live_entries(&live);
        }
        let batch: Vec<(HandleId, HandleType)> =
            live.iter().map(|(id, _)| (*id, HandleType::Env)).collect();
        world.retire_batch(&batch).unwrap();
        world.assert_live_entries(&[]);
        world.register(HandleType::Env, None);
    }
}

#[test]
fn retired_reference_cannot_close_recycled_id_even_with_the_same_payload() {
    for reuse_payload in [false, true] {
        let original = Arc::new(42_u32);
        let replacement =
            if reuse_payload { Arc::clone(&original) } else { Arc::new(7_u32) };
        let mut world = World::with_id_limit(1);
        let old_activity = world.forest.add_activity(None);
        let id = world
            .registry
            .register(&mut world.forest, HandleType::Env, original, U32, old_activity)
            .unwrap();
        let old = world.acquire(id, HandleType::Env).unwrap();
        let old_closing = world.registry.begin_close(&mut world.forest, &old).unwrap();
        world.retire(id, HandleType::Env).unwrap();
        assert_eq!(world.registry.kind(id), Ok(None));
        world.registry.limit_generations(1);
        let new_activity = world.forest.add_activity(None);
        let recycled = world
            .registry
            .register(
                &mut world.forest,
                HandleType::Env,
                Arc::clone(&replacement),
                U32,
                new_activity,
            )
            .unwrap();
        assert_eq!(recycled, id);
        assert_eq!(**old.value(), 42);
        assert_eq!(
            world.registry.begin_close(&mut world.forest, &old).err(),
            Some(RegistryError::OwnershipMismatch)
        );
        assert_eq!(world.count(new_activity), 0);
        assert_eq!(world.admission(new_activity), Admission::Open);
        let new = world.acquire(recycled, HandleType::Env).unwrap();
        assert_eq!(**new.value(), *replacement);
        assert_eq!(
            *world.registry.diagnostics(&world.forest, id, HandleType::Env, U32).unwrap(),
            *replacement
        );
        let new_closing = world.registry.begin_close(&mut world.forest, &new).unwrap();
        old_closing.reopen(&mut world.forest);
        world.end(old);
        assert_eq!(world.count(old_activity), 0);
        assert_eq!(world.admission(old_activity), Admission::Retired);
        assert_eq!(world.count(new_activity), 1);
        assert_eq!(world.admission(new_activity), Admission::Closing);
        world.retire(recycled, HandleType::Env).unwrap();
        new_closing.reopen(&mut world.forest);
        assert_eq!(**new.value(), *replacement);
    }
}

#[test]
fn recycled_id_uses_the_replacement_kind_and_payload_type() {
    let mut world = World {
        registry: HandleRegistry::<u64>::with_limits(1, 1, 7),
        forest: ActivityForest::new(),
    };
    let activity = world.forest.add_activity(None);
    let old = world.put(HandleType::Env, 42, activity).unwrap();
    world.retire(old, HandleType::Env).unwrap();
    world.registry.limit_generations(1);
    let activity = world.forest.add_activity(None);
    let recycled = world
        .registry
        .register(&mut world.forest, HandleType::Desc, Arc::new(7_u64), U64, activity)
        .unwrap();
    assert_eq!(recycled, old);
    assert_eq!(world.registry.kind(old), Ok(Some(HandleType::Desc)));
    for kind in [HandleType::Env, HandleType::Desc] {
        assert_eq!(world.acquire(old, kind).err(), Some(RegistryError::WrongType));
        assert_eq!(
            world.registry.diagnostics(&world.forest, old, kind, U32).err(),
            Some(RegistryError::WrongType)
        );
    }
    assert_eq!(
        world.retire(old, HandleType::Env),
        Err(RegistryError::WrongType)
    );
    let handle =
        world.registry.acquire(&mut world.forest, old, HandleType::Desc, U64).unwrap();
    assert_eq!(**handle.value(), 7);
    world.retire(recycled, HandleType::Desc).unwrap();
}

#[test]
fn retirement_preserves_retained_storage_and_drops_payload_exactly_once() {
    let mut world =
        World { registry: HandleRegistry::<Payload>::new(1), forest: ActivityForest::new() };
    let drops = Arc::new(AtomicUsize::new(0));
    let activity = world.forest.add_activity(None);
    let id = world
        .put(HandleType::Env, Payload { drops: Arc::clone(&drops) }, activity)
        .unwrap();
    let handle = world.acquire(id, HandleType::Env).unwrap();
    let structural = handle.clone_arc();
    assert_eq!(world.count(activity), 1);
    world.retire(id, HandleType::Env).unwrap();
    assert_eq!(drops.load(Ordering::Relaxed), 0);
    assert_eq!(handle.value().drops.load(Ordering::Relaxed), 0);
    assert_eq!(
        world.registry.begin_close(&mut world.forest, &handle).err(),
        Some(RegistryError::NotFound)
    );
    world.end(handle);
    assert_eq!(world.count(activity), 0);
    assert_eq!(drops.load(Ordering::Relaxed), 0);
    drop(structural);
    assert_eq!(drops.load(Ordering::Relaxed), 1);
}

#[test]
fn into_arc_ends_the_call_without_releasing_structural_ownership() {
    let mut world = World::new();
    let (_, root) = world.register(HandleType::Env, None);
    let (parent, parent_activity) = world.register(HandleType::Dbc, Some(root));
    let (child, child_activity) = world.register(HandleType::Stmt, Some(parent_activity));
    let handle = world.acquire(child, HandleType::Stmt).unwrap();
    assert_eq!(world.count(root), 0);
    assert_eq!(world.count(parent_activity), 1);
    assert_eq!(world.count(child_activity), 1);
    let structural = handle.into_arc(&mut world.forest);
    assert_eq!(world.count(parent_activity), 0);
    assert_eq!(world.count(child_activity), 0);
    let parent_ref = world.acquire(parent, HandleType::Dbc).unwrap();
    let closing = world.registry.begin_close(&mut world.forest, &parent_ref).unwrap();
    world
        .retire_batch(&[(parent, HandleType::Dbc), (child, HandleType::Stmt)])
        .unwrap();
    assert_eq!(*structural, 42);
    closing.reopen(&mut world.forest);
}

struct Tree {
    world: World<u32>,
    env: HandleId,
    env_activity: ActivityId,
    dbc: HandleId,
    dbc_activity: ActivityId,
    stmt: HandleId,
    stmt_activity: ActivityId,
    implicit_desc: HandleId,
    implicit_activity: ActivityId,
    explicit_desc: HandleId,
}

impl Tree {
    fn new() -> Self {
        let mut world = World::new();
        let (env, env_activity) = world.register(HandleType::Env, None);
        let (dbc, dbc_activity) = world.register(HandleType::Dbc, Some(env_activity));
        let (stmt, stmt_activity) = world.register(HandleType::Stmt, Some(dbc_activity));
        let (implicit_desc, implicit_activity) =
            world.register(HandleType::Desc, Some(stmt_activity));
        let (explicit_desc, _) = world.register(HandleType::Desc, Some(dbc_activity));
        Self {
            world,
            env,
            env_activity,
            dbc,
            dbc_activity,
            stmt,
            stmt_activity,
            implicit_desc,
            implicit_activity,
            explicit_desc,
        }
    }

    fn acquire(&mut self, id: HandleId, kind: HandleType) -> HandleRef<u32> {
        self.world.acquire(id, kind).unwrap()
    }

    fn end(&mut self, handle: HandleRef<u32>) {
        self.world.end(handle);
    }

    fn touch(&mut self, id: HandleId, kind: HandleType) {
        let handle = self.acquire(id, kind);
        self.end(handle);
    }

    fn refusal(&mut self, id: HandleId, kind: HandleType) -> Option<RegistryError> {
        self.world.acquire(id, kind).err()
    }

    fn close_refusal(&mut self, handle: &HandleRef<u32>) -> Option<RegistryError> {
        self.world.registry.begin_close(&mut self.world.forest, handle).err()
    }
}

#[test]
fn descendant_call_blocks_parent_close_but_failed_close_keeps_admission_live() {
    let mut tree = Tree::new();
    let parent = tree.acquire(tree.dbc, HandleType::Dbc);
    let child = tree.acquire(tree.stmt, HandleType::Stmt);
    assert_eq!(tree.world.count(tree.dbc_activity), 2);
    assert_eq!(tree.close_refusal(&parent), Some(RegistryError::Busy));
    let another_child = tree.acquire(tree.stmt, HandleType::Stmt);
    tree.end(another_child);
    tree.end(child);
    assert_eq!(tree.world.count(tree.dbc_activity), 1);
    let closing = tree.world.registry.begin_close(&mut tree.world.forest, &parent).unwrap();
    assert_eq!(
        tree.refusal(tree.stmt, HandleType::Stmt),
        Some(RegistryError::Busy)
    );
    closing.reopen(&mut tree.world.forest);
    tree.touch(tree.stmt, HandleType::Stmt);
}

#[test]
fn closing_a_parent_rejects_a_partially_reserved_child() {
    let mut tree = Tree::new();
    let parent = tree.acquire(tree.dbc, HandleType::Dbc);
    tree.world.forest.reserve(tree.stmt_activity).unwrap();
    let closing = tree.world.registry.begin_close(&mut tree.world.forest, &parent).unwrap();
    assert_eq!(
        tree.world.forest.reserve(tree.dbc_activity),
        Err(RegistryError::Busy)
    );
    tree.world.forest.release(tree.stmt_activity);
    assert_eq!(tree.world.count(tree.stmt_activity), 0);
    assert_eq!(tree.world.count(tree.dbc_activity), 1);
    closing.reopen(&mut tree.world.forest);
    tree.touch(tree.stmt, HandleType::Stmt);
}

#[test]
fn implicit_descriptor_call_blocks_statement_and_connection_close() {
    let mut tree = Tree::new();
    let descriptor = tree.acquire(tree.implicit_desc, HandleType::Desc);
    assert_eq!(tree.world.count(tree.stmt_activity), 1);
    assert_eq!(tree.world.count(tree.env_activity), 0);
    for (id, kind) in [(tree.stmt, HandleType::Stmt), (tree.dbc, HandleType::Dbc)] {
        let parent = tree.acquire(id, kind);
        assert_eq!(tree.close_refusal(&parent), Some(RegistryError::Busy));
        tree.end(parent);
    }
    tree.end(descriptor);
    let stmt = tree.acquire(tree.stmt, HandleType::Stmt);
    tree.world
        .registry
        .begin_close(&mut tree.world.forest, &stmt)
        .unwrap()
        .reopen(&mut tree.world.forest);
}

#[test]
fn explicit_descriptor_call_blocks_connection_but_not_statement_or_environment() {
    let mut tree = Tree::new();
    let descriptor = tree.acquire(tree.explicit_desc, HandleType::Desc);
    assert_eq!(tree.world.count(tree.stmt_activity), 0);
    assert_eq!(tree.world.count(tree.dbc_activity), 1);
    assert_eq!(tree.world.count(tree.env_activity), 0);
    let connection = tree.acquire(tree.dbc, HandleType::Dbc);
    assert_eq!(tree.close_refusal(&connection), Some(RegistryError::Busy));
    tree.end(connection);
    let stmt = tree.acquire(tree.stmt, HandleType::Stmt);
    tree.world
        .registry
        .begin_close(&mut tree.world.forest, &stmt)
        .unwrap()
        .reopen(&mut tree.world.forest);
    tree.end(descriptor);
    assert_eq!(tree.world.count(tree.dbc_activity), 1);
    tree.end(stmt);
    assert_eq!(tree.world.count(tree.dbc_activity), 0);
}

#[test]
fn in_flight_statement_call_blocks_connection_close_but_not_environment_close() {
    let mut tree = Tree::new();
    let statement = tree.acquire(tree.stmt, HandleType::Stmt);
    let connection = tree.acquire(tree.dbc, HandleType::Dbc);
    assert_eq!(tree.close_refusal(&connection), Some(RegistryError::Busy));
    assert_eq!(tree.world.count(tree.env_activity), 0);

    let environment = tree.acquire(tree.env, HandleType::Env);
    let another_env_call = tree.acquire(tree.env, HandleType::Env);
    assert_eq!(tree.close_refusal(&environment), Some(RegistryError::Busy));
    tree.end(another_env_call);
    let closing =
        tree.world.registry.begin_close(&mut tree.world.forest, &environment).unwrap();
    assert_eq!(tree.world.count(tree.env_activity), 1);
    assert_eq!(
        tree.refusal(tree.stmt, HandleType::Stmt),
        Some(RegistryError::Busy)
    );
    assert_eq!(**statement.value(), 42);
    closing.reopen(&mut tree.world.forest);
    tree.touch(tree.stmt, HandleType::Stmt);
    tree.world.retire(tree.env, HandleType::Env).unwrap();
    assert_eq!(
        tree.refusal(tree.stmt, HandleType::Stmt),
        Some(RegistryError::NotFound)
    );
    assert_eq!(**statement.value(), 42);
}

#[test]
fn temporary_close_rejects_self_and_all_descendants_then_reopens() {
    let mut tree = Tree::new();
    let parent = tree.acquire(tree.dbc, HandleType::Dbc);
    let closing = tree.world.registry.begin_close(&mut tree.world.forest, &parent).unwrap();
    for (id, kind) in [
        (tree.dbc, HandleType::Dbc),
        (tree.stmt, HandleType::Stmt),
        (tree.implicit_desc, HandleType::Desc),
        (tree.explicit_desc, HandleType::Desc),
    ] {
        assert_eq!(tree.refusal(id, kind), Some(RegistryError::Busy));
        assert_eq!(tree.world.registry.kind(id), Ok(Some(kind)));
    }
    let child_activity = tree.world.forest.add_activity(Some(tree.dbc_activity));
    assert_eq!(
        tree.world.put(HandleType::Stmt, 7, child_activity),
        Err(RegistryError::Busy)
    );
    assert!(tree.world.forest.at(child_activity).owner.is_none());
    assert_eq!(tree.world.count(tree.dbc_activity), 1);
    assert_eq!(tree.close_refusal(&parent), Some(RegistryError::Busy));
    tree.touch(tree.env, HandleType::Env);
    closing.reopen(&mut tree.world.forest);
    tree.touch(tree.implicit_desc, HandleType::Desc);
    tree.touch(tree.explicit_desc, HandleType::Desc);
    tree.world.put(HandleType::Stmt, 7, child_activity).unwrap();
}

#[test]
fn another_call_on_the_same_handle_blocks_close_without_changing_counts() {
    let mut world = World::new();
    let (id, activity) = world.register(HandleType::Env, None);
    let first = world.acquire(id, HandleType::Env).unwrap();
    let second = world.acquire(id, HandleType::Env).unwrap();
    assert_eq!(world.count(activity), 2);
    assert_eq!(
        world.registry.begin_close(&mut world.forest, &first).err(),
        Some(RegistryError::Busy)
    );
    assert_eq!(world.count(activity), 2);
    world.end(second);
    world
        .registry
        .begin_close(&mut world.forest, &first)
        .unwrap()
        .reopen(&mut world.forest);
    world.end(first);
    assert_eq!(world.count(activity), 0);
}

#[test]
fn retirement_cannot_be_reopened_by_a_close_guard() {
    let mut tree = Tree::new();
    let parent = tree.acquire(tree.dbc, HandleType::Dbc);
    let closing = tree.world.registry.begin_close(&mut tree.world.forest, &parent).unwrap();
    tree.world.retire(tree.dbc, HandleType::Dbc).unwrap();
    closing.reopen(&mut tree.world.forest);
    assert_eq!(tree.world.admission(tree.dbc_activity), Admission::Retired);
    assert_eq!(
        tree.refusal(tree.implicit_desc, HandleType::Desc),
        Some(RegistryError::NotFound)
    );
    let child = tree.world.forest.add_activity(Some(tree.dbc_activity));
    assert_eq!(
        tree.world.put(HandleType::Stmt, 7, child),
        Err(RegistryError::NotFound)
    );
}

#[test]
fn close_guard_can_outlive_the_closing_call_and_reopens_without_locking() {
    let mut world = World::new();
    let (id, activity) = world.register(HandleType::Env, None);
    let handle = world.acquire(id, HandleType::Env).unwrap();
    let closing = world.registry.begin_close(&mut world.forest, &handle).unwrap();
    world.end(handle);
    assert_eq!(world.count(activity), 0);
    assert_eq!(
        world.acquire(id, HandleType::Env).err(),
        Some(RegistryError::Busy)
    );
    closing.reopen(&mut world.forest);
    let handle = world.acquire(id, HandleType::Env).unwrap();
    world.end(handle);
}

#[test]
fn overflow_rolls_back_preceding_counters_at_any_depth() {
    let mut tree = Tree::new();
    for saturated in [tree.dbc_activity, tree.stmt_activity] {
        tree.world.forest.set_count(saturated, activity_max());
        assert_eq!(
            tree.refusal(tree.implicit_desc, HandleType::Desc),
            Some(RegistryError::ActivityOverflow)
        );
        for activity in [tree.dbc_activity, tree.stmt_activity] {
            assert_eq!(
                tree.world.count(activity),
                if activity == saturated { activity_max() } else { 0 }
            );
        }
        assert_eq!(tree.world.count(tree.env_activity), 0);
        assert_eq!(tree.world.count(tree.implicit_activity), 0);
        tree.world.forest.set_count(saturated, 0);
    }
    tree.touch(tree.implicit_desc, HandleType::Desc);
    assert_eq!(tree.world.count(tree.env_activity), 0);
}

#[test]
fn maximum_nonoverflowing_count_can_be_acquired_and_released() {
    let mut world = World::new();
    let (id, activity) = world.register(HandleType::Env, None);
    world.forest.set_count(activity, activity_max() - 1);
    let handle = world.acquire(id, HandleType::Env).unwrap();
    assert_eq!(world.count(activity), activity_max());
    assert_eq!(
        world.acquire(id, HandleType::Env).err(),
        Some(RegistryError::ActivityOverflow)
    );
    world.end(handle);
    assert_eq!(world.count(activity), activity_max() - 1);
    world.forest.set_count(activity, 0);
}

#[test]
fn failed_reservation_does_not_consume_identity_bind_activity_or_insert() {
    for reuse in [false, true] {
        let mut world = World::new();
        if reuse {
            let (retired, _) = world.register(HandleType::Env, None);
            world.retire(retired, HandleType::Env).unwrap();
        }
        let before = (world.registry.next_index(), world.registry.live());
        let activity = world.forest.add_activity(None);
        assert_eq!(
            world.registry.register_reserved(
                &mut world.forest,
                HandleType::Env,
                Arc::new(42_u32),
                U32,
                activity,
                false,
            ),
            Err(RegistryError::Capacity)
        );
        world.assert_live_entries(&[]);
        assert_eq!((world.registry.next_index(), world.registry.live()), before);
        assert!(!world.forest.at(activity).registered);
        assert!(world.forest.at(activity).owner.is_none());
        assert_eq!(world.count(activity), 0);
        let id = world.put(HandleType::Env, 42, activity).unwrap();
        assert_eq!(id.index(), 0);
        assert_eq!(id.generation(), if reuse { 2 } else { 1 });
        world.assert_live_entries(&[(id, 42)]);
    }
}

#[test]
fn activities_cannot_be_shared_between_entries_or_registries() {
    let mut forest = ActivityForest::new();
    let mut first: HandleRegistry<u32> = HandleRegistry::new(1);
    let mut second: HandleRegistry<u32> = HandleRegistry::new(2);
    let activity = forest.add_activity(None);
    let id = first
        .register(&mut forest, HandleType::Env, Arc::new(42), U32, activity)
        .unwrap();
    for registry in [&mut first, &mut second] {
        assert_eq!(
            registry.register(&mut forest, HandleType::Env, Arc::new(0), U32, activity),
            Err(RegistryError::InvalidActivity)
        );
    }
    let child = forest.add_activity(Some(activity));
    assert_eq!(
        second.register(&mut forest, HandleType::Dbc, Arc::new(0), U32, child),
        Err(RegistryError::InvalidActivity)
    );
    first.retire(&mut forest, id, HandleType::Env).unwrap();
    assert_eq!(
        first.register(&mut forest, HandleType::Env, Arc::new(0), U32, activity),
        Err(RegistryError::InvalidActivity)
    );
    assert_eq!(first.live(), 0);
    assert_eq!(second.live(), 0);
}

#[test]
fn implicit_descriptors_can_register_before_their_statement_and_ancestors() {
    let mut world = World::new();
    let env = world.forest.add_activity(None);
    let dbc = world.forest.add_activity(Some(env));
    let stmt = world.forest.add_activity(Some(dbc));
    let mut children = Vec::new();
    for _ in 0..4 {
        children.push(world.register(HandleType::Desc, Some(stmt)));
    }
    assert!(world.forest.at(env).owner.is_some());
    assert!(!world.forest.at(env).registered);
    assert!(!world.forest.at(dbc).registered);
    assert!(!world.forest.at(stmt).registered);
    let stmt_id = world.put(HandleType::Stmt, 42, stmt).unwrap();
    world.put(HandleType::Dbc, 42, dbc).unwrap();
    world.put(HandleType::Env, 42, env).unwrap();
    let caller = world.acquire(stmt_id, HandleType::Stmt).unwrap();
    let mut descriptors = Vec::new();
    for (id, _) in &children {
        descriptors.push(world.acquire(*id, HandleType::Desc).unwrap());
    }
    assert_eq!(world.count(stmt), 5);
    assert_eq!(
        world.registry.begin_close(&mut world.forest, &caller).err(),
        Some(RegistryError::Busy)
    );
    for descriptor in descriptors {
        world.end(descriptor);
    }
    world
        .registry
        .begin_close(&mut world.forest, &caller)
        .unwrap()
        .reopen(&mut world.forest);
}

#[test]
fn failed_parent_registration_allows_unpublished_children_to_be_rolled_back() {
    let mut world = World::with_id_limit(3);
    let parent = world.forest.add_activity(None);
    let mut children = Vec::new();
    for _ in 0..3 {
        children.push(world.register(HandleType::Desc, Some(parent)));
    }
    assert_eq!(
        world.put(HandleType::Stmt, 42, parent),
        Err(RegistryError::IdSpaceFull)
    );
    let batch: Vec<(HandleId, HandleType)> =
        children.iter().map(|(id, _)| (*id, HandleType::Desc)).collect();
    world.retire_batch(&batch).unwrap();
    assert_eq!(world.count(parent), 0);
    for (_, activity) in children {
        assert_eq!(world.count(activity), 0);
        assert_eq!(world.admission(activity), Admission::Retired);
        assert_eq!(
            world.put(HandleType::Desc, 42, activity),
            Err(RegistryError::InvalidActivity)
        );
    }
    assert!(!world.forest.at(parent).registered);
    assert_eq!(world.registry.live(), 0);
    let (child, _) = world.register(HandleType::Desc, Some(parent));
    let parent_id = world.put(HandleType::Stmt, 42, parent).unwrap();
    assert_ne!(parent_id, child);
    assert_eq!(parent_id.index(), 1);
    assert_eq!(parent_id.generation(), 2);
    let handle = world.acquire(child, HandleType::Desc).unwrap();
    assert_eq!(**handle.value(), 42);
    world.end(handle);
    let handle = world.acquire(parent_id, HandleType::Stmt).unwrap();
    assert_eq!(**handle.value(), 42);
    world.end(handle);
    world
        .retire_batch(&[(child, HandleType::Desc), (parent_id, HandleType::Stmt)])
        .unwrap();
}

#[test]
fn foreign_reference_cannot_close_matching_id_kind_and_payload() {
    let mut forest = ActivityForest::new();
    let mut first: HandleRegistry<u32> = HandleRegistry::new(1);
    let mut second: HandleRegistry<u32> = HandleRegistry::new(2);
    let value = Arc::new(42_u32);
    let activity = forest.add_activity(None);
    let first_id = first
        .register(&mut forest, HandleType::Env, Arc::clone(&value), U32, activity)
        .unwrap();
    let activity = forest.add_activity(None);
    let second_id = second
        .register(&mut forest, HandleType::Env, value, U32, activity)
        .unwrap();
    assert_eq!(first_id, second_id);
    let handle = first.acquire(&mut forest, first_id, HandleType::Env, U32).unwrap();
    assert_eq!(
        second.begin_close(&mut forest, &handle).err(),
        Some(RegistryError::OwnershipMismatch)
    );
    let other = second.acquire(&mut forest, second_id, HandleType::Env, U32).unwrap();
    drop(other.into_arc(&mut forest));
    first.begin_close(&mut forest, &handle).unwrap().reopen(&mut forest);
}

#[test]
fn a_reference_of_another_registry_with_its_own_forest_closes_nothing() {
    let mut first_forest = ActivityForest::new();
    let mut second_forest = ActivityForest::new();
    let mut first: HandleRegistry<u32> = HandleRegistry::new(1);
    let mut second: HandleRegistry<u32> = HandleRegistry::new(2);
    let first_activity = first_forest.add_activity(None);
    let second_activity = second_forest.add_activity(None);
    assert_eq!(first_activity, second_activity);
    let first_id = first
        .register(&mut first_forest, HandleType::Env, Arc::new(42), U32, first_activity)
        .unwrap();
    let second_id = second
        .register(&mut second_forest, HandleType::Env, Arc::new(43), U32, second_activity)
        .unwrap();
    assert_eq!(first_id, second_id);
    let handle = first.acquire(&mut first_forest, first_id, HandleType::Env, U32).unwrap();
    let own = second.acquire(&mut second_forest, second_id, HandleType::Env, U32).unwrap();
    assert_eq!(
        second.begin_close(&mut second_forest, &handle).err(),
        Some(RegistryError::OwnershipMismatch)
    );
    assert_eq!(second_forest.at(second_activity).count(), 1);
    assert_eq!(second_forest.at(second_activity).admission(), Admission::Open);
    second.begin_close(&mut second_forest, &own).unwrap().reopen(&mut second_forest);
    assert_eq!(*own.into_arc(&mut second_forest), 43);
    assert_eq!(*handle.into_arc(&mut first_forest), 42);
}

#[test]
fn activity_chain_keeps_parents_alive_after_retirement() {
    let mut world = World::new();
    let (parent, parent_activity) = world.register(HandleType::Env, None);
    let (child, child_activity) = world.register(HandleType::Dbc, Some(parent_activity));
    let child_ref = world.acquire(child, HandleType::Dbc).unwrap();
    world.retire_batch(&[(parent, HandleType::Env), (child, HandleType::Dbc)]).unwrap();
    assert_eq!(world.forest.at(child_activity).parent, Some(parent_activity.index));
    assert_eq!(world.admission(parent_activity), Admission::Retired);
    assert!(world.forest.at(parent_activity).registered);
    assert_eq!(world.count(child_activity), 1);
    world.end(child_ref);
    assert_eq!(world.count(child_activity), 0);
    assert_eq!(world.count(parent_activity), 0);
}

#[test]
fn begin_close_checks_type_and_retired_ancestors_without_changing_admission() {
    let mut forest = ActivityForest::new();
    let mut first: HandleRegistry<u32> = HandleRegistry::new(1);
    let mut second: HandleRegistry<u32> = HandleRegistry::new(2);
    let first_activity = forest.add_activity(None);
    let first_id = first
        .register(&mut forest, HandleType::Env, Arc::new(42), U32, first_activity)
        .unwrap();
    let second_activity = forest.add_activity(None);
    let second_id = second
        .register(&mut forest, HandleType::Dbc, Arc::new(42), U32, second_activity)
        .unwrap();
    assert_eq!(first_id, second_id);
    let foreign = first.acquire(&mut forest, first_id, HandleType::Env, U32).unwrap();
    assert_eq!(
        second.begin_close(&mut forest, &foreign).err(),
        Some(RegistryError::WrongType)
    );
    assert_eq!(forest.at(second_activity).count(), 0);
    assert_eq!(forest.at(second_activity).admission(), Admission::Open);

    let mut tree = Tree::new();
    let child = tree.acquire(tree.stmt, HandleType::Stmt);
    tree.world.retire(tree.dbc, HandleType::Dbc).unwrap();
    assert_eq!(tree.close_refusal(&child), Some(RegistryError::NotFound));
    assert_eq!(tree.world.count(tree.stmt_activity), 1);
    assert_eq!(tree.world.admission(tree.stmt_activity), Admission::Open);
}

#[test]
fn batch_preflight_prevents_partial_removal_or_activity_mutation() {
    let mut world = World::new();
    let (first, first_activity) = world.register(HandleType::Env, None);
    let (second, second_activity) = world.register(HandleType::Dbc, None);
    let missing = HandleId::from_raw(123).unwrap();
    for (batch, error) in [
        (
            [(first, HandleType::Env), (second, HandleType::Stmt)],
            RegistryError::WrongType,
        ),
        (
            [(first, HandleType::Env), (missing, HandleType::Dbc)],
            RegistryError::NotFound,
        ),
        (
            [(first, HandleType::Env), (first, HandleType::Env)],
            RegistryError::DuplicateId,
        ),
    ] {
        assert_eq!(world.retire_batch(&batch), Err(error));
        assert_eq!(world.registry.kind(first), Ok(Some(HandleType::Env)));
        assert_eq!(world.registry.kind(second), Ok(Some(HandleType::Dbc)));
        assert_eq!(world.admission(first_activity), Admission::Open);
        assert_eq!(world.admission(second_activity), Admission::Open);
        assert_eq!(world.count(first_activity), 0);
        assert_eq!(world.count(second_activity), 0);
    }
    world.retire_batch(&[]).unwrap();
    world
        .retire_batch(&[(first, HandleType::Env), (second, HandleType::Dbc)])
        .unwrap();
    assert_eq!(world.registry.live(), 0);
    assert_eq!(world.admission(first_activity), Admission::Retired);
    assert_eq!(world.admission(second_activity), Admission::Retired);
}

#[test]
fn batch_with_two_generations_of_one_slot_does_not_retire_the_live_entry() {
    let mut world = World::new();
    let (old, _) = world.register(HandleType::Env, None);
    world.retire(old, HandleType::Env).unwrap();
    let (current, activity) = world.register(HandleType::Env, None);
    assert_eq!(old.index(), current.index());
    assert_ne!(old.generation(), current.generation());
    for ids in [[current, old], [old, current]] {
        assert_eq!(
            world.retire_batch(&ids.map(|id| (id, HandleType::Env))),
            Err(RegistryError::NotFound)
        );
        assert_eq!(world.registry.kind(current), Ok(Some(HandleType::Env)));
        assert_eq!(world.admission(activity), Admission::Open);
        assert_eq!(world.registry.live(), 1);
    }
}

#[test]
fn diagnostics_validate_identity_without_changing_activity() {
    let mut tree = Tree::new();
    let parent = tree.acquire(tree.dbc, HandleType::Dbc);
    let _closing =
        tree.world.registry.begin_close(&mut tree.world.forest, &parent).unwrap();
    let diagnostic = tree
        .world
        .registry
        .diagnostics(&tree.world.forest, tree.stmt, HandleType::Stmt, U32)
        .unwrap();
    assert_eq!(*diagnostic, 42);
    assert_eq!(
        tree.world
            .registry
            .diagnostics(&tree.world.forest, tree.stmt, HandleType::Desc, U32)
            .err(),
        Some(RegistryError::WrongType)
    );
    assert_eq!(
        tree.world
            .registry
            .diagnostics(&tree.world.forest, tree.stmt, HandleType::Stmt, U64)
            .err(),
        Some(RegistryError::WrongType)
    );
    assert_eq!(
        tree.refusal(tree.stmt, HandleType::Stmt),
        Some(RegistryError::Busy)
    );
    assert_eq!(tree.world.count(tree.stmt_activity), 0);
    tree.world.retire(tree.dbc, HandleType::Dbc).unwrap();
    assert_eq!(
        tree.world
            .registry
            .diagnostics(&tree.world.forest, tree.stmt, HandleType::Stmt, U32)
            .err(),
        Some(RegistryError::NotFound)
    );
    drop(diagnostic);
}

#[test]
fn a_call_counts_up_to_the_connection_and_ends_where_it_began() {
    let mut tree = Tree::new();
    let descriptor = tree.acquire(tree.implicit_desc, HandleType::Desc);
    assert_eq!(tree.world.count(tree.implicit_activity), 1);
    assert_eq!(tree.world.count(tree.stmt_activity), 1);
    assert_eq!(tree.world.count(tree.dbc_activity), 1);
    assert_eq!(tree.world.count(tree.env_activity), 0);
    tree.end(descriptor);
    assert_eq!(tree.world.count(tree.implicit_activity), 0);
    assert_eq!(tree.world.count(tree.stmt_activity), 0);
    assert_eq!(tree.world.count(tree.dbc_activity), 0);
}

#[test]
fn a_reference_keeps_the_payload_it_was_admitted_with() {
    let mut world: World<u32> = World::new();
    let activity = world.forest.add_activity(None);
    let id = world.put(HandleType::Env, 1, activity).unwrap();
    let handle = world.acquire(id, HandleType::Env).unwrap();
    world.retire(id, HandleType::Env).unwrap();
    assert_eq!(
        world.put(HandleType::Env, 2, activity),
        Err(RegistryError::InvalidActivity)
    );
    let next = world.forest.add_activity(None);
    let reused = world.put(HandleType::Env, 2, next).unwrap();
    assert_eq!(reused.index(), id.index());
    assert_eq!(**handle.value(), 1);
    let other = world.acquire(reused, HandleType::Env).unwrap();
    assert_eq!(**other.value(), 2);
    world.end(handle);
    world.end(other);
}
