use std::hash::{Hash, Hasher};
use std::mem::size_of;

use ecs_core::entity::allocator::EntityAllocator;
use ecs_core::entity::entities::{Entities, EntityDoesNotExistError};
use ecs_core::entity::location::{
    ArchetypeId, ArchetypeRow, EntityLocation, Location, MaybeLocation, TableId, TableRow,
};
use ecs_core::entity::{Entity, EntityHash};
use ecs_core::identifier::{IdKind, Identifier, IdentifierError, IdentifierMask};

fn location(row: u32) -> EntityLocation {
    EntityLocation {
        archetype_id: ArchetypeId::new(0),
        archetype_row: ArchetypeRow::new(row),
        table_id: TableId::from_u32(0),
        table_row: TableRow::from_u32(row),
    }
}

#[test]
fn entity_niche_optimization() {
    assert_eq!(size_of::<Entity>(), size_of::<Option<Entity>>());
}

#[test]
fn entity_bits_roundtrip() {
    // Generation cannot be greater than 0x7FFF_FFFF else it will be an invalid Entity id
    let e = Entity::from_raw_and_generation(0xDEADBEEF, 0x5AADF00D);
    assert_eq!(Entity::from_bits(e.to_bits()), e);
}

#[test]
fn reserve_entity_len() {
    let mut e = Entities::new();
    let id = e.reserve_entity();
    e.set(
        id.index(),
        EntityLocation {
            archetype_id: ArchetypeId::new(0),
            archetype_row: ArchetypeRow::new(0),
            table_id: TableId::from_u32(0),
            table_row: TableRow::from_u32(0),
        },
    );
    assert_eq!(e.len(), 1);
}

#[test]
fn get_reserved_and_invalid() {
    let mut entities = Entities::new();
    let e = entities.reserve_entity();
    assert!(entities.contains(e));
    assert!(entities.get(e).is_none());

    assert!(entities.contains(e));
    assert!(entities.get(e).is_none());
}

#[test]
fn entity_const() {
    let c1 = Entity::from_raw(42);
    assert_eq!(42, c1.index());
    assert_eq!(1, c1.generation());

    let c2 = Entity::from_bits(0x0000_00ff_0000_00cc);
    assert_eq!(0x0000_00cc, c2.index());
    assert_eq!(0x0000_00ff, c2.generation());

    let c3: u32 = Entity::from_raw(33).index();
    assert_eq!(33, c3);

    let c4: u32 = Entity::from_bits(0x00dd_00ff_0000_0000).generation();
    assert_eq!(0x00dd_00ff, c4);
}

#[test]
fn free_with_reserve_generations() {
    let mut entities = Entities::new();
    let entity = entities.alloc_entity();
    assert!(entities.free_with_reserve_generations(entity, 1).is_some());
}

#[test]
fn free_with_reserve_generations_and_alloc() {
    const GENERATIONS: u32 = 10;

    let mut entities = Entities::new();
    let entity = entities.alloc_entity();

    assert!(entities
        .free_with_reserve_generations(entity, GENERATIONS)
        .is_some());

    // The very next entity allocated should be a further generation on the same index
    let next_entity = entities.alloc_entity();
    assert_eq!(next_entity.index(), entity.index());
    assert!(next_entity.generation() > entity.generation() + GENERATIONS);
}

#[test]
fn entity_comparison() {
    assert_eq!(
        Entity::from_raw_and_generation(123, 456),
        Entity::from_raw_and_generation(123, 456)
    );
    assert_ne!(
        Entity::from_raw_and_generation(123, 789),
        Entity::from_raw_and_generation(123, 456)
    );
    assert_ne!(
        Entity::from_raw_and_generation(123, 456),
        Entity::from_raw_and_generation(123, 789)
    );
    assert_ne!(
        Entity::from_raw_and_generation(123, 456),
        Entity::from_raw_and_generation(456, 123)
    );

    // ordering is by generation then by index

    assert!(
        Entity::from_raw_and_generation(123, 456) >= Entity::from_raw_and_generation(123, 456)
    );
    assert!(
        Entity::from_raw_and_generation(123, 456) <= Entity::from_raw_and_generation(123, 456)
    );
    assert!(
        !(Entity::from_raw_and_generation(123, 456) < Entity::from_raw_and_generation(123, 456))
    );
    assert!(
        !(Entity::from_raw_and_generation(123, 456) > Entity::from_raw_and_generation(123, 456))
    );

    assert!(Entity::from_raw_and_generation(9, 1) < Entity::from_raw_and_generation(1, 9));
    assert!(Entity::from_raw_and_generation(1, 9) > Entity::from_raw_and_generation(9, 1));

    assert!(Entity::from_raw_and_generation(1, 1) < Entity::from_raw_and_generation(2, 1));
    assert!(Entity::from_raw_and_generation(1, 1) <= Entity::from_raw_and_generation(2, 1));
    assert!(Entity::from_raw_and_generation(2, 2) > Entity::from_raw_and_generation(1, 2));
    assert!(Entity::from_raw_and_generation(2, 2) >= Entity::from_raw_and_generation(1, 2));
}

#[test]
fn entity_hash_keeps_similar_ids_together() {
    let hash = EntityHash;

    let first_id = 0xC0FFEE << 8;
    let first_hash = hash.hash_one(Entity::from_raw(first_id));

    for i in 1..=255 {
        let id = first_id + i;
        let hash = hash.hash_one(Entity::from_raw(id));
        assert_eq!(hash.wrapping_sub(first_hash) as u32, i);
    }
}

#[test]
fn entity_hash_id_bitflip_affects_high_7_bits() {
    let hash = EntityHash;

    let first_id = 0xC0FFEE;
    let first_hash = hash.hash_one(Entity::from_raw(first_id)) >> 57;

    for bit in 0..u32::BITS {
        let id = first_id ^ (1 << bit);
        let hash = hash.hash_one(Entity::from_raw(id)) >> 57;
        assert_ne!(hash, first_hash);
    }
}

#[test]
fn entity_debug() {
    let entity = Entity::from_raw(42);
    let string = format!("{:?}", entity);
    assert_eq!(string, "42v1#4294967338");
    assert_eq!(entity.to_debug_text(), string);

    let entity = Entity::placeholder();
    let string = format!("{:?}", entity);
    assert_eq!(string, "PLACEHOLDER");
    assert_eq!(entity.to_debug_text(), string);
}

#[test]
fn entity_display() {
    let entity = Entity::from_raw(42);
    let string = entity.to_display_text();
    assert_eq!(string, "42v1");

    let entity = Entity::placeholder();
    let string = entity.to_display_text();
    assert_eq!(string, "PLACEHOLDER");
}

/// Records what is fed to it.
#[derive(Default)]
struct Recorder {
    numbers: Vec<u64>,
    bytes: usize,
}

impl Hasher for Recorder {
    fn finish(&self) -> u64 {
        0
    }

    fn write(&mut self, bytes: &[u8]) {
        self.bytes += bytes.len();
    }

    fn write_u64(&mut self, number: u64) {
        self.numbers.push(number);
    }
}

#[test]
fn entities_feed_their_bits_to_a_hasher() {
    let mut recorder = Recorder::default();
    let entity = Entity::from_raw_and_generation(0xDEADBEEF, 0x5AADF00D);
    entity.hash(&mut recorder);
    assert_eq!(recorder.numbers, vec![0x5AADF00D_DEADBEEF]);
    assert_eq!(recorder.bytes, 0);
}

#[test]
fn generations_keep_all_their_bits() {
    let mut last = Entity::from_raw_and_generation(u32::MAX, 1);
    for top in 0..128 {
        for low in [1, 0xFFFF, 0x1_0000, 0xFF_FFFF] {
            let generation = top * 0x100_0000 + low;
            let entity = Entity::from_raw_and_generation(0, generation);
            assert_eq!(entity.generation(), generation);
            assert_eq!(entity.to_bits(), (generation as u64) << 32);
            if generation > 1 {
                assert!(last < entity);
                assert!(last.cmp(&entity).is_lt());
                last = entity;
            }
        }
    }
}

#[test]
fn bits_that_name_no_entity_are_refused() {
    assert_eq!(
        Entity::try_from_bits(42),
        Err(IdentifierError::InvalidEntityId(42))
    );
    assert_eq!(
        Entity::try_from_bits(u64::MAX),
        Err(IdentifierError::InvalidEntityId(u64::MAX))
    );
    let bits: u64 = 7 << 32 | 5;
    let entity = Entity::try_from_bits(bits).unwrap();
    assert_eq!((entity.index(), entity.generation()), (5, 7));
}

#[test]
fn identifiers_pack_their_parts() {
    let id = Identifier::try_from_bits(3 << 32 | 9).unwrap();
    assert_eq!((id.low(), id.high()), (9, 3));
    assert!(id.kind() == IdKind::Entity);
    assert_eq!(IdentifierMask::pack_into_u64(9, 3), 3 << 32 | 9);
}

#[test]
fn generations_wrap_around_without_zero() {
    assert_eq!(IdentifierMask::inc_masked_high_by(1, 1), 2);
    assert_eq!(IdentifierMask::inc_masked_high_by(0x7FFF_FFFF, 1), 1);
    assert_eq!(IdentifierMask::inc_masked_high_by(0x7FFF_FFFF, 2), 2);
}

#[test]
fn sparse_set_index_is_the_index() {
    let entity = Entity::from_raw_and_generation(17, 4);
    assert_eq!(entity.sparse_set_index(), 17);
    assert_eq!(Entity::get_sparse_set_index(17), Entity::from_raw(17));
}

#[test]
fn freed_entities_are_reused_with_the_next_generation() {
    let mut entities = Entities::new();
    let entity = entities.alloc_entity();
    entities.set(entity.index(), location(0));
    assert_eq!(entities.get(entity), Some(location(0)));
    assert_eq!(entities.free(entity), Some(location(0)));
    assert_eq!(entities.free(entity), None);
    assert_eq!(entities.len(), 0);
    assert!(!entities.contains(entity));
    let next = entities.alloc_entity();
    assert_eq!(next.index(), entity.index());
    assert_eq!(next.generation(), entity.generation() + 1);
    assert!(entities.contains(next));
}

#[test]
fn reserved_blocks_are_consecutive() {
    let mut entities = Entities::new();
    let mut reservation = entities.reserve_entities(40);
    assert_eq!(reservation.len(), 40);
    let mut found = Vec::new();
    while let Some(entity) = reservation.next() {
        found.push(entity.index());
    }
    let expected: Vec<u32> = (0..40).collect();
    assert_eq!(found, expected);
    assert_eq!(entities.total_count(), 40);
}

#[test]
fn reserved_entities_are_distinct() {
    let mut allocator = EntityAllocator::new();
    let mut seen = Vec::new();
    for _ in 0..100 {
        let entity = allocator.reserve();
        assert!(!seen.contains(&entity.index()));
        seen.push(entity.index());
    }
}

#[test]
fn recycled_entities_come_back_last_in_first_out() {
    let mut allocator = EntityAllocator::new();
    for _ in 0..16 {
        allocator.reserve();
    }
    assert!(allocator.reserve_recycled().is_none());
    let first = Entity::from_raw_and_generation(3, 2);
    let second = Entity::from_raw_and_generation(4, 2);
    allocator.recycle(first);
    allocator.recycle(second);
    assert_eq!(allocator.reserve_recycled(), Some(second));
    assert_eq!(allocator.reserve(), first);
}

#[test]
fn full_local_queues_hand_over_blocks() {
    let mut allocator = EntityAllocator::new();
    for i in 0..30 {
        allocator.recycle(Entity::from_raw_and_generation(i, 2));
    }
    assert_eq!(allocator.recycled_count(), 30);
    allocator.recycle(Entity::from_raw_and_generation(30, 2));
    assert_eq!(allocator.recycled_count(), 31);
    // The newest entity comes first, then those that stayed, then the block.
    assert_eq!(allocator.reserve().index(), 30);
    for i in 0..15 {
        assert_eq!(allocator.reserve().index(), 14 - i);
    }
    for i in 0..15 {
        assert_eq!(allocator.reserve().index(), 29 - i);
    }
    assert_eq!(allocator.recycled_count(), 0);
}

#[test]
fn total_count_counts_what_was_handed_out() {
    let mut entities = Entities::new();
    assert_eq!(entities.total_count(), 0);
    let entity = entities.alloc_entity();
    assert_eq!(entities.total_count(), 1);
    entities.free(entity);
    assert_eq!(entities.total_count(), 1);
    entities.alloc_entity();
    assert_eq!(entities.total_count(), 1);
    for n in 2..50 {
        entities.reserve_entity();
        assert_eq!(entities.total_count(), n);
    }
}

#[test]
fn recycled_count_counts_what_was_recycled() {
    let mut allocator = EntityAllocator::new();
    allocator.reserve();
    assert_eq!(allocator.recycled_count(), 0);
    allocator.recycle(Entity::from_raw(7));
    assert_eq!(allocator.recycled_count(), 1);
    assert_eq!(allocator.reserve_recycled(), Some(Entity::from_raw(7)));
    assert_eq!(allocator.recycled_count(), 0);
}

#[test]
fn only_recycled_entities_are_reserved_again() {
    let mut allocator = EntityAllocator::new();
    assert_eq!(allocator.reserve_recycled(), None);
    let first = allocator.reserve();
    // Fresh entities are at hand, but none was recycled.
    assert_eq!(allocator.reserve_recycled(), None);
    assert_eq!(allocator.total_count(), 1);
    let recycled = Entity::from_raw_and_generation(first.index(), 2);
    allocator.recycle(recycled);
    assert_eq!(allocator.reserve_recycled(), Some(recycled));
    assert_eq!(allocator.reserve_recycled(), None);
    assert_eq!(allocator.reserve().index(), 1);
}

#[test]
fn indices_run_out() {
    let allocator = EntityAllocator::new();
    assert!(allocator.can_reserve(u32::MAX - 15));
    assert!(!allocator.can_reserve(u32::MAX - 14));
    let mut entities = Entities::new();
    entities.alloc_entity();
    assert!(entities.can_reserve(u32::MAX - 31));
    assert!(!entities.can_reserve(u32::MAX - 30));
}

#[test]
fn reservations_count_up() {
    let mut allocator = EntityAllocator::new();
    for index in 0..100 {
        assert_eq!(allocator.reserve(), Entity::from_raw(index));
    }
    assert_eq!(allocator.total_count(), 100);
}

#[test]
fn all_recycled_entities_come_back_once() {
    let mut allocator = EntityAllocator::new();
    for index in 0..50 {
        allocator.recycle(Entity::from_raw_and_generation(index, 2));
    }
    assert_eq!(allocator.recycled_count(), 50);
    let mut found = Vec::new();
    while let Some(entity) = allocator.reserve_recycled() {
        assert_eq!(entity.generation(), 2);
        found.push(entity.index());
    }
    found.sort();
    let expected: Vec<u32> = (0..50).collect();
    assert_eq!(found, expected);
    assert_eq!(allocator.reserve_recycled(), None);
    assert_eq!(allocator.recycled_count(), 0);
}

#[test]
fn cleared_entities_never_come_back() {
    let mut entities = Entities::new();
    let mut cleared = Vec::new();
    for row in 0..40 {
        let entity = entities.alloc_entity();
        entities.set(entity.index(), location(row));
        cleared.push(entity);
    }
    entities.clear();
    for row in 0..80 {
        let entity = entities.alloc_entity();
        assert!(!cleared.contains(&entity));
        entities.set(entity.index(), location(row));
    }
    let mut reservation = entities.reserve_entities(100);
    while let Some(entity) = reservation.next() {
        assert!(!cleared.contains(&entity));
    }
    for entity in cleared {
        assert!(!entities.contains(entity));
        assert_eq!(entities.get(entity), None);
    }
}

#[test]
fn clear_frees_all_live_entities() {
    let mut entities = Entities::new();
    let a = entities.alloc_entity();
    let b = entities.alloc_entity();
    entities.set(a.index(), location(0));
    entities.set(b.index(), location(1));
    assert_eq!(entities.len(), 2);
    entities.clear();
    assert!(entities.is_empty());
    assert!(!entities.contains(a));
    assert!(!entities.contains(b));
    let again = entities.alloc_entity();
    assert_eq!(again.generation(), 2);
}

#[test]
fn freeing_keeps_other_entities() {
    let mut entities = Entities::new();
    let a = entities.alloc_entity();
    let b = entities.alloc_entity();
    entities.set(a.index(), location(0));
    entities.set(b.index(), location(1));
    entities.free(a);
    assert_eq!(entities.get(b), Some(location(1)));
    assert!(entities.contains(b));
}

#[test]
fn missing_entities_are_explained() {
    let mut entities = Entities::with_location_tracking();
    let entity = entities.alloc_entity();
    let error = EntityDoesNotExistError::new(entity, &entities);
    assert_eq!(
        error.to_text(),
        "The entity with ID 0v1 does not exist (index has been reused or was never spawned)"
    );
    entities.set(entity.index(), location(0));
    entities.free(entity);
    entities.set_spawned_or_despawned_by(
        entity.index(),
        MaybeLocation::On(Location { file: "src/a.rs", line: 3, column: 9 }),
    );
    let error = EntityDoesNotExistError::new(entity, &entities);
    assert_eq!(
        error.to_text(),
        "The entity with ID 0v1 was despawned by src/a.rs:3:9"
    );

    let plain = Entities::new();
    let error = EntityDoesNotExistError::new(entity, &plain);
    assert_eq!(
        error.to_text(),
        "The entity with ID 0v1 does not exist (enable `track_location` feature for more details)"
    );
}

#[test]
fn resolving_an_index_gives_its_current_entity() {
    let mut entities = Entities::new();
    assert!(entities.resolve_from_id(0).is_none());
    let entity = entities.alloc_entity();
    assert_eq!(entities.resolve_from_id(0), Some(entity));
    entities.free(entity);
    assert_eq!(
        entities.resolve_from_id(0),
        Some(Entity::from_raw_and_generation(0, 2))
    );
}

#[test]
fn despawned_entities_are_told_from_skipped_generations() {
    let place = Location { file: "src/b.rs", line: 5, column: 1 };
    let mut entities = Entities::with_location_tracking();
    let entity = entities.alloc_entity();
    entities.set(entity.index(), location(0));
    assert_eq!(
        entities.free_with_reserve_generations(entity, 5),
        Some(location(0))
    );
    entities.set_spawned_or_despawned_by(entity.index(), MaybeLocation::On(place));
    assert_eq!(
        entities.entity_get_spawned_or_despawned_by(entity),
        MaybeLocation::On(Some(place))
    );
    // No entity ever had this generation.
    let skipped = Entity::from_raw_and_generation(entity.index(), 3);
    assert_eq!(
        entities.entity_get_spawned_or_despawned_by(skipped),
        MaybeLocation::On(None)
    );
}
