use vstd::prelude::*;

verus! {

/// An entity of the ECS world, by the bits of its `hecs::Entity`
/// (`Entity::to_bits`): the generation in the upper 32 bits, the index in the
/// lower 32.
pub type EntityId = u64;

/// An event, by its index in the caller's table of events.
pub type EventKey = u64;

/// A program, by its index in the caller's table of programs.
pub type ProgramKey = u64;

/// A system: the program that owns it and the entity that carries it.
pub type SystemKey = (ProgramKey, EntityId);

/// The smallest bit pattern that names an entity: the generation of a live
/// entity is never zero.
pub open spec fn min_entity_bits() -> u64 {
    0x1_0000_0000u64
}

#[verifier::external_type_specification]
#[verifier::external_body]
pub struct ExEntity(hecs::Entity);

/// The bits that `hecs::Entity::to_bits` packs an entity into: its
/// generation in the upper 32 bits, its index in the lower 32. A function of
/// the entity alone.
pub uninterp spec fn entity_bits(entity: hecs::Entity) -> u64;

/// `hecs::Entity::to_bits`: the entity's bits, whose upper half (the
/// generation, a `NonZeroU32`) is never zero.
#[verifier::external_body]
fn entity_to_bits(entity: hecs::Entity) -> (bits: u64)
    ensures
        bits == entity_bits(entity),
        bits >= min_entity_bits(),
{
    entity.to_bits().get()
}

/// `hecs::Entity::from_bits`: gives an entity exactly when the upper 32 bits
/// (the generation) are not all zero, and then the entity whose bits they
/// are; every entity with those bits is the one given.
#[verifier::external_body]
fn entity_from_bits(bits: u64) -> (entity: Option<hecs::Entity>)
    ensures
        entity is Some <==> bits >= min_entity_bits(),
        entity matches Some(e) ==> entity_bits(e) == bits,
        forall|e: hecs::Entity| #[trigger] entity_bits(e) == bits ==> entity == Some(e),
{
    hecs::Entity::from_bits(bits)
}

/// The identifier under which the library knows `entity`: its bits.
pub fn entity_id(entity: hecs::Entity) -> (id: EntityId)
    ensures
        id == entity_bits(entity),
        id >= min_entity_bits(),
{
    entity_to_bits(entity)
}

/// The `hecs::Entity` that `id` stands for: the entity with those bits,
/// where `id` is a valid bit pattern.
pub fn entity_of(id: EntityId) -> (entity: Option<hecs::Entity>)
    ensures
        entity is Some <==> id >= min_entity_bits(),
        entity matches Some(e) ==> entity_bits(e) == id,
        forall|e: hecs::Entity| #[trigger] entity_bits(e) == id ==> entity == Some(e),
{
    entity_from_bits(id)
}

} // verus!
