//! The physics subsystem that an engine carries. The engine makes it, empty,
//! and hands it on; what goes into it is for the systems that use it.

use vstd::prelude::*;
use rapier2d::dynamics::{IslandManager, RigidBodySet};
use rapier2d::geometry::ColliderSet;
use rapier2d::pipeline::{PhysicsPipeline, QueryPipeline};

verus! {

/// Declares `rapier2d::pipeline::PhysicsPipeline`, a type of the physics crate. The
/// library carries values of it and never looks inside.
#[verifier::external_type_specification]
#[verifier::external_body]
pub struct ExPhysicsPipeline(rapier2d::pipeline::PhysicsPipeline);

/// Declares `rapier2d::pipeline::QueryPipeline`, a type of the physics crate. The
/// library carries values of it and never looks inside.
#[verifier::external_type_specification]
#[verifier::external_body]
pub struct ExQueryPipeline(rapier2d::pipeline::QueryPipeline);

/// Declares `rapier2d::dynamics::RigidBodySet`, a type of the physics crate. The
/// library carries values of it and never looks inside.
#[verifier::external_type_specification]
#[verifier::external_body]
pub struct ExRigidBodySet(rapier2d::dynamics::RigidBodySet);

/// Declares `rapier2d::geometry::ColliderSet`, a type of the physics crate. The
/// library carries values of it and never looks inside.
#[verifier::external_type_specification]
#[verifier::external_body]
pub struct ExColliderSet(rapier2d::geometry::ColliderSet);

/// Declares `rapier2d::dynamics::IslandManager`, a type of the physics crate. The
/// library carries values of it and never looks inside.
#[verifier::external_type_specification]
#[verifier::external_body]
pub struct ExIslandManager(rapier2d::dynamics::IslandManager);

/// The rigid bodies that a set holds, each by the index and the generation
/// of its handle.
pub uninterp spec fn rigid_bodies(set: RigidBodySet) -> Set<(u32, u32)>;

/// The colliders that a set holds, each by the index and the generation of
/// its handle.
pub uninterp spec fn colliders(set: ColliderSet) -> Set<(u32, u32)>;

/// The rigid bodies that an island manager keeps as active, each by the
/// index and the generation of its handle.
pub uninterp spec fn active_bodies(islands: IslandManager) -> Set<(u32, u32)>;

/// The colliders that a query pipeline has indexed, each by the index and
/// the generation of its handle.
pub uninterp spec fn indexed_colliders(pipeline: QueryPipeline) -> Set<(u32, u32)>;

/// Calls `PhysicsPipeline::new`. Trusted: the call returns. The pipeline
/// holds working data only, so nothing is claimed of it.
#[verifier::external_body]
fn new_physics_pipeline() -> PhysicsPipeline {
    PhysicsPipeline::new()
}

/// Calls `QueryPipeline::new`. Trusted: the pipeline is empty, it has
/// indexed no collider.
#[verifier::external_body]
fn new_query_pipeline() -> (pipeline: QueryPipeline)
    ensures
        indexed_colliders(pipeline) == Set::<(u32, u32)>::empty(),
{
    QueryPipeline::new()
}

/// Calls `RigidBodySet::new`. Trusted: the set is empty.
#[verifier::external_body]
fn new_rigid_body_set() -> (set: RigidBodySet)
    ensures
        rigid_bodies(set) == Set::<(u32, u32)>::empty(),
{
    RigidBodySet::new()
}

/// Calls `ColliderSet::new`. Trusted: the set is empty.
#[verifier::external_body]
fn new_collider_set() -> (set: ColliderSet)
    ensures
        colliders(set) == Set::<(u32, u32)>::empty(),
{
    ColliderSet::new()
}

/// Calls `IslandManager::new`. Trusted: the manager is empty, it keeps no
/// body as active.
#[verifier::external_body]
fn new_island_manager() -> (islands: IslandManager)
    ensures
        active_bodies(islands) == Set::<(u32, u32)>::empty(),
{
    IslandManager::new()
}

/// The parts of the physics subsystem.
pub struct Physic {
    pub physic_pipeline: PhysicsPipeline,
    pub query_pipeline: QueryPipeline,
    pub rigidbodies: RigidBodySet,
    pub colliders: ColliderSet,
    pub insland_manager: IslandManager,
}

impl Physic {
    /// The subsystem holds no rigid body and no collider, keeps no body as
    /// active and has indexed no collider.
    pub open spec fn is_empty(&self) -> bool {
        &&& rigid_bodies(self.rigidbodies) == Set::<(u32, u32)>::empty()
        &&& colliders(self.colliders) == Set::<(u32, u32)>::empty()
        &&& active_bodies(self.insland_manager) == Set::<(u32, u32)>::empty()
        &&& indexed_colliders(self.query_pipeline) == Set::<(u32, u32)>::empty()
    }

    /// A physics subsystem as its parts come when they are made: empty.
    pub fn new() -> (physic: Self)
        ensures
            physic.is_empty(),
    {
        Physic {
            physic_pipeline: new_physics_pipeline(),
            query_pipeline: new_query_pipeline(),
            colliders: new_collider_set(),
            rigidbodies: new_rigid_body_set(),
            insland_manager: new_island_manager(),
        }
    }
}

} // verus!
