//! Systems: units of computation that declare what they read and write, and
//! that see of the world exactly what they declared.

use vstd::prelude::*;
use crate::ecs::access::{Access, AccessView};
use crate::ecs::command::{command_views, Command, CommandView};
use crate::ecs::entity::Entity;

verus! {

/// How often the body of a system runs in one tick.
#[derive(Debug, Clone, Copy, PartialEq, Eq, Structural)]
pub enum Shape {
    /// Once for each entity that has every declared component type.
    PerEntity,
    /// Once, with no entity at hand.
    Once,
}

/// What a system is handed for one run of its body: the components of the
/// entity at hand and the resources, each list in the order of the
/// declaration.
pub struct SystemInput<'a, C, R> {
    /// The entity at hand, `None` for a system that runs once per tick.
    pub entity: Option<Entity>,
    /// The components of the declared read types.
    pub reads: Vec<&'a C>,
    /// The components of the declared write types, as they are now.
    pub writes: Vec<&'a C>,
    /// The resources of the declared read types.
    pub resource_reads: Vec<&'a R>,
    /// The resources of the declared write types, as they are now.
    pub resource_writes: Vec<&'a R>,
}

/// A `SystemInput` as a value.
pub struct InputView<C, R> {
    pub entity: Option<Entity>,
    pub reads: Seq<C>,
    pub writes: Seq<C>,
    pub resource_reads: Seq<R>,
    pub resource_writes: Seq<R>,
}

/// The values behind a list of references.
pub open spec fn referents<T>(refs: Seq<&T>) -> Seq<T> {
    Seq::new(refs.len(), |i: int| *refs[i])
}

impl<'a, C, R> SystemInput<'a, C, R> {
    pub open spec fn view(&self) -> InputView<C, R> {
        InputView {
            entity: self.entity,
            reads: referents(self.reads@),
            writes: referents(self.writes@),
            resource_reads: referents(self.resource_reads@),
            resource_writes: referents(self.resource_writes@),
        }
    }
}

/// What one run of a system's body yields: a new value for each declared
/// write, in the order of the declaration, and the commands it records.
pub struct SystemOutput<C, R> {
    pub writes: Vec<C>,
    pub resource_writes: Vec<R>,
    pub commands: Vec<Command<C>>,
}

/// A `SystemOutput` as a value.
pub struct OutputView<C, R> {
    pub writes: Seq<C>,
    pub resource_writes: Seq<R>,
    pub commands: Seq<CommandView<C>>,
}

impl<C, R> SystemOutput<C, R> {
    pub open spec fn view(&self) -> OutputView<C, R> {
        OutputView {
            writes: self.writes@,
            resource_writes: self.resource_writes@,
            commands: command_views(self.commands@),
        }
    }
}

/// A system. Its declaration and its shape never change, and what one run of
/// its body yields depends on nothing but what the run is handed.
///
/// The three `spec` functions say what the system is; an implementation may
/// state its own. The scheduler's contracts hold of a system whose executable
/// methods do what these say.
pub trait System {
    /// The type of the components that the system works on.
    type Component;

    /// The type of the resources that the system works on.
    type Resource;

    /// The access that the system declares.
    open spec fn declared(&self) -> AccessView {
        arbitrary()
    }

    /// The shape of the system.
    open spec fn kind(&self) -> Shape {
        arbitrary()
    }

    /// What one run of the body yields when handed `input`.
    open spec fn effect(
        &self,
        input: InputView<Self::Component, Self::Resource>,
    ) -> OutputView<Self::Component, Self::Resource> {
        arbitrary()
    }

    fn access(&self) -> (access: Access)
        ensures
            access@ == self.declared(),
    ;

    fn shape(&self) -> (shape: Shape)
        ensures
            shape == self.kind(),
    ;

    /// Runs the body once. The output has one value for each write that the
    /// input shows.
    fn run(&self, input: &SystemInput<Self::Component, Self::Resource>) -> (output: SystemOutput<
        Self::Component,
        Self::Resource,
    >)
        ensures
            output@ == self.effect(input@),
            output.writes@.len() == input.writes@.len(),
            output.resource_writes@.len() == input.resource_writes@.len(),
    ;
}

/// One of two kinds of system, so that a stage can hold both.
pub enum Either<A, B> {
    Left(A),
    Right(B),
}

impl<A: System, B: System<Component = A::Component, Resource = A::Resource>> System for Either<
    A,
    B,
> {
    type Component = A::Component;

    type Resource = A::Resource;

    open spec fn declared(&self) -> AccessView {
        match self {
            Either::Left(a) => a.declared(),
            Either::Right(b) => b.declared(),
        }
    }

    open spec fn kind(&self) -> Shape {
        match self {
            Either::Left(a) => a.kind(),
            Either::Right(b) => b.kind(),
        }
    }

    open spec fn effect(
        &self,
        input: InputView<Self::Component, Self::Resource>,
    ) -> OutputView<Self::Component, Self::Resource> {
        match self {
            Either::Left(a) => a.effect(input),
            Either::Right(b) => b.effect(input),
        }
    }

    fn access(&self) -> (access: Access) {
        match self {
            Either::Left(a) => a.access(),
            Either::Right(b) => b.access(),
        }
    }

    fn shape(&self) -> (shape: Shape) {
        match self {
            Either::Left(a) => a.shape(),
            Either::Right(b) => b.shape(),
        }
    }

    fn run(&self, input: &SystemInput<Self::Component, Self::Resource>) -> (output: SystemOutput<
        Self::Component,
        Self::Resource,
    >) {
        match self {
            Either::Left(a) => a.run(input),
            Either::Right(b) => b.run(input),
        }
    }
}

} // verus!
