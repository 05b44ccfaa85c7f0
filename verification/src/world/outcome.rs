//! What the deferred changes of a phase make of a pawn when the phase ends.

use crate::pawn::components::PawnBundleModel;
use crate::pawn::components::Status;
use crate::pawn::components::WorkOrder;
use crate::world::Command;
use crate::world::WorldModel;
use crate::EntityRef;
use vstd::prelude::*;

verus! {

/// The status of the pawn `entity` once `command` has taken effect, where
/// it was `status` before.
pub open spec fn status_step(command: Command, entity: EntityRef, status: Status) -> Status {
    match command {
        Command::AddStatus { entity: subject, status: given } => if subject == entity {
            given
        } else {
            status
        },
        _ => status,
    }
}

/// The work order of the pawn `entity` once `command` has taken effect,
/// where it was `order` before.
pub open spec fn order_step(command: Command, entity: EntityRef, order: Option<WorkOrder>) -> Option<
    WorkOrder,
> {
    match command {
        Command::AddWorkOrder { entity: subject, order: given } => if subject == entity {
            Some(given)
        } else {
            order
        },
        Command::ClearWorkOrder { entity: subject } => if subject == entity {
            None
        } else {
            order
        },
        _ => order,
    }
}

/// The status of the pawn `entity` once `commands` have taken effect, first
/// to last: the last status asked for it, or the one it had.
pub open spec fn status_after(commands: Seq<Command>, entity: EntityRef, status: Status) -> Status
    decreases commands.len(),
{
    if commands.len() == 0 {
        status
    } else {
        status_step(commands.last(), entity, status_after(commands.drop_last(), entity, status))
    }
}

/// The work order of the pawn `entity` once `commands` have taken effect,
/// first to last.
pub open spec fn order_after(commands: Seq<Command>, entity: EntityRef, order: Option<WorkOrder>) -> Option<
    WorkOrder,
>
    decreases commands.len(),
{
    if commands.len() == 0 {
        order
    } else {
        order_step(commands.last(), entity, order_after(commands.drop_last(), entity, order))
    }
}

/// One more command is one more step for the status and for the order.
pub proof fn lemma_after_push(
    commands: Seq<Command>,
    command: Command,
    entity: EntityRef,
    status: Status,
    order: Option<WorkOrder>,
)
    ensures
        status_after(commands.push(command), entity, status) == status_step(
            command,
            entity,
            status_after(commands, entity, status),
        ),
        order_after(commands.push(command), entity, order) == order_step(
            command,
            entity,
            order_after(commands, entity, order),
        ),
{
    assert(commands.push(command).drop_last() =~= commands);
    assert(commands.push(command).last() == command);
}

impl WorldModel {
    /// No two pawns share an identity.
    pub open spec fn pawn_ids_distinct(self) -> bool {
        forall|i: int, j: int|
            0 <= i < j < self.pawns.len() ==> self.pawns[i].entity != self.pawns[j].entity
    }

    /// The pawn that bears the identity `entity`.
    pub open spec fn pawn_of(self, entity: EntityRef) -> PawnBundleModel
        recommends
            self.pawn_index(entity) is Some,
    {
        self.pawns[self.pawn_index(entity)->Some_0]
    }

    /// The invariant keeps the identities of the pawns apart.
    pub proof fn lemma_wf_pawn_ids(self)
        requires
            self.wf(),
        ensures
            self.pawn_ids_distinct(),
    {
        reveal(WorldModel::wf);
    }

    /// Where identities are apart, the pawn at `i` is the one that
    /// `pawn_index` finds for its identity.
    pub proof fn lemma_pawn_index_at(self, i: int)
        requires
            self.pawn_ids_distinct(),
            0 <= i < self.pawns.len(),
        ensures
            self.pawn_index(self.pawns[i].entity) == Some(i),
            self.pawn_of(self.pawns[i].entity) == self.pawns[i],
    {
        let entity = self.pawns[i].entity;
        assert(self.is_first_pawn(i, entity)) by {
            assert forall|j: int| 0 <= j < i implies (#[trigger] self.pawns[j]).entity != entity by {
                assert(self.pawns[j].entity != self.pawns[i].entity);
            }
        }
        let found = choose|j: int| self.is_first_pawn(j, entity);
        assert(self.is_first_pawn(found, entity));
        if found < i {
            assert(self.pawns[found].entity != self.pawns[i].entity);
        } else if i < found {
            assert(self.pawns[i].entity != self.pawns[found].entity);
        }
    }

    /// A deferred change that is not the removal of the pawn `entity`
    /// leaves the pawn in the world, with the status and the order that the
    /// change gives it, and else as it was.
    pub proof fn lemma_apply_pawn(self, command: Command, entity: EntityRef)
        requires
            self.pawn_ids_distinct(),
            self.pawn_index(entity) is Some,
            command != (Command::Despawn { entity }),
        ensures
            self.apply(command).pawn_ids_distinct(),
            self.apply(command).pawn_index(entity) is Some,
            self.apply(command).pawn_of(entity) == (PawnBundleModel {
                pawn_status: status_step(command, entity, self.pawn_of(entity).pawn_status),
                work_order: order_step(command, entity, self.pawn_of(entity).work_order),
                ..self.pawn_of(entity)
            }),
    {
        let after = self.apply(command);
        self.lemma_pawn_index(entity);
        let i = self.pawn_index(entity)->Some_0;
        let subject = match command {
            Command::AddStatus { entity: subject, .. } => subject,
            Command::AddWorkOrder { entity: subject, .. } => subject,
            Command::ClearWorkOrder { entity: subject } => subject,
            Command::Despawn { entity: subject } => subject,
        };
        self.lemma_pawn_index(subject);
        self.lemma_pawn_index_at(i);
        if command is Despawn {
            match self.pawn_index(subject) {
                Some(gone) => {
                    assert(gone != i);
                    assert forall|a: int| 0 <= a < after.pawns.len() implies #[trigger] after.pawns[a]
                        == self.pawns[if a < gone {
                        a
                    } else {
                        a + 1
                    }] by {}
                    assert(after.pawn_ids_distinct()) by {
                        assert forall|a: int, b: int|
                            0 <= a < b < after.pawns.len() implies after.pawns[a].entity
                            != after.pawns[b].entity by {
                            let a0 = if a < gone { a } else { a + 1 };
                            let b0 = if b < gone { b } else { b + 1 };
                            assert(self.pawns[a0].entity != self.pawns[b0].entity);
                        }
                    }
                    let moved = if i < gone { i } else { i - 1 };
                    assert(after.pawns[moved] == self.pawns[i]);
                    after.lemma_pawn_index_at(moved);
                },
                None => {
                    assert(after.pawns == self.pawns);
                    after.lemma_pawn_index_at(i);
                },
            }
        } else {
            match self.pawn_index(subject) {
                Some(j) => {
                    self.lemma_pawn_index_at(j);
                    assert(after.pawn_ids_distinct()) by {
                        assert forall|a: int, b: int|
                            0 <= a < b < after.pawns.len() implies after.pawns[a].entity
                            != after.pawns[b].entity by {
                            assert(self.pawns[a].entity != self.pawns[b].entity);
                        }
                    }
                    assert(after.pawns[i].entity == entity);
                    after.lemma_pawn_index_at(i);
                    if subject == entity {
                        assert(j == i);
                    } else {
                        assert(j != i);
                    }
                },
                None => {
                    after.lemma_pawn_index_at(i);
                },
            }
        }
    }

    /// Deferred changes that do not remove the pawn `entity` leave the pawn
    /// in the world, with the last status and the last order asked for it,
    /// and else as it was.
    pub proof fn lemma_apply_all_pawn(self, commands: Seq<Command>, entity: EntityRef)
        requires
            self.pawn_ids_distinct(),
            self.pawn_index(entity) is Some,
            !commands.contains(Command::Despawn { entity }),
        ensures
            self.apply_all(commands).pawn_ids_distinct(),
            self.apply_all(commands).pawn_index(entity) is Some,
            self.apply_all(commands).pawn_of(entity) == (PawnBundleModel {
                pawn_status: status_after(commands, entity, self.pawn_of(entity).pawn_status),
                work_order: order_after(commands, entity, self.pawn_of(entity).work_order),
                ..self.pawn_of(entity)
            }),
        decreases commands.len(),
    {
        if commands.len() > 0 {
            let earlier = commands.drop_last();
            assert(!earlier.contains(Command::Despawn { entity })) by {
                if earlier.contains(Command::Despawn { entity }) {
                    let i = choose|i: int|
                        0 <= i < earlier.len() && earlier[i] == (Command::Despawn { entity });
                    assert(commands[i] == (Command::Despawn { entity }));
                }
            }
            assert(commands.last() != (Command::Despawn { entity })) by {
                assert(commands[commands.len() - 1] == commands.last());
            }
            self.lemma_apply_all_pawn(earlier, entity);
            self.apply_all(earlier).lemma_apply_pawn(commands.last(), entity);
        }
    }

    /// When the phase ends, a pawn whose removal was not asked for is in
    /// the world, with the last status and the last order asked for it, and
    /// else as it was.
    pub proof fn lemma_flush_pawn(self, entity: EntityRef)
        requires
            self.pawn_ids_distinct(),
            self.pawn_index(entity) is Some,
            !self.despawn_pending(entity),
        ensures
            self.flushed().pawn_index(entity) is Some,
            self.flushed().pawn_of(entity) == (PawnBundleModel {
                pawn_status: status_after(self.commands, entity, self.pawn_of(entity).pawn_status),
                work_order: order_after(self.commands, entity, self.pawn_of(entity).work_order),
                ..self.pawn_of(entity)
            }),
    {
        self.lemma_apply_all_pawn(self.commands, entity);
        let applied = self.apply_all(self.commands);
        applied.lemma_pawn_index(entity);
        let i = applied.pawn_index(entity)->Some_0;
        assert(self.flushed().is_first_pawn(i, entity));
        let found = choose|j: int| self.flushed().is_first_pawn(j, entity);
        assert(self.flushed().is_first_pawn(found, entity));
        assert(applied.is_first_pawn(found, entity));
        if found < i {
            assert(applied.pawns[found].entity != entity);
        } else if i < found {
            assert(self.flushed().pawns[i].entity != entity);
        }
    }
}

} // verus!
