//! Load and convert different types of content files.

use vstd::prelude::*;

pub mod markdown;
pub mod ron;

verus! {

use crate::datalayer::{CommandBuffer, Component, Entity};

/// Request a marker component added to each of the listed entities.
///
/// This is a convenience operation body to mark multiple entities at once;
/// the insertions are buffered and committed with the rest of the batch.
pub fn mark_with(entities: &Vec<Entity>, marker: u32, commands: &mut CommandBuffer)
    ensures
        final(commands)@ =~= old(commands)@ + Seq::new(
            entities@.len(),
            |i: int| crate::world::CommandModel::Insert(
                entities@[i].0 as int,
                crate::world::ComponentModel::Marker(marker),
            ),
        ),
{
    let ghost tail = Seq::new(
        entities@.len(),
        |i: int| crate::world::CommandModel::Insert(
            entities@[i].0 as int,
            crate::world::ComponentModel::Marker(marker),
        ),
    );
    let mut i: usize = 0;
    while i < entities.len()
        invariant
            i <= entities@.len(),
            tail.len() == entities@.len(),
            forall|j: int| 0 <= j < entities@.len() ==> tail[j] == crate::world::CommandModel::Insert(
                entities@[j].0 as int,
                crate::world::ComponentModel::Marker(marker),
            ),
            commands@ =~= old(commands)@ + tail.take(i as int),
        decreases entities@.len() - i,
    {
        commands.insert(entities[i], Component::Marker(marker));
        proof {
            assert((old(commands)@ + tail.take(i as int)).push(tail[i as int]) =~= old(commands)@
                + tail.take(i + 1));
        }
        i = i + 1;
    }
    proof {
        assert(tail.take(entities@.len() as int) =~= tail);
    }
}

} // verus!
