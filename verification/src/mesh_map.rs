//! The life of a drawing's mesh: made when the drawing is first loaded,
//! made anew when the drawing changes, dropped when the drawing goes.
//!
//! The meshes themselves are kept by whoever renders them, under the
//! identity of the drawing. Here is decided what an event asks of that
//! keeper.

use vstd::prelude::*;

verus! {

/// What happened to a drawing.
#[derive(Clone, Copy, Debug, PartialEq, Eq, Structural)]
pub enum AssetEvent {
    Created,
    Modified,
    Removed,
}

/// What to do with the mesh of a drawing.
#[derive(Clone, Copy, Debug, PartialEq, Eq, Structural)]
pub enum MeshAction {
    /// Generate the mesh, store it, and record it under the drawing.
    Insert,
    /// Generate the mesh and put it in the place of the recorded one.
    Replace,
    /// Forget the record and drop the mesh it named.
    Remove,
    /// Nothing is recorded and nothing is to be done.
    Nothing,
}

/// The action that an event asks for, given whether a mesh is recorded
/// under the drawing.
pub open spec fn spec_mesh_action(event: AssetEvent, recorded: bool) -> MeshAction {
    match event {
        AssetEvent::Created => MeshAction::Insert,
        AssetEvent::Modified => MeshAction::Replace,
        AssetEvent::Removed => if recorded {
            MeshAction::Remove
        } else {
            MeshAction::Nothing
        },
    }
}

/// Whether a mesh is recorded under the drawing once the action is done.
pub open spec fn spec_recorded_after(action: MeshAction) -> bool {
    action is Insert || action is Replace
}

/// Decides what an event asks for. A drawing can only change while a mesh
/// is recorded under it.
pub fn mesh_action(event: AssetEvent, recorded: bool) -> (action: MeshAction)
    requires
        event is Modified ==> recorded,
    ensures
        action == spec_mesh_action(event, recorded),
{
    match event {
        AssetEvent::Created => MeshAction::Insert,
        AssetEvent::Modified => MeshAction::Replace,
        AssetEvent::Removed => if recorded {
            MeshAction::Remove
        } else {
            MeshAction::Nothing
        },
    }
}

/// Whether a mesh is recorded once the action is done.
pub fn recorded_after(action: MeshAction) -> (recorded: bool)
    ensures
        recorded == spec_recorded_after(action),
{
    match action {
        MeshAction::Insert => true,
        MeshAction::Replace => true,
        MeshAction::Remove => false,
        MeshAction::Nothing => false,
    }
}

/// Through any events that respect the order of a drawing's life, a mesh is
/// recorded exactly from the drawing's creation to its removal: a mesh is
/// only ever replaced where one is recorded, and only ever removed once.
pub proof fn lemma_mesh_lifecycle(event: AssetEvent, recorded: bool)
    requires
        event is Modified ==> recorded,
    ensures
        spec_recorded_after(spec_mesh_action(event, recorded)) == !(event is Removed),
        spec_mesh_action(event, recorded) is Replace ==> recorded,
        spec_mesh_action(event, recorded) is Remove ==> recorded,
        spec_mesh_action(AssetEvent::Removed, spec_recorded_after(spec_mesh_action(event, recorded)))
            is Remove <==> !(event is Removed),
{
}

} // verus!
