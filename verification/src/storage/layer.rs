//! Container layers on block devices: what it takes to make an image of a mount and
//! to plug it into the guest.

use crate::order::{comes_before, lemma_comes_before};
use crate::text::{concat, concat3};
use vstd::prelude::*;

verus! {

/// How a bound source reaches a guest that shares no directory.
#[derive(Clone, Copy, Debug, PartialEq, Eq, Structural)]
pub enum BindWay {
    /// Its content is written into a file of the guest.
    PushFile,
    /// It is copied into an image.
    MakeImage,
}

/// How a bound source reaches a guest that shares no directory.
pub fn bind_way(is_file: bool) -> (r: BindWay)
    ensures
        r == (if is_file {
            BindWay::PushFile
        } else {
            BindWay::MakeImage
        }),
{
    if is_file {
        BindWay::PushFile
    } else {
        BindWay::MakeImage
    }
}

/// Where the layers of a container are mounted on the host while they are copied.
pub fn overlay_dir(base_dir: &str, storage_id: &str) -> (r: String)
    ensures
        r@ == base_dir@ + "/overlay-"@ + storage_id@,
{
    concat3(base_dir, "/overlay-", storage_id)
}

/// Where a path below the shared directory of a sandbox is found on the host.
pub fn shared_dest(shared_path: &str, storage_id: &str) -> (r: String)
    ensures
        r@ == shared_path@ + "/"@ + storage_id@,
{
    let mut r = concat(shared_path, "/");
    r.append(storage_id);
    r
}

/// A step of plugging an image into the guest.
#[derive(Clone, Copy, Debug, PartialEq, Eq, Structural)]
pub enum LayerStep {
    /// Mount the layers on the host.
    MountOverlay,
    /// Make an empty image that is large enough.
    MakeImage,
    /// Copy the files into it.
    FillImage,
    /// Unmount the layers, and remove the directory for them. That this fails changes
    /// nothing.
    UnmountOverlay,
    /// Plug the image in.
    HotAttach,
}

/// What is undone where a step fails.
#[derive(Clone, Copy, Debug, PartialEq, Eq, Structural)]
pub enum LayerUndo {
    UnmountOverlay,
    RemoveImage,
}

/// The steps of plugging in an image, of the layers of a container or of a directory.
pub open spec fn layer_plan(overlay: bool) -> Seq<LayerStep> {
    if overlay {
        seq![
            LayerStep::MountOverlay,
            LayerStep::MakeImage,
            LayerStep::FillImage,
            LayerStep::UnmountOverlay,
            LayerStep::HotAttach,
        ]
    } else {
        seq![LayerStep::MakeImage, LayerStep::FillImage, LayerStep::HotAttach]
    }
}

/// The steps of plugging in an image, in order. Once all are done the storage is kept.
pub fn layer_steps(overlay: bool) -> (r: Vec<LayerStep>)
    ensures
        r@ == layer_plan(overlay),
{
    let mut steps: Vec<LayerStep> = Vec::new();
    if overlay {
        steps.push(LayerStep::MountOverlay);
    }
    steps.push(LayerStep::MakeImage);
    steps.push(LayerStep::FillImage);
    if overlay {
        steps.push(LayerStep::UnmountOverlay);
    }
    steps.push(LayerStep::HotAttach);
    assert(steps@ =~= layer_plan(overlay));
    steps
}

/// An image is plugged in only once it was made and filled; the layers of a container are
/// mounted on the host before it is made, and unmounted between filling and plugging it in.
pub proof fn lemma_image_is_plugged_in_order(overlay: bool)
    ensures
        ({
            let plan = layer_plan(overlay);
            &&& plan.no_duplicates()
            &&& comes_before(plan, LayerStep::MakeImage, LayerStep::FillImage)
            &&& comes_before(plan, LayerStep::FillImage, LayerStep::HotAttach)
            &&& overlay ==> comes_before(plan, LayerStep::MountOverlay, LayerStep::MakeImage)
            &&& overlay ==> comes_before(plan, LayerStep::FillImage, LayerStep::UnmountOverlay)
            &&& overlay ==> comes_before(plan, LayerStep::UnmountOverlay, LayerStep::HotAttach)
            &&& plan.contains(LayerStep::MountOverlay) <==> overlay
            &&& plan.contains(LayerStep::UnmountOverlay) <==> overlay
        }),
{
    let plan = layer_plan(overlay);
    if overlay {
        assert(plan =~= seq![
            LayerStep::MountOverlay,
            LayerStep::MakeImage,
            LayerStep::FillImage,
            LayerStep::UnmountOverlay,
            LayerStep::HotAttach,
        ]);
        lemma_comes_before(plan, 1, 2);
        lemma_comes_before(plan, 2, 4);
        lemma_comes_before(plan, 0, 1);
        lemma_comes_before(plan, 2, 3);
        lemma_comes_before(plan, 3, 4);
        assert(plan[0] == LayerStep::MountOverlay);
        assert(plan[3] == LayerStep::UnmountOverlay);
    } else {
        assert(plan =~= seq![LayerStep::MakeImage, LayerStep::FillImage, LayerStep::HotAttach]);
        lemma_comes_before(plan, 0, 1);
        lemma_comes_before(plan, 1, 2);
    }
}

/// Whether plugging in ends where a step fails.
pub open spec fn ends_layer(step: LayerStep) -> bool {
    !(step is UnmountOverlay)
}

/// Whether plugging in ends where a step fails.
pub fn fails_layer(step: LayerStep) -> (r: bool)
    ensures
        r == ends_layer(step),
{
    !matches!(step, LayerStep::UnmountOverlay)
}

/// What is undone where a step fails, in order.
pub open spec fn layer_cleanup(overlay: bool, step: LayerStep) -> Seq<LayerUndo> {
    match step {
        LayerStep::MountOverlay | LayerStep::UnmountOverlay => Seq::empty(),
        LayerStep::MakeImage | LayerStep::FillImage => if overlay {
            seq![LayerUndo::UnmountOverlay, LayerUndo::RemoveImage]
        } else {
            seq![LayerUndo::RemoveImage]
        },
        LayerStep::HotAttach => seq![LayerUndo::RemoveImage],
    }
}

/// What is undone where a step fails, in order.
pub fn after_failed_layer(overlay: bool, step: LayerStep) -> (r: Vec<LayerUndo>)
    ensures
        r@ == layer_cleanup(overlay, step),
{
    let mut undo: Vec<LayerUndo> = Vec::new();
    match step {
        LayerStep::MountOverlay | LayerStep::UnmountOverlay => {},
        LayerStep::MakeImage | LayerStep::FillImage => {
            if overlay {
                undo.push(LayerUndo::UnmountOverlay);
            }
            undo.push(LayerUndo::RemoveImage);
        },
        LayerStep::HotAttach => {
            undo.push(LayerUndo::RemoveImage);
        },
    }
    assert(undo@ =~= layer_cleanup(overlay, step));
    undo
}

/// Exactly what is there is undone: the image from the step on that makes it, and before it
/// the layers, where they are mounted then. Unmounting them too late ends nothing.
pub proof fn lemma_failed_layer_is_cleared_away(overlay: bool, step: LayerStep)
    ensures
        ({
            let undo = layer_cleanup(overlay, step);
            &&& undo.no_duplicates()
            &&& undo.contains(LayerUndo::RemoveImage) <==> step is MakeImage || step is FillImage
                || step is HotAttach
            &&& undo.contains(LayerUndo::UnmountOverlay) <==> overlay && (step is MakeImage || step
                is FillImage)
            &&& overlay && (step is MakeImage || step is FillImage) ==> comes_before(
                undo,
                LayerUndo::UnmountOverlay,
                LayerUndo::RemoveImage,
            )
            &&& ends_layer(step) <==> !(step is UnmountOverlay)
        }),
{
    let undo = layer_cleanup(overlay, step);
    if step is MakeImage || step is FillImage || step is HotAttach {
        assert(undo.last() == LayerUndo::RemoveImage);
    }
    if overlay && (step is MakeImage || step is FillImage) {
        lemma_comes_before(undo, 0, 1);
    }
}

/// Whether a step was among the first `i`.
pub open spec fn was_done(overlay: bool, i: int, step: LayerStep) -> bool {
    exists|k: int| 0 <= k < i && #[trigger] layer_plan(overlay)[k] == step
}

/// Whatever step an attempt to plug in an image ends with, no image is left behind,
/// and layers that were mounted on the host were unmounted before or are unmounted
/// then.
pub proof fn lemma_failed_layer_leaves_nothing(overlay: bool, i: int)
    requires
        0 <= i < layer_plan(overlay).len(),
        ends_layer(layer_plan(overlay)[i]),
    ensures
        layer_plan(overlay)[i] is MakeImage || was_done(overlay, i, LayerStep::MakeImage)
            ==> layer_cleanup(overlay, layer_plan(overlay)[i]).contains(LayerUndo::RemoveImage),
        was_done(overlay, i, LayerStep::MountOverlay) ==> was_done(
            overlay,
            i,
            LayerStep::UnmountOverlay,
        ) || layer_cleanup(overlay, layer_plan(overlay)[i]).contains(LayerUndo::UnmountOverlay),
{
    let plan = layer_plan(overlay);
    let undo = layer_cleanup(overlay, plan[i]);
    if !(plan[i] is MountOverlay) {
        assert(undo[undo.len() - 1] is RemoveImage);
    }
    if overlay && (plan[i] is MakeImage || plan[i] is FillImage) {
        assert(undo[0] is UnmountOverlay);
    }
    if overlay && plan[i] is HotAttach {
        assert(plan[3] is UnmountOverlay);
        assert(was_done(overlay, i, LayerStep::UnmountOverlay));
    }
}

} // verus!
