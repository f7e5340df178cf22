use vstd::prelude::*;

use crate::error_code::{stored_message, LastErrorMessage, WrapperErrorCode};
use crate::ids::{ClipId, LayerId, TimelineId};
use crate::model::{ClipRecord, LayerRecord, ProjectModel, TimelineModel};

verus! {

/// Why a clip of a layer could not be given.
#[derive(Clone, Copy, Debug, PartialEq, Eq, Structural)]
pub enum ClipLookupError {
    /// The layer has no clip slot there (the index, as a signed number).
    ClipNotFoundAt(i64),
    /// The layer names a clip that the timeline does not hold.
    ClipNotFound(ClipId),
}

/// Which timeline a frame of timeline `timeline_id` is drawn from, before
/// the GPU renders it: its index in the project. Without a project the
/// status is `NotFound` with the message "project not found"; without such
/// a timeline, `NotFound` with "timeline not found".
pub fn render_frame_source(
    slot: &mut LastErrorMessage,
    project: Option<&ProjectModel>,
    timeline_id: TimelineId,
) -> (r: Result<usize, WrapperErrorCode>)
    ensures
        project is None ==> r == Err::<usize, WrapperErrorCode>(WrapperErrorCode::NotFound)
            && final(slot).text@ == stored_message(Some("project not found"@)),
        project matches Some(p) ==> match p.timeline_index(timeline_id) {
            None => r == Err::<usize, WrapperErrorCode>(WrapperErrorCode::NotFound) && final(slot).text@
                == stored_message(Some("timeline not found"@)),
            Some(i) => r == Ok::<usize, WrapperErrorCode>(i as usize) && *final(slot) == *old(slot),
        },
{
    let p = match project {
        Some(p) => p,
        None => {
            return Err(WrapperErrorCode::not_found(slot, Some("project not found")));
        },
    };
    match p.find_timeline(timeline_id) {
        Some(i) => Ok(i),
        None => Err(WrapperErrorCode::not_found(slot, Some("timeline not found"))),
    }
}

/// Finds clip `clip_id` of the timeline with the layer it lies on. A missing
/// clip gives `NotFound` with the message "clip not found".
pub fn timeline_find_clip_by_id(
    slot: &mut LastErrorMessage,
    timeline: &TimelineModel,
    clip_id: ClipId,
) -> (r: (WrapperErrorCode, Option<(ClipRecord, LayerId)>))
    ensures
        match timeline.clip_spec(clip_id) {
            Some(c) => r.0 == WrapperErrorCode::Success && r.1 == Some((c, c.layer_id))
                && final(slot).text@ == Seq::<char>::empty(),
            None => r.0 == WrapperErrorCode::NotFound && r.1 is None && final(slot).text@
                == stored_message(Some("clip not found"@)),
        },
{
    match timeline.find_clip(clip_id) {
        Some(i) => {
            let c = timeline.clips[i];
            (WrapperErrorCode::ok(slot), Some((c, c.layer_id)))
        },
        None => {
            let code = WrapperErrorCode::not_found(slot, Some("clip not found"));
            proof {
                reveal_strlit("clip not found");
            }
            (code, None)
        },
    }
}

/// The number of layers in the execution order.
pub fn timeline_get_layers_count(timeline: &TimelineModel) -> (r: usize)
    ensures
        r == timeline.execution_order@.len(),
{
    timeline.execution_order.len()
}

/// The id of the layer at `index` of the execution order, 0 past its end.
pub fn timeline_get_layer_id_at_execution_index(timeline: &TimelineModel, index: usize) -> (r: LayerId)
    ensures
        r == if index < timeline.execution_order@.len() {
            timeline.execution_order@[index as int]
        } else {
            0u64
        },
{
    if index < timeline.execution_order.len() {
        timeline.execution_order[index]
    } else {
        0
    }
}

/// Where the layer at `index` of the execution order stands among the
/// timeline's layers; `None` past the end of the order or where the
/// timeline lacks that layer.
pub fn timeline_get_layer_by_execution_index(timeline: &TimelineModel, index: usize) -> (r: Option<usize>)
    ensures
        match r {
            Some(i) => index < timeline.execution_order@.len() && Some(i as int) == timeline.layer_index(
                timeline.execution_order@[index as int],
            ) && i < timeline.layers@.len(),
            None => index >= timeline.execution_order@.len() || timeline.layer_index(
                timeline.execution_order@[index as int],
            ) is None,
        },
{
    if index < timeline.execution_order.len() {
        timeline.find_layer(timeline.execution_order[index])
    } else {
        None
    }
}

/// The clip in slot `index` of the layer (slots go by position).
pub fn layer_get_clip_at_index(layer: &LayerRecord, timeline: &TimelineModel, index: usize) -> (r:
    Result<ClipRecord, ClipLookupError>)
    ensures
        index >= layer.clips@.len() ==> r == Err::<ClipRecord, ClipLookupError>(
            ClipLookupError::ClipNotFoundAt(index as i64),
        ),
        index < layer.clips@.len() ==> match timeline.clip_spec(layer.clips@[index as int].1) {
            Some(c) => r == Ok::<ClipRecord, ClipLookupError>(c),
            None => r == Err::<ClipRecord, ClipLookupError>(
                ClipLookupError::ClipNotFound(layer.clips@[index as int].1),
            ),
        },
{
    if index >= layer.clips.len() {
        return Err(ClipLookupError::ClipNotFoundAt(#[verifier::truncate] (index as i64)));
    }
    let id = layer.clips[index].1;
    match timeline.find_clip(id) {
        Some(i) => Ok(timeline.clips[i]),
        None => Err(ClipLookupError::ClipNotFound(id)),
    }
}

} // verus!
