use vstd::prelude::*;

use crate::error_code::{stored_message, LastErrorMessage, WrapperErrorCode};
use crate::ffi_string::{lossy_text, StringView};
use crate::ids::{ClipId, LayerFolderId, LayerId, TimelineId, TimelineTick};
use crate::model::{index_of, index_of_from, HostError, ProjectModel, TimelineModel};
use crate::cxxqt_value::ClipBindingValue;

verus! {

/// Where a client asks a clip to move: new position, new duration, new layer.
#[derive(Clone, Copy, Debug, PartialEq, Eq, Structural)]
pub struct ClipMoveCtx {
    pub clip_id: ClipId,
    pub new_position: TimelineTick,
    pub new_duration: TimelineTick,
    pub new_layer_id: LayerId,
}

/// The placement of a clip in the scene: its position, rotation and scale,
/// each on three axes, as the bits of IEEE 754 doubles.
#[derive(Clone, Copy, Debug)]
pub struct ClipTranslate {
    pub position: [u64; 3],
    pub rotation: [u64; 3],
    pub scale: [u64; 3],
}

/// A command a client asks the server to perform on a timeline.
pub enum CommandRequest {
    ClipsMove { clips: Vec<ClipMoveCtx> },
    AddClip {
        layer_id: LayerId,
        position: TimelineTick,
        duration: TimelineTick,
        kind_id: String,
        properties: Vec<(String, ClipBindingValue)>,
        translate: ClipTranslate,
    },
    AddLayer { parent_folder_id: Option<LayerFolderId>, insert_index: Option<usize>, name: String },
    AddFolder { parent_folder_id: Option<LayerFolderId>, insert_index: Option<usize>, name: String },
}

/// The commands a client has queued, each for a timeline, in the order queued.
pub struct CommandQueue {
    pub pending: Vec<(TimelineId, CommandRequest)>,
}

impl CommandQueue {
    pub fn new() -> (r: Self)
        ensures
            r.pending@.len() == 0,
    {
        CommandQueue { pending: Vec::new() }
    }

    /// Queues `command` for timeline `timeline_id`, after the others.
    pub fn enqueue(&mut self, timeline_id: TimelineId, command: CommandRequest)
        ensures
            final(self).pending@ == old(self).pending@.push((timeline_id, command)),
    {
        self.pending.push((timeline_id, command));
    }

    /// Takes every queued command, to be sent in one request; `None` when
    /// nothing is queued. The queue is empty afterwards.
    pub fn send_all(&mut self) -> (r: Option<Vec<(TimelineId, CommandRequest)>>)
        ensures
            final(self).pending@.len() == 0,
            old(self).pending@.len() == 0 ==> r is None,
            old(self).pending@.len() > 0 ==> (r matches Some(batch) && batch@ == old(
                self,
            ).pending@),
    {
        if self.pending.len() == 0 {
            return None;
        }
        let mut batch: Vec<(TimelineId, CommandRequest)> = Vec::new();
        std::mem::swap(&mut batch, &mut self.pending);
        Some(batch)
    }
}

/// Where clip `id` of the timeline goes when it moves by `layer_moved`
/// places in the execution order and by `position_moved` and
/// `duration_added` ticks; `None` when the timeline lacks the clip, its
/// layer is not in the execution order, or the new place is outside it.
pub open spec fn clip_move_for(
    tl: TimelineModel,
    id: ClipId,
    position_moved: int,
    duration_added: int,
    layer_moved: int,
) -> Option<ClipMoveCtx> {
    match tl.clip_spec(id) {
        None => None,
        Some(c) => match index_of(tl.execution_order@, c.layer_id) {
            None => None,
            Some(cur) => {
                let ni = cur + layer_moved;
                if 0 <= ni < tl.execution_order@.len() {
                    Some(
                        ClipMoveCtx {
                            clip_id: id,
                            new_position: (c.position + position_moved) as i64,
                            new_duration: (c.duration + duration_added) as i64,
                            new_layer_id: tl.execution_order@[ni],
                        },
                    )
                } else {
                    None
                }
            },
        },
    }
}

/// The moves of the clips of `ids`, in order, skipping those that cannot move.
pub open spec fn clip_moves_spec(
    tl: TimelineModel,
    ids: Seq<ClipId>,
    position_moved: int,
    duration_added: int,
    layer_moved: int,
) -> Seq<ClipMoveCtx>
    decreases ids.len(),
{
    if ids.len() == 0 {
        seq![]
    } else {
        let prev = clip_moves_spec(tl, ids.drop_last(), position_moved, duration_added, layer_moved);
        match clip_move_for(tl, ids.last(), position_moved, duration_added, layer_moved) {
            Some(m) => prev.push(m),
            None => prev,
        }
    }
}

/// The clip `id` of the timeline moves: the timeline holds it, its layer is
/// in the execution order, and the order has a layer `layer_moved` places away.
pub open spec fn moves(tl: TimelineModel, id: ClipId, layer_moved: int) -> bool {
    tl.clip_spec(id) matches Some(c) && index_of(tl.execution_order@, c.layer_id) matches Some(cur)
        && 0 <= cur + layer_moved < tl.execution_order@.len()
}

/// For every clip of `ids` that moves, the new position and the new duration
/// fit in an `i64`.
pub open spec fn moves_fit(
    tl: TimelineModel,
    ids: Seq<ClipId>,
    position_moved: int,
    duration_added: int,
    layer_moved: int,
) -> bool {
    forall|k: int|
        0 <= k < ids.len() && #[trigger] moves(tl, ids[k], layer_moved) ==> {
            let c = tl.clip_spec(ids[k])->0;
            &&& i64::MIN <= c.position + position_moved <= i64::MAX
            &&& i64::MIN <= c.duration + duration_added <= i64::MAX
        }
}

fn find_in_order(order: &Vec<LayerId>, id: LayerId) -> (r: Option<usize>)
    ensures
        r matches Some(i) ==> Some(i as int) == index_of(order@, id) && i < order@.len(),
        r is None ==> index_of(order@, id) is None,
{
    let mut k: usize = 0;
    while k < order.len()
        invariant
            k <= order@.len(),
            index_of(order@, id) == index_of_from(order@, id, k as int),
        decreases order@.len() - k,
    {
        if order[k] == id {
            return Some(k);
        }
        k = k + 1;
    }
    None
}

/// The moves of the given clips: each clip that the timeline holds, whose
/// layer is in the execution order, and whose layer moved by `layer_moved`
/// places is still in it, gets its position and duration shifted and the
/// layer at the new place.
pub fn plan_clip_moves(
    tl: &TimelineModel,
    clip_ids: &Vec<ClipId>,
    position_moved: i64,
    duration_added: i64,
    layer_moved: isize,
) -> (r: Vec<ClipMoveCtx>)
    requires
        moves_fit(*tl, clip_ids@, position_moved as int, duration_added as int, layer_moved as int),
    ensures
        r@ == clip_moves_spec(
            *tl,
            clip_ids@,
            position_moved as int,
            duration_added as int,
            layer_moved as int,
        ),
{
    let mut r: Vec<ClipMoveCtx> = Vec::new();
    let mut k: usize = 0;
    while k < clip_ids.len()
        invariant
            k <= clip_ids@.len(),
            moves_fit(*tl, clip_ids@, position_moved as int, duration_added as int, layer_moved as int),
            r@ == clip_moves_spec(
                *tl,
                clip_ids@.take(k as int),
                position_moved as int,
                duration_added as int,
                layer_moved as int,
            ),
        decreases clip_ids@.len() - k,
    {
        proof {
            assert(clip_ids@.take(k + 1).drop_last() =~= clip_ids@.take(k as int));
            assert(clip_ids@.take(k + 1).last() == clip_ids@[k as int]);
        }
        let clip_id = clip_ids[k];
        match tl.find_clip(clip_id) {
            None => {},
            Some(ci) => {
                let clip = tl.clips[ci];
                proof {
                    assert(tl.clip_ids()[ci as int] == clip.id);
                    assert(tl.clip_spec(clip_ids@[k as int]) == Some(clip));
                }
                match find_in_order(&tl.execution_order, clip.layer_id) {
                    None => {},
                    Some(cur) => {
                        let ni: i128 = cur as i128 + layer_moved as i128;
                        if 0 <= ni && ni < tl.execution_order.len() as i128 {
                            proof {
                                assert(moves(*tl, clip_ids@[k as int], layer_moved as int));
                            }
                            let new_layer_id = tl.execution_order[ni as usize];
                            r.push(
                                ClipMoveCtx {
                                    clip_id,
                                    new_position: clip.position + position_moved,
                                    new_duration: clip.duration + duration_added,
                                    new_layer_id,
                                },
                            );
                        }
                    },
                }
            },
        }
        k = k + 1;
    }
    proof {
        assert(clip_ids@.take(k as int) =~= clip_ids@);
    }
    r
}

/// `after` is `before` with one more command at the end: the moves `moves`
/// of timeline `t`.
/// Whether the moves stay within `i64` (see `moves_fit`), for a caller to
/// test before `plan_clip_moves` and `req_cmd_clip_move_mul`.
pub fn clip_moves_fit(
    tl: &TimelineModel,
    clip_ids: &Vec<ClipId>,
    position_moved: i64,
    duration_added: i64,
    layer_moved: isize,
) -> (r: bool)
    ensures
        r == moves_fit(*tl, clip_ids@, position_moved as int, duration_added as int, layer_moved as int),
{
    let mut k: usize = 0;
    while k < clip_ids.len()
        invariant
            k <= clip_ids@.len(),
            moves_fit(*tl, clip_ids@.take(k as int), position_moved as int, duration_added as int, layer_moved as int),
        decreases clip_ids@.len() - k,
    {
        let ghost pre = clip_ids@.take(k as int);
        let ghost next = clip_ids@.take(k + 1);
        proof {
            assert forall|j: int| 0 <= j < k implies next[j] == pre[j] by {}
            assert(next[k as int] == clip_ids@[k as int]);
        }
        let clip_id = clip_ids[k];
        if let Some(ci) = tl.find_clip(clip_id) {
            let clip = tl.clips[ci];
            proof {
                assert(tl.clip_ids()[ci as int] == clip.id);
            }
            if let Some(cur) = find_in_order(&tl.execution_order, clip.layer_id) {
                let ni: i128 = cur as i128 + layer_moved as i128;
                if 0 <= ni && ni < tl.execution_order.len() as i128 {
                    let p: i128 = clip.position as i128 + position_moved as i128;
                    let d: i128 = clip.duration as i128 + duration_added as i128;
                    if p < i64::MIN as i128 || p > i64::MAX as i128 || d < i64::MIN as i128 || d > i64::MAX as i128 {
                        proof {
                            assert(moves(*tl, clip_ids@[k as int], layer_moved as int));
                        }
                        return false;
                    }
                }
            }
        }
        proof {
            assert forall|j: int| 0 <= j < k + 1 && #[trigger] moves(*tl, next[j], layer_moved as int) implies {
                let c = tl.clip_spec(next[j])->0;
                &&& i64::MIN <= c.position + position_moved <= i64::MAX
                &&& i64::MIN <= c.duration + duration_added <= i64::MAX
            } by {
                if j < k {
                    assert(moves(*tl, pre[j], layer_moved as int));
                }
            }
        }
        k = k + 1;
    }
    proof {
        assert(clip_ids@.take(k as int) =~= clip_ids@);
    }
    true
}

pub open spec fn moves_queued(
    before: Seq<(TimelineId, CommandRequest)>,
    after: Seq<(TimelineId, CommandRequest)>,
    t: TimelineId,
    moves: Seq<ClipMoveCtx>,
) -> bool {
    &&& after.len() == before.len() + 1
    &&& after.drop_last() == before
    &&& after.last().0 == t
    &&& after.last().1 matches CommandRequest::ClipsMove { clips } && clips@ == moves
}

/// Queues the moves of the given clips on timeline `timeline_id` (see
/// `plan_clip_moves`) as one command. Without a project, or without the
/// timeline, nothing is queued and the code is `NotFound`.
pub fn req_cmd_clip_move_mul(
    queue: &mut CommandQueue,
    slot: &mut LastErrorMessage,
    project: Option<&ProjectModel>,
    timeline_id: TimelineId,
    clip_ids: &Vec<ClipId>,
    position_moved: i64,
    duration_added: i64,
    layer_moved: isize,
) -> (r: WrapperErrorCode)
    requires
        project matches Some(p) ==> (p.timeline_index(timeline_id) matches Some(i) ==> moves_fit(
            p.timelines@[i],
            clip_ids@,
            position_moved as int,
            duration_added as int,
            layer_moved as int,
        )),
    ensures
        project is None ==> r == WrapperErrorCode::NotFound && final(queue).pending@ == old(
            queue,
        ).pending@ && final(slot).text@ == stored_message(Some("project not found"@)),
        project matches Some(p) ==> match p.timeline_index(timeline_id) {
            None => r == WrapperErrorCode::NotFound && final(queue).pending@ == old(queue).pending@
                && final(slot).text@ == stored_message(Some("timeline not found"@)),
            Some(i) => r == WrapperErrorCode::Success && final(slot).text@ == Seq::<char>::empty()
                && moves_queued(
                old(queue).pending@,
                final(queue).pending@,
                timeline_id,
                clip_moves_spec(
                    p.timelines@[i],
                    clip_ids@,
                    position_moved as int,
                    duration_added as int,
                    layer_moved as int,
                ),
            ),
        },
{
    let p = match project {
        Some(p) => p,
        None => {
            return WrapperErrorCode::not_found(slot, Some("project not found"));
        },
    };
    let ti = match p.find_timeline(timeline_id) {
        Some(i) => i,
        None => {
            return WrapperErrorCode::not_found(slot, Some("timeline not found"));
        },
    };
    let clips = plan_clip_moves(
        &p.timelines[ti],
        clip_ids,
        position_moved,
        duration_added,
        layer_moved,
    );
    let ghost before = queue.pending@;
    queue.enqueue(timeline_id, CommandRequest::ClipsMove { clips });
    proof {
        assert(queue.pending@.drop_last() =~= before);
    }
    WrapperErrorCode::ok(slot)
}

/// The optional value that a flag and a value stand for.
pub fn flag_then(flag: bool, value: u64) -> (r: Option<u64>)
    ensures
        r == if flag {
            Some(value)
        } else {
            None::<u64>
        },
{
    if flag {
        Some(value)
    } else {
        None
    }
}

/// The kind of clip that `req_cmd_add_clip_dummy` adds.
pub open spec fn dummy_clip_kind() -> Seq<char> {
    seq!['s', 't', 'd', ':', 'v', 'i', 'd', 'e', 'o']
}

/// The length, in ticks, of the clip that `req_cmd_add_clip_dummy` adds.
pub const DUMMY_CLIP_DURATION: TimelineTick = 10000;

/// The placement of the clip that `req_cmd_add_clip_dummy` adds: at
/// (-100, -100, 0), not rotated, scaled by (400, 300, 1).
pub open spec fn dummy_clip_translate() -> ClipTranslate {
    ClipTranslate {
        position: [0xC059_0000_0000_0000u64, 0xC059_0000_0000_0000u64, 0u64],
        rotation: [0u64, 0u64, 0u64],
        scale: [0x4079_0000_0000_0000u64, 0x4072_C000_0000_0000u64, 0x3FF0_0000_0000_0000u64],
    }
}

/// `c` adds the clip of `req_cmd_add_clip_dummy` at `position` on layer
/// `layer_id`, with the properties `props`.
pub open spec fn is_dummy_clip(
    c: CommandRequest,
    layer_id: LayerId,
    position: TimelineTick,
    props: Vec<(String, ClipBindingValue)>,
) -> bool {
    c matches CommandRequest::AddClip { layer_id: l, position: p, duration: d, kind_id: k, properties: ps, translate: t }
        && l == layer_id && p == position && d == DUMMY_CLIP_DURATION && k@ == dummy_clip_kind()
        && ps == props && t == dummy_clip_translate()
}

/// Why a clip could not be queued.
pub enum AddClipError {
    /// No plugin offers the clip kind with this id.
    ClipKindNotFound(String),
}

/// Queues adding a video clip of `DUMMY_CLIP_DURATION` ticks at `position`
/// on layer `layer_id`, placed as `dummy_clip_translate` says, with its
/// kind's default properties. `default_properties` is what the plugins offer
/// for the kind "std:video", `None` when none offers it: then nothing is
/// queued and the error names the kind.
pub fn req_cmd_add_clip_dummy(
    queue: &mut CommandQueue,
    timeline_id: TimelineId,
    position: TimelineTick,
    layer_id: LayerId,
    default_properties: Option<Vec<(String, ClipBindingValue)>>,
) -> (r: Result<(), AddClipError>)
    ensures
        r is Ok <==> default_properties is Some,
        r matches Err(AddClipError::ClipKindNotFound(k)) ==> k@ == dummy_clip_kind()
            && final(queue).pending@ == old(queue).pending@,
        default_properties matches Some(props) ==> final(queue).pending@.len() == old(queue).pending@.len()
            + 1 && final(queue).pending@.drop_last() == old(queue).pending@
            && final(queue).pending@.last().0 == timeline_id && is_dummy_clip(
            final(queue).pending@.last().1,
            layer_id,
            position,
            props,
        ),
{
    let kind_id = "std:video";
    proof {
        reveal_strlit("std:video");
        assert(kind_id@ =~= dummy_clip_kind());
    }
    match default_properties {
        None => Err(AddClipError::ClipKindNotFound(kind_id.to_owned())),
        Some(properties) => {
            let translate = ClipTranslate {
                position: [0xC059_0000_0000_0000u64, 0xC059_0000_0000_0000u64, 0u64],
                rotation: [0u64, 0u64, 0u64],
                scale: [0x4079_0000_0000_0000u64, 0x4072_C000_0000_0000u64, 0x3FF0_0000_0000_0000u64],
            };
            let command = CommandRequest::AddClip {
                layer_id,
                position,
                duration: DUMMY_CLIP_DURATION,
                kind_id: kind_id.to_owned(),
                properties,
                translate,
            };
            queue.enqueue(timeline_id, command);
            Ok(())
        },
    }
}

/// Queues adding a layer named by `name` (read lossily) under the given
/// parent folder and at the given index, each when its flag is set.
pub fn req_cmd_add_layer(
    queue: &mut CommandQueue,
    slot: &mut LastErrorMessage,
    timeline_id: TimelineId,
    has_parent: bool,
    parent_folder_id: LayerFolderId,
    has_insert_index: bool,
    insert_index: usize,
    name: &StringView,
) -> (r: WrapperErrorCode)
    ensures
        r == WrapperErrorCode::Success,
        final(slot).text@ == Seq::<char>::empty(),
        final(queue).pending@.len() == old(queue).pending@.len() + 1,
        final(queue).pending@.drop_last() == old(queue).pending@,
        final(queue).pending@.last().0 == timeline_id,
        final(queue).pending@.last().1 matches CommandRequest::AddLayer {
            parent_folder_id: p,
            insert_index: i,
            name: n,
        } && p == (if has_parent {
            Some(parent_folder_id)
        } else {
            None::<u64>
        }) && i == (if has_insert_index {
            Some(insert_index)
        } else {
            None::<usize>
        }) && n@ == lossy_text(name.data),
{
    let command = CommandRequest::AddLayer {
        parent_folder_id: flag_then(has_parent, parent_folder_id),
        insert_index: if has_insert_index {
            Some(insert_index)
        } else {
            None
        },
        name: name.as_string_lossy(),
    };
    queue.enqueue(timeline_id, command);
    WrapperErrorCode::ok(slot)
}

/// Queues adding a folder named by `name` (read lossily) under the given
/// parent folder and at the given index, each when its flag is set.
pub fn req_cmd_add_folder(
    queue: &mut CommandQueue,
    slot: &mut LastErrorMessage,
    timeline_id: TimelineId,
    has_parent: bool,
    parent_folder_id: LayerFolderId,
    has_insert_index: bool,
    insert_index: usize,
    name: &StringView,
) -> (r: WrapperErrorCode)
    ensures
        r == WrapperErrorCode::Success,
        final(slot).text@ == Seq::<char>::empty(),
        final(queue).pending@.len() == old(queue).pending@.len() + 1,
        final(queue).pending@.drop_last() == old(queue).pending@,
        final(queue).pending@.last().0 == timeline_id,
        final(queue).pending@.last().1 matches CommandRequest::AddFolder {
            parent_folder_id: p,
            insert_index: i,
            name: n,
        } && p == (if has_parent {
            Some(parent_folder_id)
        } else {
            None::<u64>
        }) && i == (if has_insert_index {
            Some(insert_index)
        } else {
            None::<usize>
        }) && n@ == lossy_text(name.data),
{
    let command = CommandRequest::AddFolder {
        parent_folder_id: flag_then(has_parent, parent_folder_id),
        insert_index: if has_insert_index {
            Some(insert_index)
        } else {
            None
        },
        name: name.as_string_lossy(),
    };
    queue.enqueue(timeline_id, command);
    WrapperErrorCode::ok(slot)
}

/// What the server records of a clip move, to be able to undo it.
#[derive(Clone, Copy, Debug, PartialEq, Eq, Structural)]
pub struct ClipMoveHistoryCtx {
    pub clip_id: ClipId,
    pub old_position: TimelineTick,
    pub old_duration: TimelineTick,
    pub old_layer_id: LayerId,
    pub new_position: TimelineTick,
    pub new_duration: TimelineTick,
    pub new_layer_id: LayerId,
}

/// The history entry of one requested move: the clip's present place
/// beside the requested one.
pub open spec fn history_entry(c: crate::model::ClipRecord, m: ClipMoveCtx) -> ClipMoveHistoryCtx {
    ClipMoveHistoryCtx {
        clip_id: m.clip_id,
        old_position: c.position,
        old_duration: c.duration,
        old_layer_id: c.layer_id,
        new_position: m.new_position,
        new_duration: m.new_duration,
        new_layer_id: m.new_layer_id,
    }
}

/// Records, for each requested move, where the clip is now. Fails with
/// `InvalidTimeline` when the project lacks the timeline, and with
/// `ClipNotFound` for the first requested clip that the timeline lacks.
pub fn clips_move_history(
    project: &ProjectModel,
    timeline_id: TimelineId,
    clips: &Vec<ClipMoveCtx>,
) -> (r: Result<Vec<ClipMoveHistoryCtx>, HostError>)
    ensures
        project.timeline_index(timeline_id) is None ==> r == Err::<
            Vec<ClipMoveHistoryCtx>,
            HostError,
        >(HostError::InvalidTimeline),
        project.timeline_index(timeline_id) matches Some(ti) ==> ({
            let tl = project.timelines@[ti];
            match r {
                Ok(h) => h@.len() == clips@.len() && forall|k: int|
                    0 <= k < clips@.len() ==> ((#[trigger] tl.clip_spec(clips@[k].clip_id)) matches Some(c)
                        && h@[k] == history_entry(c, clips@[k])),
                Err(e) => exists|k: int|
                    0 <= k < clips@.len() && e == HostError::ClipNotFound(clips@[k].clip_id)
                        && #[trigger] tl.clip_spec(clips@[k].clip_id) is None && forall|j: int|
                        0 <= j < k ==> tl.clip_spec(clips@[j].clip_id) is Some,
            }
        }),
{
    let ti = match project.find_timeline(timeline_id) {
        Some(i) => i,
        None => {
            return Err(HostError::InvalidTimeline);
        },
    };
    let tl = &project.timelines[ti];
    let mut h: Vec<ClipMoveHistoryCtx> = Vec::new();
    let mut k: usize = 0;
    while k < clips.len()
        invariant
            k <= clips@.len(),
            ti < project.timelines@.len(),
            Some(ti as int) == project.timeline_index(timeline_id),
            *tl == project.timelines@[ti as int],
            h@.len() == k,
            forall|j: int|
                0 <= j < k ==> ((#[trigger] tl.clip_spec(clips@[j].clip_id)) matches Some(c) && h@[j]
                    == history_entry(c, clips@[j])),
        decreases clips@.len() - k,
    {
        let m = clips[k];
        match tl.find_clip(m.clip_id) {
            Some(ci) => {
                let c = tl.clips[ci];
                proof {
                    assert(tl.clip_ids()[ci as int] == c.id);
                }
                h.push(
                    ClipMoveHistoryCtx {
                        clip_id: m.clip_id,
                        old_position: c.position,
                        old_duration: c.duration,
                        old_layer_id: c.layer_id,
                        new_position: m.new_position,
                        new_duration: m.new_duration,
                        new_layer_id: m.new_layer_id,
                    },
                );
            },
            None => {
                proof {
                    assert(tl.clip_spec(clips@[k as int].clip_id) is None);
                    assert forall|j: int| 0 <= j < k implies tl.clip_spec(clips@[j].clip_id) is Some by {
                        assert(tl.clip_spec(clips@[j].clip_id) matches Some(c) && h@[j] == history_entry(c, clips@[j]));
                    }
                }
                return Err(HostError::ClipNotFound(m.clip_id));
            },
        }
        k = k + 1;
    }
    Ok(h)
}

} // verus!
