use vstd::prelude::*;

use crate::ids::{ResourceId, TimelineId};
use crate::model::{HostError, ProjectModel};
use crate::client_views::ViewRange;
use crate::server::{loaded_id, loaded_ids, Request, ResourceTable};

verus! {

/// A message of the server to a client. The payloads that only the project
/// and media code read (clips, layer metadata, packets) stay with the caller.
pub enum Response {
    Test,
    /// The timelines of the project, `timeline_count` of them.
    ProjectMeta { timeline_count: usize },
    UpdateClip { timeline_id: TimelineId },
    RemoveClip { timeline_id: TimelineId },
    /// Layers to upsert, and a new list of root layers where one came.
    UpdateLayer { timeline_id: TimelineId, has_root_layers: bool },
    RemoveLayer { timeline_id: TimelineId },
    StreamMetadata { resource_id: ResourceId, path: String },
    StreamData { resource_id: ResourceId },
    StreamDataEnd { resource_id: ResourceId },
    DebugProjectStruct,
}

/// What a client does on a message, in order.
pub enum ClientAction {
    /// Build the project from the timelines' metadata and keep it.
    InstallProject,
    /// Tell the GUI that the timeline must be drawn again.
    MarkDirty(TimelineId),
    /// Upsert each clip of the message into its layer of the timeline.
    UpsertClips(TimelineId),
    /// Remove each clip of the message from its layer of the timeline.
    RemoveClips(TimelineId),
    /// Upsert each layer of the message into the timeline.
    ApplyLayerMetas(TimelineId),
    /// Replace the timeline's root layers with the list of the message.
    SetRootLayers(TimelineId),
    /// Remove each layer of the message from the timeline.
    RemoveLayers(TimelineId),
    /// Make a player from the stream's metadata, then call `player_created`.
    CreatePlayer { resource_id: ResourceId, path: String },
    /// Decode the packet with the stream's player.
    ProcessPacket(ResourceId),
    /// The stream's fetch is over: mark the player idle and free the frames
    /// outside the fetched ranges.
    FinishFetch(ResourceId),
    /// Log the client's project and the server's dump.
    LogProjects,
}

/// What a client keeps between messages.
pub struct ClientSession {
    pub project: Option<ProjectModel>,
    pub streams: ResourceTable,
}

/// The timelines `0..count` to draw again after a project is installed,
/// each index taken as a timeline id.
pub open spec fn dirty_all(count: nat) -> Seq<ClientAction>
    decreases count,
{
    if count == 0 {
        seq![]
    } else {
        dirty_all((count - 1) as nat).push(ClientAction::MarkDirty(((count - 1) as int) as u32))
    }
}

/// The actions on an edit of timeline `t`: none without a project, an error
/// where the project has no such timeline, else the edits and a redraw.
pub open spec fn edit_outcome(
    project: Option<ProjectModel>,
    t: TimelineId,
    edits: Seq<ClientAction>,
) -> Result<Seq<ClientAction>, HostError> {
    match project {
        None => Ok(seq![]),
        Some(p) => if p.timeline_index(t) is Some {
            Ok(edits.push(ClientAction::MarkDirty(t)))
        } else {
            Err(HostError::InvalidTimeline)
        },
    }
}

pub open spec fn is_create_player(a: ClientAction, id: ResourceId, path: Seq<char>) -> bool {
    a matches ClientAction::CreatePlayer { resource_id, path: p } && resource_id == id && p@ == path
}

/// The call gave the actions or the error of `expected`.
pub open spec fn gives(r: Result<Vec<ClientAction>, HostError>, expected: Result<Seq<ClientAction>, HostError>) -> bool {
    match r {
        Ok(v) => expected matches Ok(s) && v@ =~= s,
        Err(e) => expected == Err::<Seq<ClientAction>, HostError>(e),
    }
}

impl ClientSession {
    pub fn new() -> (r: Self)
        ensures
            r.project is None,
            r.streams.loaded@.len() == 0,
    {
        ClientSession { project: None, streams: ResourceTable::new() }
    }

    fn edit(&self, timeline_id: TimelineId, edits: Vec<ClientAction>) -> (r: Result<
        Vec<ClientAction>,
        HostError,
    >)
        ensures
            gives(r, edit_outcome(self.project, timeline_id, edits@)),
    {
        match &self.project {
            None => Ok(Vec::new()),
            Some(p) => match p.find_timeline(timeline_id) {
                None => Err(HostError::InvalidTimeline),
                Some(_) => {
                    let mut edits = edits;
                    edits.push(ClientAction::MarkDirty(timeline_id));
                    Ok(edits)
                },
            },
        }
    }

    /// Says what to do on a message of the server (see `edit_outcome` and
    /// `dirty_all`); the session itself does not change.
    pub fn on_responce_recveve(&self, response: &Response) -> (r: Result<
        Vec<ClientAction>,
        HostError,
    >)
        ensures
            match response {
                Response::Test => gives(r, Ok(seq![])),
                Response::ProjectMeta { timeline_count } => gives(
                    r,
                    Ok(seq![ClientAction::InstallProject] + dirty_all(*timeline_count as nat)),
                ),
                Response::UpdateClip { timeline_id } => gives(
                    r,
                    edit_outcome(self.project, *timeline_id, seq![ClientAction::UpsertClips(*timeline_id)]),
                ),
                Response::RemoveClip { timeline_id } => gives(
                    r,
                    edit_outcome(self.project, *timeline_id, seq![ClientAction::RemoveClips(*timeline_id)]),
                ),
                Response::UpdateLayer { timeline_id, has_root_layers } => gives(
                    r,
                    edit_outcome(
                        self.project,
                        *timeline_id,
                        if *has_root_layers {
                            seq![
                                ClientAction::ApplyLayerMetas(*timeline_id),
                                ClientAction::SetRootLayers(*timeline_id),
                            ]
                        } else {
                            seq![ClientAction::ApplyLayerMetas(*timeline_id)]
                        },
                    ),
                ),
                Response::RemoveLayer { timeline_id } => gives(
                    r,
                    edit_outcome(self.project, *timeline_id, seq![ClientAction::RemoveLayers(*timeline_id)]),
                ),
                Response::StreamMetadata { resource_id, path } => r matches Ok(v) && v@.len() == 1
                    && is_create_player(v@[0], *resource_id, path@),
                Response::StreamData { resource_id } => gives(
                    r,
                    Ok(
                        if loaded_ids(self.streams.loaded@).contains(*resource_id) {
                            seq![ClientAction::ProcessPacket(*resource_id)]
                        } else {
                            seq![]
                        },
                    ),
                ),
                Response::StreamDataEnd { resource_id } => gives(
                    r,
                    Ok(
                        if loaded_ids(self.streams.loaded@).contains(*resource_id) {
                            seq![ClientAction::FinishFetch(*resource_id)]
                        } else {
                            seq![]
                        },
                    ),
                ),
                Response::DebugProjectStruct => gives(r, Ok(seq![ClientAction::LogProjects])),
            },
    {
        match response {
            Response::Test => Ok(Vec::new()),
            Response::ProjectMeta { timeline_count } => {
                let mut actions: Vec<ClientAction> = vec![ClientAction::InstallProject];
                let mut i: usize = 0;
                while i < *timeline_count
                    invariant
                        i <= *timeline_count,
                        actions@ == seq![ClientAction::InstallProject] + dirty_all(i as nat),
                    decreases *timeline_count - i,
                {
                    actions.push(ClientAction::MarkDirty(#[verifier::truncate] (i as TimelineId)));
                    proof {
                        assert((seq![ClientAction::InstallProject] + dirty_all(i as nat)).push(
                            ClientAction::MarkDirty(#[verifier::truncate] (i as u32)),
                        ) =~= seq![ClientAction::InstallProject] + dirty_all((i + 1) as nat));
                    }
                    i = i + 1;
                }
                Ok(actions)
            },
            Response::UpdateClip { timeline_id } => self.edit(
                *timeline_id,
                vec![ClientAction::UpsertClips(*timeline_id)],
            ),
            Response::RemoveClip { timeline_id } => self.edit(
                *timeline_id,
                vec![ClientAction::RemoveClips(*timeline_id)],
            ),
            Response::UpdateLayer { timeline_id, has_root_layers } => {
                let mut edits = vec![ClientAction::ApplyLayerMetas(*timeline_id)];
                if *has_root_layers {
                    edits.push(ClientAction::SetRootLayers(*timeline_id));
                }
                self.edit(*timeline_id, edits)
            },
            Response::RemoveLayer { timeline_id } => self.edit(
                *timeline_id,
                vec![ClientAction::RemoveLayers(*timeline_id)],
            ),
            Response::StreamMetadata { resource_id, path } => Ok(
                vec![ClientAction::CreatePlayer { resource_id: *resource_id, path: path.clone() }],
            ),
            Response::StreamData { resource_id } => {
                if self.streams.is_loaded(*resource_id) {
                    Ok(vec![ClientAction::ProcessPacket(*resource_id)])
                } else {
                    Ok(Vec::new())
                }
            },
            Response::StreamDataEnd { resource_id } => {
                if self.streams.is_loaded(*resource_id) {
                    Ok(vec![ClientAction::FinishFetch(*resource_id)])
                } else {
                    Ok(Vec::new())
                }
            },
            Response::DebugProjectStruct => Ok(vec![ClientAction::LogProjects]),
        }
    }

    /// Records the player made for a stream's metadata.
    pub fn player_created(&mut self, path: String, resource_id: ResourceId)
        ensures
            final(self).project == old(self).project,
            final(self).streams.next_resource_id == old(self).streams.next_resource_id,
            loaded_id(final(self).streams.loaded@, path@) == Some(resource_id),
            loaded_ids(final(self).streams.loaded@).contains(resource_id),
            forall|q: Seq<char>| q != path@ ==> loaded_id(final(self).streams.loaded@, q) == loaded_id(
                old(self).streams.loaded@,
                q,
            ),
    {
        self.streams.mark_loaded(path, resource_id);
        proof {
            assert(self.streams.loaded@[0].1 == resource_id);
        }
    }
}

/// How many frames past the current one the media of a timeline is fetched.
pub const FETCH_LOOKAHEAD: i64 = 60;

/// Why the frame of a timeline cannot be fetched.
#[derive(Clone, Copy, Debug, PartialEq, Eq, Structural)]
pub enum FetchFrameError {
    /// "project not found"
    ProjectNotFound,
    /// "invalid timeline id"
    InvalidTimeline,
}

/// What to ask the server for to show a frame: the media packets of the
/// frames `frames` (which the media code works out), then the clips of the
/// visible range.
pub struct FramePlan {
    pub frames: ViewRange,
    pub clips_request: Request,
}

/// Plans the requests for showing frame `current_frame` of a timeline whose
/// range `visible_range_start..visible_range_end` is on screen: the frames
/// from the current one on, `FETCH_LOOKAHEAD` of them, and the clips of the
/// visible range.
pub fn req_fetch_frame(
    project: &Option<ProjectModel>,
    timeline_id: TimelineId,
    current_frame: i64,
    visible_range_start: i64,
    visible_range_end: i64,
) -> (r: Result<FramePlan, FetchFrameError>)
    requires
        current_frame <= i64::MAX - FETCH_LOOKAHEAD,
    ensures
        match project {
            None => r == Err::<FramePlan, FetchFrameError>(FetchFrameError::ProjectNotFound),
            Some(p) => if p.timeline_index(timeline_id) is None {
                r == Err::<FramePlan, FetchFrameError>(FetchFrameError::InvalidTimeline)
            } else {
                r matches Ok(plan) && plan.frames == (ViewRange {
                    start: current_frame,
                    end: (current_frame + FETCH_LOOKAHEAD) as i64,
                }) && plan.clips_request == (Request::FetchClipsInRange {
                    timeline_id,
                    range: ViewRange { start: visible_range_start, end: visible_range_end },
                })
            },
        },
{
    match project {
        None => Err(FetchFrameError::ProjectNotFound),
        Some(p) => match p.find_timeline(timeline_id) {
            None => Err(FetchFrameError::InvalidTimeline),
            Some(_) => Ok(
                FramePlan {
                    frames: ViewRange { start: current_frame, end: current_frame + FETCH_LOOKAHEAD },
                    clips_request: Request::FetchClipsInRange {
                        timeline_id,
                        range: ViewRange { start: visible_range_start, end: visible_range_end },
                    },
                },
            ),
        },
    }
}

} // verus!
