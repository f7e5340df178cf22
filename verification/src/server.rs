use vstd::prelude::*;

use crate::client_views::{full_range, ClientViews, ViewRange};
use crate::error_code::same_text;
use crate::ids::{LayerId, ResourceId, TimelineId};
use crate::model::{ClipRecord, HostError, ProjectModel, TimelineModel};

verus! {

/// A clip lies, at least in part, inside the range: its span
/// `position..position + duration` overlaps `range`.
pub open spec fn clip_in_range(c: ClipRecord, range: ViewRange) -> bool {
    c.position < range.end && range.start < c.position + c.duration
}

/// The clips of a timeline that lie in the range, in the order the timeline
/// holds them, each with its layer.
pub open spec fn clips_in_range_spec(clips: Seq<ClipRecord>, range: ViewRange) -> Seq<
    (LayerId, ClipRecord),
>
    decreases clips.len(),
{
    if clips.len() == 0 {
        seq![]
    } else {
        let prev = clips_in_range_spec(clips.drop_last(), range);
        let c = clips.last();
        if clip_in_range(c, range) {
            prev.push((c.layer_id, c))
        } else {
            prev
        }
    }
}

/// The clips of the timeline that lie in `range`, each with its layer.
pub fn query_range(timeline: &TimelineModel, range: ViewRange) -> (r: Vec<(LayerId, ClipRecord)>)
    ensures
        r@ == clips_in_range_spec(timeline.clips@, range),
{
    let mut r: Vec<(LayerId, ClipRecord)> = Vec::new();
    let mut k: usize = 0;
    while k < timeline.clips.len()
        invariant
            k <= timeline.clips@.len(),
            r@ == clips_in_range_spec(timeline.clips@.take(k as int), range),
        decreases timeline.clips@.len() - k,
    {
        let c = timeline.clips[k];
        proof {
            assert(timeline.clips@.take(k + 1).drop_last() =~= timeline.clips@.take(k as int));
        }
        let end: i128 = c.position as i128 + c.duration as i128;
        if c.position < range.end && (range.start as i128) < end {
            r.push((c.layer_id, c));
        }
        k = k + 1;
    }
    proof {
        assert(timeline.clips@.take(k as int) =~= timeline.clips@);
    }
    r
}

/// `sent` takes its clips from the places `places` of `clips`, which increase.
pub open spec fn taken_in_order(sent: Seq<(LayerId, ClipRecord)>, clips: Seq<ClipRecord>, places: Seq<int>) -> bool {
    &&& places.len() == sent.len()
    &&& forall|j: int| 0 <= j < places.len() ==> 0 <= #[trigger] places[j] < clips.len() && sent[j].1 == clips[places[j]]
    &&& forall|a: int, b: int| 0 <= a < b < places.len() ==> #[trigger] places[a] < #[trigger] places[b]
}

/// The clips sent for a range are exactly the clips of the timeline whose
/// span `position..position + duration` overlaps the range, each with its
/// layer, in the order the timeline holds them: every sent clip is one of
/// the timeline's and overlaps the range, every overlapping clip is sent,
/// and the sent clips come from increasing places of the timeline.
pub proof fn lemma_clips_in_range_are_the_overlapping_ones(clips: Seq<ClipRecord>, range: ViewRange)
    ensures
        forall|i: int|
            0 <= i < clips.len() && clips[i].position < range.end && range.start < clips[i].position
                + clips[i].duration ==> #[trigger] clips_in_range_spec(clips, range).contains(
                (clips[i].layer_id, clips[i]),
            ),
        forall|j: int|
            0 <= j < clips_in_range_spec(clips, range).len() ==> {
                let e = #[trigger] clips_in_range_spec(clips, range)[j];
                &&& e.0 == e.1.layer_id
                &&& clips.contains(e.1)
                &&& e.1.position < range.end
                &&& range.start < e.1.position + e.1.duration
            },
        exists|places: Seq<int>| #[trigger] taken_in_order(clips_in_range_spec(clips, range), clips, places),
    decreases clips.len(),
{
    let r = clips_in_range_spec(clips, range);
    if clips.len() > 0 {
        let d = clips.drop_last();
        let prev = clips_in_range_spec(d, range);
        lemma_clips_in_range_are_the_overlapping_ones(d, range);
        let c = clips.last();
        let n = clips.len() - 1;
        assert forall|i: int|
            0 <= i < clips.len() && clips[i].position < range.end && range.start < clips[i].position
                + clips[i].duration implies #[trigger] r.contains((clips[i].layer_id, clips[i])) by {
            if i < n {
                assert(d[i] == clips[i]);
                assert(prev.contains((d[i].layer_id, d[i])));
                let q = choose|q: int| 0 <= q < prev.len() && prev[q] == (d[i].layer_id, d[i]);
                assert(r[q] == prev[q]);
            } else {
                assert(r[prev.len() as int] == (c.layer_id, c));
            }
        }
        assert forall|j: int| 0 <= j < r.len() implies {
            let e = #[trigger] r[j];
            &&& e.0 == e.1.layer_id
            &&& clips.contains(e.1)
            &&& e.1.position < range.end
            &&& range.start < e.1.position + e.1.duration
        } by {
            if j < prev.len() {
                assert(r[j] == prev[j]);
                let e = prev[j];
                assert(d.contains(e.1));
                let q = choose|q: int| 0 <= q < d.len() && d[q] == e.1;
                assert(clips[q] == e.1);
            } else {
                assert(r[j] == (c.layer_id, c));
                assert(clips[n] == c);
            }
        }
        let pp = choose|places: Seq<int>| #[trigger] taken_in_order(prev, d, places);
        if clip_in_range(c, range) {
            let places = pp.push(n);
            assert forall|j: int| 0 <= j < places.len() implies 0 <= #[trigger] places[j] < clips.len()
                && r[j].1 == clips[places[j]] by {
                if j < pp.len() {
                    assert(places[j] == pp[j]);
                    assert(d[pp[j]] == clips[pp[j]]);
                }
            }
            assert forall|a: int, b: int| 0 <= a < b < places.len() implies #[trigger] places[a]
                < #[trigger] places[b] by {
                if b < pp.len() {
                    assert(places[a] == pp[a] && places[b] == pp[b]);
                } else {
                    assert(places[a] == pp[a]);
                }
            }
            assert(taken_in_order(r, clips, places));
        } else {
            assert forall|j: int| 0 <= j < pp.len() implies 0 <= #[trigger] pp[j] < clips.len()
                && r[j].1 == clips[pp[j]] by {
                assert(d[pp[j]] == clips[pp[j]]);
            }
            assert(taken_in_order(r, clips, pp));
        }
    } else {
        assert(taken_in_order(r, clips, Seq::<int>::empty()));
    }
}

/// The ids of the project's timelines, in order.
pub fn timeline_ids(project: &ProjectModel) -> (r: Vec<TimelineId>)
    ensures
        r@ == project.timeline_ids(),
{
    let mut r: Vec<TimelineId> = Vec::new();
    let mut k: usize = 0;
    while k < project.timelines.len()
        invariant
            k <= project.timelines@.len(),
            r@ == project.timeline_ids().take(k as int),
        decreases project.timelines@.len() - k,
    {
        r.push(project.timelines[k].id);
        proof {
            assert(project.timeline_ids().take(k + 1) =~= project.timeline_ids().take(k as int).push(
                project.timelines@[k as int].id,
            ));
        }
        k = k + 1;
    }
    proof {
        assert(project.timeline_ids().take(k as int) =~= project.timeline_ids());
    }
    r
}

/// Records that client `client_id` watches the whole of every timeline in
/// `ids`, as it does when it opens a project.
pub fn watch_all_timelines(views: &mut ClientViews, client_id: u32, ids: &Vec<TimelineId>)
    ensures
        forall|c: u32| #[trigger]
            final(views).has_client(c) <==> (old(views).has_client(c) || (c == client_id
                && ids@.len() > 0)),
        forall|c: u32, t: TimelineId| #[trigger]
            final(views).range_of(c, t) == if c == client_id && ids@.contains(t) {
                Some(ViewRange { start: i64::MIN, end: i64::MAX })
            } else {
                old(views).range_of(c, t)
            },
{
    let ghost start = *views;
    let mut k: usize = 0;
    while k < ids.len()
        invariant
            k <= ids@.len(),
            forall|c: u32| #[trigger]
                views.has_client(c) <==> (start.has_client(c) || (c == client_id && k > 0)),
            forall|c: u32, t: TimelineId| #[trigger]
                views.range_of(c, t) == if c == client_id && ids@.take(k as int).contains(t) {
                    Some(ViewRange { start: i64::MIN, end: i64::MAX })
                } else {
                    start.range_of(c, t)
                },
        decreases ids@.len() - k,
    {
        let ghost before = *views;
        let t = ids[k];
        views.update_client_view(client_id, t, full_range());
        proof {
            assert forall|c: u32, u: TimelineId| #[trigger]
                views.range_of(c, u) == if c == client_id && ids@.take(k + 1).contains(u) {
                    Some(ViewRange { start: i64::MIN, end: i64::MAX })
                } else {
                    start.range_of(c, u)
                } by {
                assert(ids@.take(k + 1) =~= ids@.take(k as int).push(t));
                let s0 = ids@.take(k as int);
                if s0.push(t).contains(u) && u != t {
                    let j = choose|j: int| 0 <= j < k + 1 && #[trigger] s0.push(t)[j] == u;
                    assert(s0[j] == u);
                }
                if s0.contains(u) {
                    let j = choose|j: int| 0 <= j < k && #[trigger] s0[j] == u;
                    assert(s0.push(t)[j] == u);
                }
                assert(before.range_of(c, u) == views.range_of(c, u) || (c == client_id && u == t));
                if u == t {
                    assert(ids@.take(k as int).push(t)[k as int] == t);
                }
            }
        }
        k = k + 1;
    }
    proof {
        assert(ids@.take(k as int) =~= ids@);
    }
}

/// What the server knows of media streams. A path's resource id is looked
/// up in `stream_states`, which the handling of a request does not fill: an
/// opened stream is recorded in `loaded` (newest first), under the id it was
/// opened with. `next_resource_id` is the id the next new stream gets.
pub struct ResourceTable {
    pub stream_states: Vec<(String, ResourceId)>,
    pub loaded: Vec<(String, ResourceId)>,
    pub next_resource_id: u32,
}

/// The id recorded for `path` in the first entry that names it.
pub open spec fn loaded_id(loaded: Seq<(String, ResourceId)>, path: Seq<char>) -> Option<ResourceId>
    decreases loaded.len(),
{
    if loaded.len() == 0 {
        None
    } else if loaded[0].0@ == path {
        Some(loaded[0].1)
    } else {
        loaded_id(loaded.drop_first(), path)
    }
}

/// The id that `path` is given: the one its stream state records, else the
/// next one.
pub open spec fn resource_id_for(table: ResourceTable, path: Seq<char>) -> ResourceId {
    match loaded_id(table.stream_states@, path) {
        Some(id) => id,
        None => table.next_resource_id,
    }
}

/// The ids of the loaded entries.
pub open spec fn loaded_ids(loaded: Seq<(String, ResourceId)>) -> Set<ResourceId> {
    Set::new(|id: ResourceId| exists|i: int| 0 <= i < loaded.len() && #[trigger] loaded[i].1 == id)
}


impl ResourceTable {
    pub fn new() -> (r: Self)
        ensures
            r.stream_states@.len() == 0,
            r.loaded@.len() == 0,
            r.next_resource_id == 0,
    {
        ResourceTable { stream_states: Vec::new(), loaded: Vec::new(), next_resource_id: 0 }
    }

    /// The id that the stream state of `path` records, if any.
    pub fn find(&self, path: &str) -> (r: Option<ResourceId>)
        ensures
            r == loaded_id(self.stream_states@, path@),
    {
        let mut k: usize = 0;
        proof {
            assert(self.stream_states@.skip(0) =~= self.stream_states@);
        }
        while k < self.stream_states.len()
            invariant
                k <= self.stream_states@.len(),
                loaded_id(self.stream_states@, path@) == loaded_id(self.stream_states@.skip(k as int), path@),
            decreases self.stream_states@.len() - k,
        {
            proof {
                assert(self.stream_states@.skip(k as int).drop_first() =~= self.stream_states@.skip(k + 1));
            }
            if same_text(self.stream_states[k].0.as_str(), path) {
                return Some(self.stream_states[k].1);
            }
            k = k + 1;
        }
        None
    }

    /// The resource id for `path`: the one its stream state records, else a
    /// new one taken from the counter, which moves on by one (wrapping).
    pub fn get_or_create_resource_id(&mut self, path: &str) -> (r: ResourceId)
        ensures
            r == resource_id_for(*old(self), path@),
            final(self).stream_states == old(self).stream_states,
            final(self).loaded == old(self).loaded,
            final(self).next_resource_id == if loaded_id(old(self).stream_states@, path@) is Some {
                old(self).next_resource_id
            } else {
                old(self).next_resource_id.wrapping_add(1)
            },
    {
        match self.find(path) {
            Some(id) => id,
            None => {
                let id = self.next_resource_id;
                self.next_resource_id = self.next_resource_id.wrapping_add(1);
                id
            },
        }
    }

    /// Records that `path` is open under `resource_id`.
    pub fn mark_loaded(&mut self, path: String, resource_id: ResourceId)
        ensures
            final(self).next_resource_id == old(self).next_resource_id,
            final(self).stream_states == old(self).stream_states,
            final(self).loaded@ == seq![(path, resource_id)] + old(self).loaded@,
            loaded_id(final(self).loaded@, path@) == Some(resource_id),
            forall|p: Seq<char>| p != path@ ==> loaded_id(final(self).loaded@, p) == loaded_id(old(self).loaded@, p),
    {
        let ghost p0 = path@;
        self.loaded.insert(0, (path, resource_id));
        proof {
            assert(self.loaded@.drop_first() =~= old(self).loaded@);
        }
    }
}


impl ResourceTable {
    /// Some path is open under `resource_id`.
    pub fn is_loaded(&self, resource_id: ResourceId) -> (r: bool)
        ensures
            r == loaded_ids(self.loaded@).contains(resource_id),
    {
        let mut k: usize = 0;
        while k < self.loaded.len()
            invariant
                k <= self.loaded@.len(),
                forall|j: int| 0 <= j < k ==> self.loaded@[j].1 != resource_id,
            decreases self.loaded@.len() - k,
        {
            if self.loaded[k].1 == resource_id {
                proof {
                    assert(self.loaded@[k as int].1 == resource_id);
                }
                return true;
            }
            k = k + 1;
        }
        false
    }
}

/// A request of a client to the server. The payloads that only the media
/// and project code read (a command's data, the ranges of a fetch) stay
/// with the caller.
pub enum Request {
    Test,
    NewProject,
    ProjectAll,
    Command { timeline_id: TimelineId },
    InitStream { path: String },
    FetchStreamData { resource_id: ResourceId },
    FetchClipsInRange { timeline_id: TimelineId, range: ViewRange },
    DebugFetchProjectStruct,
}

/// What the server does on a request, in order.
pub enum ServerAction {
    /// Make a new project with its main timeline, then call `install_project`.
    CreateProject { client_id: u32 },
    /// Send the client the list of the project's timelines.
    SendProjectMeta { client_id: u32, timelines: Vec<TimelineId> },
    /// Turn the command into its history entry and apply it to the timeline,
    /// then hand the outcome to `command_done`.
    ApplyCommand { timeline_id: TimelineId },
    /// Wake the task that sends the collected changes.
    NotifyDirty,
    /// Open the media file, then call `stream_opened`.
    OpenStream { client_id: u32, path: String },
    /// Send the client the stream's first packet under its resource id.
    SendStreamInit { client_id: u32, resource_id: ResourceId, path: String },
    /// Read the asked ranges of the stream and send them to the client.
    FetchStream { client_id: u32, resource_id: ResourceId },
    /// Send the client the clips of the timeline that lie in its range.
    SendClips { client_id: u32, timeline_id: TimelineId, clips: Vec<(LayerId, ClipRecord)> },
    /// Send the client a dump of the project, or word that there is none.
    SendProjectStruct { client_id: u32, present: bool },
}

/// The actions of a request, and the error it ends with, if any.
pub struct RequestOutcome {
    pub actions: Vec<ServerAction>,
    pub error: Option<HostError>,
}

/// What the server keeps between requests.
pub struct ServerSession {
    pub project: Option<ProjectModel>,
    pub views: ClientViews,
    pub resources: ResourceTable,
}

/// `new` is `old` after client `c` was given the whole of each timeline in `ids`.
pub open spec fn watched_all(old: ClientViews, new: ClientViews, c: u32, ids: Seq<TimelineId>) -> bool {
    &&& forall|d: u32| #[trigger] new.has_client(d) <==> (old.has_client(d) || (d == c && ids.len() > 0))
    &&& forall|d: u32, t: TimelineId| #[trigger] new.range_of(d, t) == if d == c && ids.contains(t) {
        Some(ViewRange { start: i64::MIN, end: i64::MAX })
    } else {
        old.range_of(d, t)
    }
}

/// `new` is `old` after client `c` was given `range` of timeline `t`.
pub open spec fn watched_one(old: ClientViews, new: ClientViews, c: u32, t: TimelineId, range: ViewRange) -> bool {
    &&& forall|d: u32| #[trigger] new.has_client(d) <==> (old.has_client(d) || d == c)
    &&& forall|d: u32, u: TimelineId| #[trigger] new.range_of(d, u) == if d == c && u == t {
        Some(range)
    } else {
        old.range_of(d, u)
    }
}

pub open spec fn is_send_meta(a: ServerAction, c: u32, ids: Seq<TimelineId>) -> bool {
    a matches ServerAction::SendProjectMeta { client_id, timelines } && client_id == c && timelines@ == ids
}

pub open spec fn is_send_clips(a: ServerAction, c: u32, t: TimelineId, clips: Seq<(LayerId, ClipRecord)>) -> bool {
    a matches ServerAction::SendClips { client_id, timeline_id, clips: cs } && client_id == c
        && timeline_id == t && cs@ == clips
}

pub open spec fn is_open_stream(a: ServerAction, c: u32, path: Seq<char>) -> bool {
    a matches ServerAction::OpenStream { client_id, path: p } && client_id == c && p@ == path
}

pub open spec fn only(out: RequestOutcome, a: ServerAction) -> bool {
    out.actions@ =~= seq![a]
}

pub open spec fn failed(out: RequestOutcome, e: HostError) -> bool {
    out.actions@.len() == 0 && out.error == Some(e)
}

impl ServerSession {
    pub fn new() -> (r: Self)
        ensures
            r.project is None,
            forall|c: u32| !r.views.has_client(c),
            forall|c: u32, t: TimelineId| r.views.range_of(c, t) is None,
            r.resources.stream_states@.len() == 0,
            r.resources.loaded@.len() == 0,
            r.resources.next_resource_id == 0,
    {
        ServerSession { project: None, views: ClientViews::new(), resources: ResourceTable::new() }
    }

    /// Handles a request of client `client_id`: updates what the session
    /// keeps and says what to send or do, and the error the request ends with.
    pub fn on_request_receive(&mut self, client_id: u32, request: Request) -> (out: RequestOutcome)
        ensures
            final(self).project == old(self).project,
            final(self).resources == old(self).resources,
            !(request is FetchClipsInRange || request is ProjectAll) ==> final(self).views == old(self).views,
            match request {
                Request::Test => out.actions@.len() == 0 && out.error is None,
                Request::NewProject => only(out, ServerAction::CreateProject { client_id })
                    && out.error is None,
                Request::ProjectAll => match old(self).project {
                    None => failed(out, HostError::ProjectNotFound) && final(self).views == old(self).views,
                    Some(p) => watched_all(old(self).views, final(self).views, client_id, p.timeline_ids())
                        && out.actions@.len() == 1 && is_send_meta(out.actions@[0], client_id, p.timeline_ids())
                        && out.error is None,
                },
                Request::Command { timeline_id } => match old(self).project {
                    None => failed(out, HostError::ProjectNotFound),
                    Some(_) => only(out, ServerAction::ApplyCommand { timeline_id }) && out.error is None,
                },
                Request::InitStream { path } => out.actions@.len() == 1 && is_open_stream(
                    out.actions@[0],
                    client_id,
                    path@,
                ) && out.error is None,
                Request::FetchStreamData { resource_id } => if loaded_ids(old(self).resources.loaded@).contains(resource_id) {
                    only(out, ServerAction::FetchStream { client_id, resource_id }) && out.error is None
                } else {
                    failed(out, HostError::StreamNotFound(resource_id))
                },
                Request::FetchClipsInRange { timeline_id, range } => watched_one(
                    old(self).views,
                    final(self).views,
                    client_id,
                    timeline_id,
                    range,
                ) && match old(self).project {
                    None => failed(out, HostError::ProjectNotFound),
                    Some(p) => match p.timeline_index(timeline_id) {
                        None => failed(out, HostError::TimelineNotFound(timeline_id)),
                        Some(i) => out.actions@.len() == 1 && is_send_clips(
                            out.actions@[0],
                            client_id,
                            timeline_id,
                            clips_in_range_spec(p.timelines@[i].clips@, range),
                        ) && out.error is None,
                    },
                },
                Request::DebugFetchProjectStruct => only(
                    out,
                    ServerAction::SendProjectStruct { client_id, present: old(self).project is Some },
                ) && out.error == if old(self).project is Some {
                    None
                } else {
                    Some(HostError::ProjectNotFound)
                },
            },
    {
        match request {
            Request::Test => RequestOutcome { actions: Vec::new(), error: None },
            Request::NewProject => RequestOutcome {
                actions: vec![ServerAction::CreateProject { client_id }],
                error: None,
            },
            Request::ProjectAll => {
                match &self.project {
                    None => RequestOutcome { actions: Vec::new(), error: Some(HostError::ProjectNotFound) },
                    Some(p) => {
                        let ids = timeline_ids(p);
                        watch_all_timelines(&mut self.views, client_id, &ids);
                        RequestOutcome {
                            actions: vec![ServerAction::SendProjectMeta { client_id, timelines: ids }],
                            error: None,
                        }
                    },
                }
            },
            Request::Command { timeline_id } => {
                if self.project.is_none() {
                    RequestOutcome { actions: Vec::new(), error: Some(HostError::ProjectNotFound) }
                } else {
                    RequestOutcome { actions: vec![ServerAction::ApplyCommand { timeline_id }], error: None }
                }
            },
            Request::InitStream { path } => RequestOutcome {
                actions: vec![ServerAction::OpenStream { client_id, path }],
                error: None,
            },
            Request::FetchStreamData { resource_id } => {
                if self.resources.is_loaded(resource_id) {
                    RequestOutcome {
                        actions: vec![ServerAction::FetchStream { client_id, resource_id }],
                        error: None,
                    }
                } else {
                    RequestOutcome { actions: Vec::new(), error: Some(HostError::StreamNotFound(resource_id)) }
                }
            },
            Request::FetchClipsInRange { timeline_id, range } => {
                self.views.update_client_view(client_id, timeline_id, range);
                match &self.project {
                    None => RequestOutcome { actions: Vec::new(), error: Some(HostError::ProjectNotFound) },
                    Some(p) => match p.find_timeline(timeline_id) {
                        None => RequestOutcome {
                            actions: Vec::new(),
                            error: Some(HostError::TimelineNotFound(timeline_id)),
                        },
                        Some(i) => {
                            let clips = query_range(&p.timelines[i], range);
                            RequestOutcome {
                                actions: vec![ServerAction::SendClips { client_id, timeline_id, clips }],
                                error: None,
                            }
                        },
                    },
                }
            },
            Request::DebugFetchProjectStruct => {
                let present = self.project.is_some();
                RequestOutcome {
                    actions: vec![ServerAction::SendProjectStruct { client_id, present }],
                    error: if present { None } else { Some(HostError::ProjectNotFound) },
                }
            },
        }
    }

    /// Decides what follows the application of a command, given its
    /// outcome: on success, wake the task that sends the collected changes;
    /// on failure, the request ends with that error and nothing is woken.
    pub fn command_done<E>(&self, applied: Result<(), E>) -> (r: Result<ServerAction, E>)
        ensures
            applied is Ok ==> r == Ok::<ServerAction, E>(ServerAction::NotifyDirty),
            applied matches Err(e) ==> r == Err::<ServerAction, E>(e),
    {
        match applied {
            Ok(()) => Ok(ServerAction::NotifyDirty),
            Err(e) => Err(e),
        }
    }

    /// Installs the project made for a `NewProject` request of client
    /// `client_id`: the client watches the whole of each of its timelines and
    /// is sent their list.
    pub fn install_project(&mut self, client_id: u32, project: ProjectModel) -> (r: ServerAction)
        ensures
            final(self).project == Some(project),
            final(self).resources == old(self).resources,
            watched_all(old(self).views, final(self).views, client_id, project.timeline_ids()),
            is_send_meta(r, client_id, project.timeline_ids()),
    {
        let ids = timeline_ids(&project);
        watch_all_timelines(&mut self.views, client_id, &ids);
        self.project = Some(project);
        ServerAction::SendProjectMeta { client_id, timelines: ids }
    }

    /// Records a stream that was opened for client `client_id` under the id
    /// that its path is given, and says to send its first packet.
    pub fn stream_opened(&mut self, client_id: u32, path: String) -> (r: ServerAction)
        ensures
            final(self).project == old(self).project,
            final(self).views == old(self).views,
            r matches ServerAction::SendStreamInit { client_id: c, resource_id, path: p } && c == client_id
                && p@ == path@ && resource_id == resource_id_for(old(self).resources, path@)
                && loaded_id(final(self).resources.loaded@, path@) == Some(resource_id),
            final(self).resources.stream_states == old(self).resources.stream_states,
            final(self).resources.next_resource_id == if loaded_id(old(self).resources.stream_states@, path@) is Some {
                old(self).resources.next_resource_id
            } else {
                old(self).resources.next_resource_id.wrapping_add(1)
            },
            forall|q: Seq<char>| q != path@ ==> loaded_id(final(self).resources.loaded@, q) == loaded_id(old(self).resources.loaded@, q),
    {
        let resource_id = self.resources.get_or_create_resource_id(path.as_str());
        let kept = path.clone();
        self.resources.mark_loaded(path, resource_id);
        ServerAction::SendStreamInit { client_id, resource_id, path: kept }
    }
}

} // verus!
