use vstd::prelude::*;

use crate::client_views::{overlaps, ClientViews, ViewRange};
use crate::ids::{ClipId, LayerFolderId, LayerId, TimelineId, TimelineTick};
use crate::model::{
    copy_ids, copy_nodes, lemma_index_of, ClipRecord, HostError, OutlineNode, ProjectModel,
    TimelineModel,
};

verus! {

/// Where a removed clip was.
#[derive(Clone, Copy, Debug, PartialEq, Eq, Structural)]
pub struct RemovedClipInfo {
    pub layer_id: LayerId,
    pub position: TimelineTick,
    pub duration: TimelineTick,
}

/// The changes collected on one timeline since they were last sent.
pub struct ChangeSet {
    pub clips_upserted: Vec<ClipId>,
    pub clips_removed: Vec<(ClipId, RemovedClipInfo)>,
    pub layers_upserted: Vec<LayerId>,
    pub layers_removed: Vec<LayerId>,
    pub outline_folders_upserted: Vec<LayerFolderId>,
    /// The parents (`None` for the root) whose list of children changed.
    pub outline_children_changed: Vec<Option<LayerFolderId>>,
    pub outline_folders_removed: Vec<LayerFolderId>,
}

impl ChangeSet {
    pub open spec fn spec_is_layer_empty(&self) -> bool {
        self.layers_upserted@.len() == 0 && self.layers_removed@.len() == 0
    }

    /// No layer was upserted or removed.
    pub fn is_layer_empty(&self) -> (r: bool)
        ensures
            r == self.spec_is_layer_empty(),
    {
        self.layers_upserted.len() == 0 && self.layers_removed.len() == 0
    }
}

/// What a client is told of a layer.
pub struct LayerMeta {
    pub id: LayerId,
    pub name: String,
    pub enabled: bool,
}

/// The messages that one change set gives rise to, each with the clients it
/// goes to, in the order in which they are sent; `None` where no message goes.
pub struct DispatchPlan {
    /// The upserted clips that the timeline holds, with their layers, for the
    /// clients whose view overlaps their span.
    pub update_clips: Option<(Vec<u32>, Vec<(LayerId, ClipRecord)>)>,
    /// The removed clips, with their layers, for the clients whose view
    /// overlaps the span they covered.
    pub remove_clips: Option<(Vec<u32>, Vec<(LayerId, ClipId)>)>,
    /// The upserted layers that the timeline holds, for every client of the timeline.
    pub update_layers: Option<(Vec<u32>, Vec<LayerMeta>)>,
    /// The removed layers, for every client of the timeline.
    pub remove_layers: Option<(Vec<u32>, Vec<LayerId>)>,
    /// The upserted folders that the timeline holds (id and name) and the new
    /// children of each changed parent, for every client of the timeline.
    pub update_outline: Option<
        (Vec<u32>, Vec<(LayerFolderId, String)>, Vec<(Option<LayerFolderId>, Vec<OutlineNode>)>),
    >,
    /// The removed folders, for every client of the timeline.
    pub remove_folders: Option<(Vec<u32>, Vec<LayerFolderId>)>,
}

pub open spec fn min_int(a: int, b: int) -> int {
    if a <= b {
        a
    } else {
        b
    }
}

pub open spec fn max_int(a: int, b: int) -> int {
    if a >= b {
        a
    } else {
        b
    }
}

/// The span `start..end` of a sequence of `(position, duration)` extents:
/// the least position and the greatest end, starting from the empty span
/// `i64::MAX..i64::MIN`.
pub open spec fn span_of(extents: Seq<(int, int)>) -> (int, int)
    decreases extents.len(),
{
    if extents.len() == 0 {
        (i64::MAX as int, i64::MIN as int)
    } else {
        let prev = span_of(extents.drop_last());
        let e = extents.last();
        (min_int(prev.0, e.0), max_int(prev.1, e.0 + e.1))
    }
}

pub open spec fn span_range(extents: Seq<(int, int)>) -> ViewRange {
    ViewRange { start: span_of(extents).0 as i64, end: span_of(extents).1 as i64 }
}

/// Every extent ends within `i64`.
pub open spec fn extents_fit(extents: Seq<(int, int)>) -> bool {
    forall|k: int|
        0 <= k < extents.len() ==> i64::MIN <= #[trigger] extents[k].0 + extents[k].1 <= i64::MAX
}

proof fn lemma_span_bounds(extents: Seq<(int, int)>)
    requires
        extents_fit(extents),
        forall|k: int| 0 <= k < extents.len() ==> i64::MIN <= #[trigger] extents[k].0 <= i64::MAX,
    ensures
        i64::MIN <= span_of(extents).0 <= i64::MAX,
        i64::MIN <= span_of(extents).1 <= i64::MAX,
    decreases extents.len(),
{
    if extents.len() > 0 {
        let d = extents.drop_last();
        assert forall|k: int| 0 <= k < d.len() implies i64::MIN <= #[trigger] d[k].0 + d[k].1
            <= i64::MAX by {
            assert(d[k] == extents[k]);
        }
        assert forall|k: int| 0 <= k < d.len() implies i64::MIN <= #[trigger] d[k].0
            <= i64::MAX by {
            assert(d[k] == extents[k]);
        }
        lemma_span_bounds(d);
        assert(extents.last() == extents[extents.len() - 1]);
    }
}

/// The upserted clips that the timeline holds, each with its layer.
pub open spec fn found_clips(tl: TimelineModel, ids: Seq<ClipId>) -> Seq<(LayerId, ClipRecord)>
    decreases ids.len(),
{
    if ids.len() == 0 {
        seq![]
    } else {
        let prev = found_clips(tl, ids.drop_last());
        match tl.clip_spec(ids.last()) {
            Some(c) => prev.push((c.layer_id, c)),
            None => prev,
        }
    }
}

pub open spec fn clip_extents(clips: Seq<(LayerId, ClipRecord)>) -> Seq<(int, int)> {
    clips.map_values(|e: (LayerId, ClipRecord)| (e.1.position as int, e.1.duration as int))
}

pub open spec fn removed_extents(removed: Seq<(ClipId, RemovedClipInfo)>) -> Seq<(int, int)> {
    removed.map_values(|e: (ClipId, RemovedClipInfo)| (e.1.position as int, e.1.duration as int))
}

pub open spec fn removed_ids(removed: Seq<(ClipId, RemovedClipInfo)>) -> Seq<(LayerId, ClipId)> {
    removed.map_values(|e: (ClipId, RemovedClipInfo)| (e.1.layer_id, e.0))
}

/// The upserted layers that the timeline holds.
pub open spec fn found_layers(tl: TimelineModel, ids: Seq<LayerId>) -> Seq<LayerId>
    decreases ids.len(),
{
    if ids.len() == 0 {
        seq![]
    } else {
        let prev = found_layers(tl, ids.drop_last());
        match tl.layer_index(ids.last()) {
            Some(i) => prev.push(ids.last()),
            None => prev,
        }
    }
}

/// The upserted folders that the timeline holds, with their names.
pub open spec fn found_folders(tl: TimelineModel, ids: Seq<LayerFolderId>) -> Seq<
    (LayerFolderId, Seq<char>),
>
    decreases ids.len(),
{
    if ids.len() == 0 {
        seq![]
    } else {
        let prev = found_folders(tl, ids.drop_last());
        match tl.folder_index(ids.last()) {
            Some(i) => prev.push((ids.last(), tl.folders@[i].name@)),
            None => prev,
        }
    }
}

/// The children of a parent of the outline: the roots for `None`, a
/// folder's children for a folder the timeline holds, none otherwise.
pub open spec fn children_of(tl: TimelineModel, parent: Option<LayerFolderId>) -> Seq<OutlineNode> {
    match parent {
        None => tl.roots@,
        Some(f) => match tl.folder_index(f) {
            Some(i) => tl.folders@[i].children@,
            None => seq![],
        },
    }
}

/// Client `c` watches timeline `t` with a range that overlaps `r`.
pub open spec fn watches_overlapping(views: ClientViews, t: TimelineId, r: ViewRange, c: u32) -> bool {
    views.range_of(c, t) matches Some(v) && overlaps(v, r)
}

/// Client `c` watches timeline `t`.
pub open spec fn watches_timeline(views: ClientViews, t: TimelineId, c: u32) -> bool {
    views.range_of(c, t) is Some
}

/// `targets` holds, each once, exactly the clients that watch timeline `t`
/// with a range overlapping `r`.
pub open spec fn targets_overlapping(
    targets: Seq<u32>,
    views: ClientViews,
    t: TimelineId,
    r: ViewRange,
) -> bool {
    &&& targets.no_duplicates()
    &&& forall|c: u32| #[trigger] targets.contains(c) <==> watches_overlapping(views, t, r, c)
}

/// `targets` holds, each once, exactly the clients that watch timeline `t`.
pub open spec fn targets_timeline(targets: Seq<u32>, views: ClientViews, t: TimelineId) -> bool {
    &&& targets.no_duplicates()
    &&& forall|c: u32| #[trigger] targets.contains(c) <==> watches_timeline(views, t, c)
}

/// The arithmetic of a change set stays within `i64`: the end of each
/// upserted clip that the timeline holds, and of each removed clip.
pub open spec fn dispatch_fits(tl: TimelineModel, cs: ChangeSet) -> bool {
    &&& extents_fit(clip_extents(found_clips(tl, cs.clips_upserted@)))
    &&& extents_fit(removed_extents(cs.clips_removed@))
}

proof fn lemma_found_clips_push(tl: TimelineModel, ids: Seq<ClipId>, k: int)
    requires
        0 <= k < ids.len(),
    ensures
        found_clips(tl, ids.take(k + 1)) == match tl.clip_spec(ids[k]) {
            Some(c) => found_clips(tl, ids.take(k)).push((c.layer_id, c)),
            None => found_clips(tl, ids.take(k)),
        },
{
    assert(ids.take(k + 1).drop_last() =~= ids.take(k));
}

/// The upserted clips of a change set that the timeline holds, with the span
/// they cover.
fn collect_upserted(tl: &TimelineModel, ids: &Vec<ClipId>) -> (r: (
    Vec<(LayerId, ClipRecord)>,
    ViewRange,
))
    requires
        extents_fit(clip_extents(found_clips(*tl, ids@))),
    ensures
        r.0@ == found_clips(*tl, ids@),
        r.1 == span_range(clip_extents(found_clips(*tl, ids@))),
{
    let mut clips: Vec<(LayerId, ClipRecord)> = Vec::new();
    let mut start: i64 = i64::MAX;
    let mut end: i64 = i64::MIN;
    let mut k: usize = 0;
    proof {
        let all = found_clips(*tl, ids@);
        assert forall|j: int| 0 <= j < all.len() implies i64::MIN <= #[trigger] clip_extents(
            all,
        )[j].0 <= i64::MAX by {}
    }
    while k < ids.len()
        invariant
            k <= ids@.len(),
            extents_fit(clip_extents(found_clips(*tl, ids@))),
            clips@ == found_clips(*tl, ids@.take(k as int)),
            found_clips(*tl, ids@.take(k as int)).len() <= found_clips(*tl, ids@).len(),
            forall|j: int|
                0 <= j < clips@.len() ==> #[trigger] clips@[j] == found_clips(*tl, ids@)[j],
            start as int == span_of(clip_extents(clips@)).0,
            end as int == span_of(clip_extents(clips@)).1,
        decreases ids@.len() - k,
    {
        proof {
            lemma_found_clips_push(*tl, ids@, k as int);
            lemma_found_prefix(*tl, ids@, k + 1);
        }
        match tl.find_clip(ids[k]) {
            Some(ci) => {
                let clip = tl.clips[ci];
                proof {
                    assert(tl.clip_ids()[ci as int] == clip.id);
                    let all = found_clips(*tl, ids@);
                    let j = clips@.len() as int;
                    assert(found_clips(*tl, ids@.take(k + 1))[j] == (clip.layer_id, clip));
                    assert(all[j] == (clip.layer_id, clip));
                    assert(clip_extents(all)[j] == (clip.position as int, clip.duration as int));
                    assert(i64::MIN <= clip_extents(all)[j].0 + clip_extents(all)[j].1 <= i64::MAX);
                }
                let ghost prev = clips@;
                clips.push((clip.layer_id, clip));
                proof {
                    assert(clips@.drop_last() == prev);
                    assert(clip_extents(clips@).drop_last() =~= clip_extents(prev));
                }
                if clip.position < start {
                    start = clip.position;
                }
                let clip_end = clip.position + clip.duration;
                if clip_end > end {
                    end = clip_end;
                }
            },
            None => {},
        }
        k = k + 1;
    }
    proof {
        assert(ids@.take(k as int) =~= ids@);
    }
    (clips, ViewRange { start, end })
}

proof fn lemma_found_prefix(tl: TimelineModel, ids: Seq<ClipId>, k: int)
    requires
        0 <= k <= ids.len(),
    ensures
        found_clips(tl, ids.take(k)).len() <= found_clips(tl, ids).len(),
        forall|j: int|
            0 <= j < found_clips(tl, ids.take(k)).len() ==> #[trigger] found_clips(
                tl,
                ids.take(k),
            )[j] == found_clips(tl, ids)[j],
    decreases ids.len() - k,
{
    if k < ids.len() {
        lemma_found_prefix(tl, ids, k + 1);
        lemma_found_clips_push(tl, ids, k);
        let a = found_clips(tl, ids.take(k));
        let b = found_clips(tl, ids.take(k + 1));
        assert forall|j: int| 0 <= j < a.len() implies #[trigger] a[j] == found_clips(tl, ids)[j] by {
            assert(a[j] == b[j]);
        }
    } else {
        assert(ids.take(k) =~= ids);
    }
}

/// The removed clips as `(layer, clip)` pairs, with the span they covered.
fn collect_removed(removed: &Vec<(ClipId, RemovedClipInfo)>) -> (r: (
    Vec<(LayerId, ClipId)>,
    ViewRange,
))
    requires
        extents_fit(removed_extents(removed@)),
    ensures
        r.0@ == removed_ids(removed@),
        r.1 == span_range(removed_extents(removed@)),
{
    let mut ids: Vec<(LayerId, ClipId)> = Vec::new();
    let mut start: i64 = i64::MAX;
    let mut end: i64 = i64::MIN;
    let mut k: usize = 0;
    while k < removed.len()
        invariant
            k <= removed@.len(),
            extents_fit(removed_extents(removed@)),
            ids@ == removed_ids(removed@.take(k as int)),
            start as int == span_of(removed_extents(removed@.take(k as int))).0,
            end as int == span_of(removed_extents(removed@.take(k as int))).1,
        decreases removed@.len() - k,
    {
        let (clip_id, info) = removed[k];
        proof {
            assert(removed_extents(removed@.take(k + 1)).drop_last() =~= removed_extents(
                removed@.take(k as int),
            ));
            assert(removed_extents(removed@)[k as int] == (
                info.position as int,
                info.duration as int,
            ));
            assert(i64::MIN <= removed_extents(removed@)[k as int].0 + removed_extents(
                removed@,
            )[k as int].1 <= i64::MAX);
        }
        ids.push((info.layer_id, clip_id));
        proof {
            assert(ids@ =~= removed_ids(removed@.take(k + 1)));
        }
        if info.position < start {
            start = info.position;
        }
        let clip_end = info.position + info.duration;
        if clip_end > end {
            end = clip_end;
        }
        k = k + 1;
    }
    proof {
        assert(removed@.take(k as int) =~= removed@);
    }
    (ids, ViewRange { start, end })
}

/// The upserted layers that the timeline holds, with their name and state.
fn collect_layers(tl: &TimelineModel, ids: &Vec<LayerId>) -> (r: Vec<LayerMeta>)
    ensures
        r@.map_values(|m: LayerMeta| m.id) == found_layers(*tl, ids@),
        forall|j: int|
            0 <= j < r@.len() ==> ({
                let m = #[trigger] r@[j];
                tl.layer_index(m.id) matches Some(i) && m.name@ == tl.layers@[i].name@ && m.enabled
                    == tl.layers@[i].enabled
            }),
{
    let mut r: Vec<LayerMeta> = Vec::new();
    let mut k: usize = 0;
    while k < ids.len()
        invariant
            k <= ids@.len(),
            r@.map_values(|m: LayerMeta| m.id) == found_layers(*tl, ids@.take(k as int)),
            forall|j: int|
                0 <= j < r@.len() ==> ({
                    let m = #[trigger] r@[j];
                    tl.layer_index(m.id) matches Some(i) && m.name@ == tl.layers@[i].name@
                        && m.enabled == tl.layers@[i].enabled
                }),
        decreases ids@.len() - k,
    {
        proof {
            assert(ids@.take(k + 1).drop_last() =~= ids@.take(k as int));
        }
        let id = ids[k];
        match tl.find_layer(id) {
            Some(li) => {
                let layer = &tl.layers[li];
                proof {
                    assert(tl.layer_ids()[li as int] == layer.id);
                    lemma_index_of(tl.layer_ids(), id);
                }
                r.push(LayerMeta { id, name: layer.name.clone(), enabled: layer.enabled });
                proof {
                    assert(r@.map_values(|m: LayerMeta| m.id) =~= found_layers(
                        *tl,
                        ids@.take(k + 1),
                    ));
                }
            },
            None => {},
        }
        k = k + 1;
    }
    proof {
        assert(ids@.take(k as int) =~= ids@);
    }
    r
}

/// The upserted folders that the timeline holds, with their names.
fn collect_folders(tl: &TimelineModel, ids: &Vec<LayerFolderId>) -> (r: Vec<
    (LayerFolderId, String),
>)
    ensures
        r@.map_values(|e: (LayerFolderId, String)| (e.0, e.1@)) == found_folders(*tl, ids@),
{
    let mut r: Vec<(LayerFolderId, String)> = Vec::new();
    let mut k: usize = 0;
    while k < ids.len()
        invariant
            k <= ids@.len(),
            r@.map_values(|e: (LayerFolderId, String)| (e.0, e.1@)) == found_folders(
                *tl,
                ids@.take(k as int),
            ),
        decreases ids@.len() - k,
    {
        proof {
            assert(ids@.take(k + 1).drop_last() =~= ids@.take(k as int));
        }
        let id = ids[k];
        match tl.find_folder(id) {
            Some(fi) => {
                r.push((id, tl.folders[fi].name.clone()));
                proof {
                    assert(r@.map_values(|e: (LayerFolderId, String)| (e.0, e.1@)) =~= found_folders(
                        *tl,
                        ids@.take(k + 1),
                    ));
                }
            },
            None => {},
        }
        k = k + 1;
    }
    proof {
        assert(ids@.take(k as int) =~= ids@);
    }
    r
}

/// The new children of each changed parent.
fn collect_children(tl: &TimelineModel, parents: &Vec<Option<LayerFolderId>>) -> (r: Vec<
    (Option<LayerFolderId>, Vec<OutlineNode>),
>)
    ensures
        r@.len() == parents@.len(),
        forall|j: int|
            0 <= j < r@.len() ==> (#[trigger] r@[j]).0 == parents@[j] && r@[j].1@ == children_of(
                *tl,
                parents@[j],
            ),
{
    let mut r: Vec<(Option<LayerFolderId>, Vec<OutlineNode>)> = Vec::new();
    let mut k: usize = 0;
    while k < parents.len()
        invariant
            k <= parents@.len(),
            r@.len() == k,
            forall|j: int|
                0 <= j < k ==> (#[trigger] r@[j]).0 == parents@[j] && r@[j].1@ == children_of(
                    *tl,
                    parents@[j],
                ),
        decreases parents@.len() - k,
    {
        let parent = parents[k];
        let children = match parent {
            None => copy_nodes(&tl.roots),
            Some(f) => match tl.find_folder(f) {
                Some(fi) => copy_nodes(&tl.folders[fi].children),
                None => Vec::new(),
            },
        };
        r.push((parent, children));
        k = k + 1;
    }
    r
}

/// Whether the ends of the changed clips fit in an `i64` (see
/// `dispatch_fits`), for a caller to test before `plan_changeset_dispatch`.
pub fn changeset_fits(timeline: &TimelineModel, changeset: &ChangeSet) -> (r: bool)
    ensures
        r == dispatch_fits(*timeline, *changeset),
{
    let ids = &changeset.clips_upserted;
    let mut k: usize = 0;
    while k < ids.len()
        invariant
            k <= ids@.len(),
            *ids == changeset.clips_upserted,
            extents_fit(clip_extents(found_clips(*timeline, ids@.take(k as int)))),
        decreases ids@.len() - k,
    {
        let ghost prev = found_clips(*timeline, ids@.take(k as int));
        proof {
            assert(ids@.take(k + 1).drop_last() =~= ids@.take(k as int));
            assert(ids@.take(k + 1).last() == ids@[k as int]);
        }
        match timeline.find_clip(ids[k]) {
            Some(ci) => {
                let c = timeline.clips[ci];
                proof {
                    assert(timeline.clip_ids()[ci as int] == c.id);
                    assert(found_clips(*timeline, ids@.take(k + 1)) == prev.push((c.layer_id, c)));
                    assert(clip_extents(prev.push((c.layer_id, c))) =~= clip_extents(prev).push(
                        (c.position as int, c.duration as int),
                    ));
                }
                let end: i128 = c.position as i128 + c.duration as i128;
                if end < i64::MIN as i128 || end > i64::MAX as i128 {
                    proof {
                        let ext = clip_extents(found_clips(*timeline, ids@.take(k + 1)));
                        let i = prev.len() as int;
                        assert(ext[i] == (c.position as int, c.duration as int));
                        assert(!(i64::MIN <= ext[i].0 + ext[i].1 <= i64::MAX));
                        assert(!extents_fit(ext));
                        lemma_extents_prefix(clip_extents(found_clips(*timeline, ids@.take(k + 1))), ids@, *timeline, k as int + 1);
                    }
                    return false;
                }
            },
            None => {},
        }
        k = k + 1;
    }
    proof {
        assert(ids@.take(k as int) =~= ids@);
    }
    let removed = &changeset.clips_removed;
    let mut j: usize = 0;
    while j < removed.len()
        invariant
            j <= removed@.len(),
            *removed == changeset.clips_removed,
            extents_fit(clip_extents(found_clips(*timeline, changeset.clips_upserted@))),
            forall|q: int| 0 <= q < j ==> i64::MIN <= #[trigger] removed@[q].1.position as int + removed@[q].1.duration as int <= i64::MAX,
        decreases removed@.len() - j,
    {
        let e = removed[j].1;
        let end: i128 = e.position as i128 + e.duration as i128;
        if end < i64::MIN as i128 || end > i64::MAX as i128 {
            proof {
                let ext = removed_extents(removed@);
                assert(ext[j as int] == (e.position as int, e.duration as int));
                assert(!(i64::MIN <= ext[j as int].0 + ext[j as int].1 <= i64::MAX));
                assert(!extents_fit(ext));
            }
            return false;
        }
        j = j + 1;
    }
    proof {
        assert forall|q: int| 0 <= q < removed_extents(removed@).len() implies i64::MIN <= #[trigger] removed_extents(removed@)[q].0 + removed_extents(removed@)[q].1 <= i64::MAX by {
            assert(removed_extents(removed@)[q] == (removed@[q].1.position as int, removed@[q].1.duration as int));
        }
    }
    true
}

/// Once the extents of a prefix of the ids break the bound, those of all
/// the ids do.
proof fn lemma_extents_prefix(ext: Seq<(int, int)>, ids: Seq<ClipId>, tl: TimelineModel, k: int)
    requires
        0 <= k <= ids.len(),
        ext == clip_extents(found_clips(tl, ids.take(k))),
        !extents_fit(ext),
    ensures
        !extents_fit(clip_extents(found_clips(tl, ids))),
    decreases ids.len() - k,
{
    if k == ids.len() {
        assert(ids.take(k) =~= ids);
    } else {
        let prev = found_clips(tl, ids.take(k));
        let next = found_clips(tl, ids.take(k + 1));
        assert(ids.take(k + 1).drop_last() =~= ids.take(k));
        let bad = choose|q: int| 0 <= q < ext.len() && !(i64::MIN <= #[trigger] ext[q].0 + ext[q].1 <= i64::MAX);
        assert(clip_extents(next)[bad] == ext[bad]);
        lemma_extents_prefix(clip_extents(next), ids, tl, k + 1);
    }
}

/// Decides which messages the changes of one timeline give rise to and which
/// clients each goes to. Clip updates go to the clients whose view of the
/// timeline overlaps the span of the upserted (or removed) clips, and only
/// when there is such a client; layer and outline updates go to every client
/// that watches the timeline. Fails when the project has no such timeline.
pub fn plan_changeset_dispatch(
    project: &ProjectModel,
    views: &ClientViews,
    timeline_id: TimelineId,
    changeset: &ChangeSet,
) -> (r: Result<DispatchPlan, HostError>)
    requires
        project.timeline_index(timeline_id) matches Some(i) ==> dispatch_fits(
            project.timelines@[i],
            *changeset,
        ),
    ensures
        r is Ok <==> project.timeline_index(timeline_id) is Some,
        project.timeline_index(timeline_id) is None <==> r == Err::<DispatchPlan, HostError>(
            HostError::TimelineNotFound(timeline_id),
        ),
        r matches Ok(plan) ==> plan_matches(
            plan,
            project.timelines@[project.timeline_index(timeline_id)->0],
            *views,
            timeline_id,
            *changeset,
        ),
{
    let ti = match project.find_timeline(timeline_id) {
        Some(i) => i,
        None => {
            return Err(HostError::TimelineNotFound(timeline_id));
        },
    };
    let tl = &project.timelines[ti];
    let (clips, range) = collect_upserted(tl, &changeset.clips_upserted);
    let (removed_ids_v, removed_range) = collect_removed(&changeset.clips_removed);
    let layer_empty = changeset.is_layer_empty();
    let layers = if !layer_empty {
        collect_layers(tl, &changeset.layers_upserted)
    } else {
        Vec::new()
    };
    let outline_folders = collect_folders(tl, &changeset.outline_folders_upserted);
    let outline_children = collect_children(tl, &changeset.outline_children_changed);

    let mut update_clips = None;
    if clips.len() > 0 {
        let targets = views.clients_watching_in(timeline_id, &range);
        proof {
            lemma_targets_nonempty(targets@, *views, timeline_id, range);
        }
        if targets.len() > 0 {
            update_clips = Some((targets, clips));
        }
    }
    let mut remove_clips = None;
    if changeset.clips_removed.len() > 0 {
        let targets = views.clients_watching_in(timeline_id, &removed_range);
        proof {
            lemma_targets_nonempty(targets@, *views, timeline_id, removed_range);
        }
        if targets.len() > 0 {
            remove_clips = Some((targets, removed_ids_v));
        }
    }
    let mut update_layers = None;
    let mut remove_layers = None;
    if !layer_empty {
        if layers.len() > 0 {
            let targets = views.clients_watching_timeline(timeline_id);
            update_layers = Some((targets, layers));
        }
        if changeset.layers_removed.len() > 0 {
            let targets = views.clients_watching_timeline(timeline_id);
            remove_layers = Some((targets, copy_ids(&changeset.layers_removed)));
        }
    }
    let mut update_outline = None;
    if outline_folders.len() > 0 || outline_children.len() > 0 {
        let targets = views.clients_watching_timeline(timeline_id);
        update_outline = Some((targets, outline_folders, outline_children));
    }
    let mut remove_folders = None;
    if changeset.outline_folders_removed.len() > 0 {
        let targets = views.clients_watching_timeline(timeline_id);
        remove_folders = Some((targets, copy_ids(&changeset.outline_folders_removed)));
    }
    let plan = DispatchPlan {
        update_clips,
        remove_clips,
        update_layers,
        remove_layers,
        update_outline,
        remove_folders,
    };
    Ok(plan)
}

proof fn lemma_targets_nonempty(targets: Seq<u32>, views: ClientViews, t: TimelineId, r: ViewRange)
    requires
        targets_overlapping(targets, views, t, r),
    ensures
        targets.len() > 0 <==> exists|c: u32| watches_overlapping(views, t, r, c),
{
    if targets.len() > 0 {
        assert(targets.contains(targets[0]));
        assert(watches_overlapping(views, t, r, targets[0]));
    }
    if exists|c: u32| watches_overlapping(views, t, r, c) {
        let c = choose|c: u32| watches_overlapping(views, t, r, c);
        assert(targets.contains(c));
    }
}

/// The plan says, for each message, exactly what the description of
/// `plan_changeset_dispatch` says.
pub open spec fn plan_matches(
    plan: DispatchPlan,
    tl: TimelineModel,
    views: ClientViews,
    t: TimelineId,
    cs: ChangeSet,
) -> bool {
    let clips = found_clips(tl, cs.clips_upserted@);
    let span = span_range(clip_extents(clips));
    let removed_span = span_range(removed_extents(cs.clips_removed@));
    let layers = found_layers(tl, cs.layers_upserted@);
    let folders = found_folders(tl, cs.outline_folders_upserted@);
    let parents = cs.outline_children_changed@;
    &&& (plan.update_clips is Some <==> clips.len() > 0 && exists|c: u32|
        #[trigger] watches_overlapping(views, t, span, c))
    &&& (plan.update_clips matches Some(u) ==> targets_overlapping(u.0@, views, t, span)
        && u.1@ == clips)
    &&& (plan.remove_clips is Some <==> cs.clips_removed@.len() > 0 && exists|c: u32|
        #[trigger] watches_overlapping(views, t, removed_span, c))
    &&& (plan.remove_clips matches Some(u) ==> targets_overlapping(u.0@, views, t, removed_span) && u.1@ == removed_ids(cs.clips_removed@))
    &&& (plan.update_layers is Some <==> !cs.spec_is_layer_empty() && layers.len() > 0)
    &&& (plan.update_layers matches Some(u) ==> targets_timeline(u.0@, views, t)
        && u.1@.map_values(|m: LayerMeta| m.id) == layers && forall|j: int|
        0 <= j < u.1@.len() ==> ({
            let m = #[trigger] u.1@[j];
            tl.layer_index(m.id) matches Some(i) && m.name@ == tl.layers@[i].name@ && m.enabled
                == tl.layers@[i].enabled
        }))
    &&& (plan.remove_layers is Some <==> !cs.spec_is_layer_empty() && cs.layers_removed@.len() > 0)
    &&& (plan.remove_layers matches Some(u) ==> targets_timeline(u.0@, views, t)
        && u.1@ == cs.layers_removed@)
    &&& (plan.update_outline is Some <==> folders.len() > 0 || parents.len() > 0)
    &&& (plan.update_outline matches Some(u) ==> targets_timeline(u.0@, views, t)
        && u.1@.map_values(|e: (LayerFolderId, String)| (e.0, e.1@)) == folders && u.2@.len()
        == parents.len() && forall|j: int|
        0 <= j < parents.len() ==> (#[trigger] u.2@[j]).0 == parents[j] && u.2@[j].1@
            == children_of(tl, parents[j]))
    &&& (plan.remove_folders is Some <==> cs.outline_folders_removed@.len() > 0)
    &&& (plan.remove_folders matches Some(u) ==> targets_timeline(u.0@, views, t)
        && u.1@ == cs.outline_folders_removed@)
}

/// The span of a sequence of extents covers each of them: it starts at or
/// before each position and ends at or after each end.
proof fn lemma_span_covers(extents: Seq<(int, int)>, k: int)
    requires
        0 <= k < extents.len(),
    ensures
        span_of(extents).0 <= extents[k].0,
        span_of(extents).1 >= extents[k].0 + extents[k].1,
    decreases extents.len(),
{
    if k < extents.len() - 1 {
        let d = extents.drop_last();
        assert(d[k] == extents[k]);
        lemma_span_covers(d, k);
    }
}

/// An upserted id of a clip that the timeline holds gives that clip, with
/// its layer, among the found clips.
proof fn lemma_found_clips_has(tl: TimelineModel, ids: Seq<ClipId>, k: int, clip: ClipRecord)
    requires
        0 <= k < ids.len(),
        tl.clip_spec(ids[k]) == Some(clip),
    ensures
        found_clips(tl, ids).contains((clip.layer_id, clip)),
    decreases ids.len(),
{
    let prev = found_clips(tl, ids.drop_last());
    if k == ids.len() - 1 {
        assert(found_clips(tl, ids) == prev.push((clip.layer_id, clip)));
        assert(found_clips(tl, ids)[prev.len() as int] == (clip.layer_id, clip));
    } else {
        assert(ids.drop_last()[k] == ids[k]);
        lemma_found_clips_has(tl, ids.drop_last(), k, clip);
        let j = choose|j: int| 0 <= j < prev.len() && prev[j] == (clip.layer_id, clip);
        match tl.clip_spec(ids.last()) {
            Some(c) => assert(found_clips(tl, ids)[j] == prev[j]),
            None => {},
        }
    }
}

/// The span of fitting extents lies within `i64`, so `span_range` keeps it.
proof fn lemma_span_range_exact(extents: Seq<(int, int)>)
    requires
        extents_fit(extents),
        forall|k: int| 0 <= k < extents.len() ==> i64::MIN <= #[trigger] extents[k].0 <= i64::MAX,
    ensures
        span_range(extents).start == span_of(extents).0,
        span_range(extents).end == span_of(extents).1,
{
    lemma_span_bounds(extents);
}

/// A changed clip reaches every client that watches it: for each upserted
/// clip that the timeline holds and each client whose watched range of the
/// timeline overlaps the clip's span `position..position + duration`, the
/// plan has a clip update, sent to that client and carrying the clip.
pub proof fn lemma_upserted_clip_reaches_watchers(
    plan: DispatchPlan,
    tl: TimelineModel,
    views: ClientViews,
    t: TimelineId,
    cs: ChangeSet,
    k: int,
    clip: ClipRecord,
    c: u32,
    v: ViewRange,
)
    requires
        plan_matches(plan, tl, views, t, cs),
        dispatch_fits(tl, cs),
        0 <= k < cs.clips_upserted@.len(),
        tl.clip_spec(cs.clips_upserted@[k]) == Some(clip),
        views.range_of(c, t) == Some(v),
        v.start < clip.position + clip.duration,
        clip.position < v.end,
    ensures
        plan.update_clips matches Some(u) && u.0@.contains(c) && u.1@.contains((clip.layer_id, clip)),
{
    let clips = found_clips(tl, cs.clips_upserted@);
    let ext = clip_extents(clips);
    lemma_found_clips_has(tl, cs.clips_upserted@, k, clip);
    let j = choose|j: int| 0 <= j < clips.len() && clips[j] == (clip.layer_id, clip);
    assert(ext[j] == (clip.position as int, clip.duration as int));
    lemma_span_covers(ext, j);
    assert forall|q: int| 0 <= q < ext.len() implies i64::MIN <= #[trigger] ext[q].0 <= i64::MAX by {
        assert(ext[q] == (clips[q].1.position as int, clips[q].1.duration as int));
    }
    lemma_span_range_exact(ext);
    assert(watches_overlapping(views, t, span_range(ext), c));
}

/// A removed clip's removal reaches every client that watched it: for each
/// removed clip and each client whose watched range of the timeline overlaps
/// the span the clip covered, the plan has a removal, sent to that client
/// and naming the clip with its layer.
pub proof fn lemma_removed_clip_reaches_watchers(
    plan: DispatchPlan,
    tl: TimelineModel,
    views: ClientViews,
    t: TimelineId,
    cs: ChangeSet,
    k: int,
    c: u32,
    v: ViewRange,
)
    requires
        plan_matches(plan, tl, views, t, cs),
        dispatch_fits(tl, cs),
        0 <= k < cs.clips_removed@.len(),
        views.range_of(c, t) == Some(v),
        v.start < cs.clips_removed@[k].1.position + cs.clips_removed@[k].1.duration,
        cs.clips_removed@[k].1.position < v.end,
    ensures
        plan.remove_clips matches Some(u) && u.0@.contains(c) && u.1@.contains(
            (cs.clips_removed@[k].1.layer_id, cs.clips_removed@[k].0),
        ),
{
    let removed = cs.clips_removed@;
    let ext = removed_extents(removed);
    assert(ext[k] == (removed[k].1.position as int, removed[k].1.duration as int));
    lemma_span_covers(ext, k);
    assert forall|q: int| 0 <= q < ext.len() implies i64::MIN <= #[trigger] ext[q].0 <= i64::MAX by {
        assert(ext[q] == (removed[q].1.position as int, removed[q].1.duration as int));
    }
    lemma_span_range_exact(ext);
    assert(watches_overlapping(views, t, span_range(ext), c));
    assert(removed_ids(removed)[k] == (removed[k].1.layer_id, removed[k].0));
}

/// The span of non-empty, fitting extents starts at one of their positions
/// and ends at one of their ends.
proof fn lemma_span_attained(extents: Seq<(int, int)>)
    requires
        extents.len() > 0,
        extents_fit(extents),
        forall|k: int| 0 <= k < extents.len() ==> i64::MIN <= #[trigger] extents[k].0 <= i64::MAX,
    ensures
        exists|j: int| 0 <= j < extents.len() && span_of(extents).0 == #[trigger] extents[j].0,
        exists|i: int| 0 <= i < extents.len() && span_of(extents).1 == #[trigger] extents[i].0 + extents[i].1,
    decreases extents.len(),
{
    let n = extents.len() - 1;
    let d = extents.drop_last();
    let e = extents[n];
    assert(i64::MIN <= e.0 + e.1 <= i64::MAX);
    if d.len() > 0 {
        assert forall|k: int| 0 <= k < d.len() implies i64::MIN <= #[trigger] d[k].0 + d[k].1
            <= i64::MAX by {
            assert(d[k] == extents[k]);
        }
        assert forall|k: int| 0 <= k < d.len() implies i64::MIN <= #[trigger] d[k].0 <= i64::MAX by {
            assert(d[k] == extents[k]);
        }
        lemma_span_attained(d);
        let j = choose|j: int| 0 <= j < d.len() && span_of(d).0 == #[trigger] d[j].0;
        let i = choose|i: int| 0 <= i < d.len() && span_of(d).1 == #[trigger] d[i].0 + d[i].1;
        assert(d[j] == extents[j] && d[i] == extents[i]);
        if span_of(extents).0 == e.0 {
            assert(span_of(extents).0 == extents[n].0);
        } else {
            assert(span_of(extents).0 == extents[j].0);
        }
        if span_of(extents).1 == e.0 + e.1 {
            assert(span_of(extents).1 == extents[n].0 + extents[n].1);
        } else {
            assert(span_of(extents).1 == extents[i].0 + extents[i].1);
        }
    } else {
        assert(span_of(extents).0 == extents[0].0);
        assert(span_of(extents).1 == extents[0].0 + extents[0].1);
    }
}

/// A clip update goes only to clients that watch near the changed clips:
/// each client it is sent to watches a range of the timeline that overlaps
/// the stretch from the first start to the last end of the upserted clips
/// that the timeline holds.
pub proof fn lemma_clip_update_only_near_changes(
    plan: DispatchPlan,
    tl: TimelineModel,
    views: ClientViews,
    t: TimelineId,
    cs: ChangeSet,
    c: u32,
)
    requires
        plan_matches(plan, tl, views, t, cs),
        dispatch_fits(tl, cs),
        plan.update_clips matches Some(u) && u.0@.contains(c),
    ensures
        views.range_of(c, t) matches Some(v) && (exists|a: (LayerId, ClipRecord), b: (LayerId, ClipRecord)|
            #![trigger found_clips(tl, cs.clips_upserted@).contains(a), found_clips(tl, cs.clips_upserted@).contains(b)]
            found_clips(tl, cs.clips_upserted@).contains(a) && found_clips(tl, cs.clips_upserted@).contains(b)
                && v.start < b.1.position + b.1.duration && a.1.position < v.end),
{
    let clips = found_clips(tl, cs.clips_upserted@);
    let ext = clip_extents(clips);
    assert forall|q: int| 0 <= q < ext.len() implies i64::MIN <= #[trigger] ext[q].0 <= i64::MAX by {
        assert(ext[q] == (clips[q].1.position as int, clips[q].1.duration as int));
    }
    lemma_span_range_exact(ext);
    lemma_span_attained(ext);
    let j = choose|j: int| 0 <= j < ext.len() && span_of(ext).0 == #[trigger] ext[j].0;
    let i = choose|i: int| 0 <= i < ext.len() && span_of(ext).1 == #[trigger] ext[i].0 + ext[i].1;
    assert(ext[j] == (clips[j].1.position as int, clips[j].1.duration as int));
    assert(ext[i] == (clips[i].1.position as int, clips[i].1.duration as int));
    assert(clips.contains(clips[j]) && clips.contains(clips[i]));
}

/// A removal goes only to clients that watch near the removed clips: each
/// client it is sent to watches a range of the timeline that overlaps the
/// stretch from the first start to the last end the removed clips covered.
pub proof fn lemma_clip_removal_only_near_changes(
    plan: DispatchPlan,
    tl: TimelineModel,
    views: ClientViews,
    t: TimelineId,
    cs: ChangeSet,
    c: u32,
)
    requires
        plan_matches(plan, tl, views, t, cs),
        dispatch_fits(tl, cs),
        plan.remove_clips matches Some(u) && u.0@.contains(c),
    ensures
        views.range_of(c, t) matches Some(v) && (exists|a: int, b: int|
            0 <= a < cs.clips_removed@.len() && 0 <= b < cs.clips_removed@.len() && v.start
                < #[trigger] cs.clips_removed@[b].1.position + cs.clips_removed@[b].1.duration
                && #[trigger] cs.clips_removed@[a].1.position < v.end),
{
    let removed = cs.clips_removed@;
    let ext = removed_extents(removed);
    assert forall|q: int| 0 <= q < ext.len() implies i64::MIN <= #[trigger] ext[q].0 <= i64::MAX by {
        assert(ext[q] == (removed[q].1.position as int, removed[q].1.duration as int));
    }
    lemma_span_range_exact(ext);
    lemma_span_attained(ext);
    let j = choose|j: int| 0 <= j < ext.len() && span_of(ext).0 == #[trigger] ext[j].0;
    let i = choose|i: int| 0 <= i < ext.len() && span_of(ext).1 == #[trigger] ext[i].0 + ext[i].1;
    assert(ext[j] == (removed[j].1.position as int, removed[j].1.duration as int));
    assert(ext[i] == (removed[i].1.position as int, removed[i].1.duration as int));
}

} // verus!
