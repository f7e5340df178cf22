use vstd::prelude::*;

use crate::client::{dirty_all, ClientAction};
use crate::client_views::{overlaps, ClientViews, ViewRange};
use crate::dispatch::{
    clip_extents, found_clips, plan_matches, span_range, watches_overlapping, ChangeSet, DispatchPlan,
};
use crate::model::TimelineModel;
use crate::ids::{ResourceId, TimelineId};
use crate::server::{loaded_id, resource_id_for, watched_all, watched_one, ResourceTable};

verus! {

/// A client that asked for range `range` of timeline `t` is then among the
/// clients watching a range `q` of `t` exactly when `q` overlaps `range`;
/// what the other clients watch is unchanged.
pub proof fn lemma_fetch_then_watching(
    before: ClientViews,
    after: ClientViews,
    c: u32,
    t: TimelineId,
    range: ViewRange,
    q: ViewRange,
)
    requires
        watched_one(before, after, c, t, range),
    ensures
        (after.range_of(c, t) matches Some(v) && overlaps(v, q)) <==> overlaps(range, q),
        forall|d: u32, u: TimelineId| (d != c || u != t) ==> #[trigger] after.range_of(d, u)
            == before.range_of(d, u),
{
    assert(after.range_of(c, t) == Some(range));
}

/// A client that opened a project watches every non-empty range of each of
/// its timelines, so every change of the project is sent to it.
pub proof fn lemma_opened_project_watches_everything(
    before: ClientViews,
    after: ClientViews,
    c: u32,
    ids: Seq<TimelineId>,
    t: TimelineId,
    q: ViewRange,
)
    requires
        watched_all(before, after, c, ids),
        ids.contains(t),
        q.start < q.end,
    ensures
        after.range_of(c, t) matches Some(v) && overlaps(v, q),
{
    assert(after.range_of(c, t) == Some(ViewRange { start: i64::MIN, end: i64::MAX }));
}

/// Opening a path whose stream state records no id takes a new id each
/// time: the id given before and the id given after the counter moved on
/// differ.
pub proof fn lemma_reopened_path_gets_new_id(before: ResourceTable, after: ResourceTable, path: Seq<char>)
    requires
        loaded_id(before.stream_states@, path) is None,
        after.stream_states == before.stream_states,
        after.next_resource_id == before.next_resource_id.wrapping_add(1),
    ensures
        resource_id_for(after, path) != resource_id_for(before, path),
{
}

/// After the project's metadata arrives, every timeline index below the
/// number of timelines is marked for redrawing, once, in increasing order.
pub proof fn lemma_project_meta_marks_each(count: nat)
    ensures
        dirty_all(count).len() == count,
        forall|i: int| 0 <= i < count ==> #[trigger] dirty_all(count)[i] == ClientAction::MarkDirty(
            i as u32,
        ),
    decreases count,
{
    if count > 0 {
        lemma_project_meta_marks_each((count - 1) as nat);
        assert forall|i: int| 0 <= i < count implies #[trigger] dirty_all(count)[i]
            == ClientAction::MarkDirty(i as u32) by {
            if i < count - 1 {
                assert(dirty_all(count)[i] == dirty_all((count - 1) as nat)[i]);
            }
        }
    }
}

/// A client that asked for a range of a timeline is sent every change of
/// the clips of that timeline whose span overlaps the range: the planned
/// update exists and goes to that client.
pub proof fn lemma_watcher_gets_clip_updates(
    before: ClientViews,
    views: ClientViews,
    c: u32,
    t: TimelineId,
    range: ViewRange,
    plan: DispatchPlan,
    tl: TimelineModel,
    cs: ChangeSet,
)
    requires
        watched_one(before, views, c, t, range),
        plan_matches(plan, tl, views, t, cs),
        found_clips(tl, cs.clips_upserted@).len() > 0,
        overlaps(range, span_range(clip_extents(found_clips(tl, cs.clips_upserted@)))),
    ensures
        plan.update_clips matches Some(u) && u.0@.contains(c),
{
    let span = span_range(clip_extents(found_clips(tl, cs.clips_upserted@)));
    assert(views.range_of(c, t) == Some(range));
    assert(watches_overlapping(views, t, span, c));
}

} // verus!
