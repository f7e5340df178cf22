use vstd::prelude::*;

use crate::ids::{ClipId, LayerFolderId, LayerId, TimelineId, TimelineTick};
use crate::model::{contains_u64, lemma_index_of, ClipRecord, OutlineNode, ProjectModel, TimelineModel};

verus! {

/// One clip of a layer row, as the timeline widget draws it.
#[derive(Clone, Copy, Debug, PartialEq, Eq, Structural)]
pub struct ClipRenderInfo {
    pub clip_id: ClipId,
    /// The clip's position plus the position of the composite clips it lies in.
    pub abs_frame: TimelineTick,
    pub duration: TimelineTick,
    pub is_composite: bool,
    /// The clip is composite and the user has opened it.
    pub is_open: bool,
}

/// What a row shows: a layer or a folder.
#[derive(Clone, Copy, Debug, PartialEq, Eq, Structural)]
pub enum LayerRowKind {
    Layer(LayerId),
    Folder(LayerFolderId),
}

/// A row of the timeline widget.
pub struct LayerRow {
    pub kind: LayerRowKind,
    /// The timeline the row belongs to (rows of opened composite clips
    /// belong to the nested timeline).
    pub timeline_id: TimelineId,
    pub depth: u32,
    pub is_folder_open: bool,
    pub clips: Vec<ClipRenderInfo>,
}

/// A row, with its clips as a sequence.
pub ghost struct LayerRowView {
    pub kind: LayerRowKind,
    pub timeline_id: TimelineId,
    pub depth: u32,
    pub is_folder_open: bool,
    pub clips: Seq<ClipRenderInfo>,
}

impl View for LayerRow {
    type V = LayerRowView;

    open spec fn view(&self) -> LayerRowView {
        LayerRowView {
            kind: self.kind,
            timeline_id: self.timeline_id,
            depth: self.depth,
            is_folder_open: self.is_folder_open,
            clips: self.clips@,
        }
    }
}

pub open spec fn rows_view(rows: Seq<LayerRow>) -> Seq<LayerRowView> {
    rows.map_values(|r: LayerRow| r@)
}

/// The render info of one clip slot `(position, clip id)` of a layer, if the
/// timeline holds the clip.
pub open spec fn slot_info(
    tl: TimelineModel,
    slot: (TimelineTick, ClipId),
    open_ids: Seq<u64>,
    abs: int,
) -> Option<ClipRenderInfo> {
    match tl.clip_spec(slot.1) {
        Some(c) => Some(
            ClipRenderInfo {
                clip_id: c.id,
                abs_frame: (abs + slot.0) as i64,
                duration: c.duration,
                is_composite: c.is_composite,
                is_open: c.is_composite && open_ids.contains(c.id),
            },
        ),
        None => None,
    }
}

pub open spec fn slot_infos(
    tl: TimelineModel,
    slots: Seq<(TimelineTick, ClipId)>,
    open_ids: Seq<u64>,
    abs: int,
) -> Seq<ClipRenderInfo>
    decreases slots.len(),
{
    if slots.len() == 0 {
        seq![]
    } else {
        let prev = slot_infos(tl, slots.drop_last(), open_ids, abs);
        match slot_info(tl, slots.last(), open_ids, abs) {
            Some(info) => prev.push(info),
            None => prev,
        }
    }
}

/// For a clip slot whose clip is open and refers to a timeline of the
/// project: the absolute frame of the clip and the index of that timeline.
pub open spec fn slot_opened(
    p: ProjectModel,
    tl: TimelineModel,
    slot: (TimelineTick, ClipId),
    open_ids: Seq<u64>,
    abs: int,
) -> Option<(int, int)> {
    match tl.clip_spec(slot.1) {
        Some(c) => {
            if c.is_composite && open_ids.contains(c.id) {
                match c.nested_timeline {
                    Some(child) => match p.timeline_index(child) {
                        Some(ci) => Some((abs + slot.0, ci)),
                        None => None,
                    },
                    None => None,
                }
            } else {
                None
            }
        },
        None => None,
    }
}

pub open spec fn slots_opened(
    p: ProjectModel,
    tl: TimelineModel,
    slots: Seq<(TimelineTick, ClipId)>,
    open_ids: Seq<u64>,
    abs: int,
) -> Seq<(int, int)>
    decreases slots.len(),
{
    if slots.len() == 0 {
        seq![]
    } else {
        let prev = slots_opened(p, tl, slots.drop_last(), open_ids, abs);
        match slot_opened(p, tl, slots.last(), open_ids, abs) {
            Some(o) => prev.push(o),
            None => prev,
        }
    }
}

/// The absolute frame of every clip of the slots that the timeline holds
/// fits in an `i64`.
pub open spec fn slots_fit(tl: TimelineModel, slots: Seq<(TimelineTick, ClipId)>, abs: int) -> bool {
    forall|k: int|
        0 <= k < slots.len() && (#[trigger] tl.clip_spec(slots[k].1)) is Some ==> i64::MIN <= abs
            + slots[k].0 <= i64::MAX
}

/// The rows of a sequence of outline nodes of timeline `t`, depth first.
pub open spec fn rows_nodes(
    p: ProjectModel,
    t: int,
    nodes: Seq<OutlineNode>,
    open_ids: Seq<u64>,
    open_folders: Seq<u64>,
    abs: int,
    depth: u32,
) -> Seq<LayerRowView>
    decreases u32::MAX - depth, 1int, nodes.len(),
{
    if nodes.len() == 0 {
        seq![]
    } else {
        rows_nodes(p, t, nodes.drop_last(), open_ids, open_folders, abs, depth) + rows_node(
            p,
            t,
            nodes.last(),
            open_ids,
            open_folders,
            abs,
            depth,
        )
    }
}

/// The rows of one outline node of timeline `t`: its own row, then the rows
/// of the timelines of its opened clips (for a layer) or of its children
/// (for an opened folder).
pub open spec fn rows_node(
    p: ProjectModel,
    t: int,
    node: OutlineNode,
    open_ids: Seq<u64>,
    open_folders: Seq<u64>,
    abs: int,
    depth: u32,
) -> Seq<LayerRowView>
    decreases u32::MAX - depth, 0int, 0int,
{
    if !(0 <= t < p.timelines@.len()) {
        seq![]
    } else {
        let tl = p.timelines@[t];
        match node {
            OutlineNode::Layer(lid) => match tl.layer_index(lid) {
                None => seq![],
                Some(li) => {
                    let slots = tl.layers@[li].clips@;
                    let row = LayerRowView {
                        kind: LayerRowKind::Layer(lid),
                        timeline_id: tl.id,
                        depth,
                        is_folder_open: false,
                        clips: slot_infos(tl, slots, open_ids, abs),
                    };
                    if depth < u32::MAX {
                        seq![row] + rows_opened(
                            p,
                            slots_opened(p, tl, slots, open_ids, abs),
                            open_ids,
                            open_folders,
                            (depth + 1) as u32,
                        )
                    } else {
                        seq![row]
                    }
                },
            },
            OutlineNode::Folder(fid) => match tl.folder_index(fid) {
                None => seq![],
                Some(fi) => {
                    let is_open = open_folders.contains(fid);
                    let row = LayerRowView {
                        kind: LayerRowKind::Folder(fid),
                        timeline_id: tl.id,
                        depth,
                        is_folder_open: is_open,
                        clips: seq![],
                    };
                    if is_open && depth < u32::MAX {
                        seq![row] + rows_nodes(
                            p,
                            t,
                            tl.folders@[fi].children@,
                            open_ids,
                            open_folders,
                            abs,
                            (depth + 1) as u32,
                        )
                    } else {
                        seq![row]
                    }
                },
            },
        }
    }
}

/// The rows of the opened timelines `(absolute frame, timeline index)`, in order.
pub open spec fn rows_opened(
    p: ProjectModel,
    opened: Seq<(int, int)>,
    open_ids: Seq<u64>,
    open_folders: Seq<u64>,
    depth: u32,
) -> Seq<LayerRowView>
    decreases u32::MAX - depth, 2int, opened.len(),
{
    if opened.len() == 0 {
        seq![]
    } else {
        let o = opened.last();
        rows_opened(p, opened.drop_last(), open_ids, open_folders, depth) + if 0 <= o.1
            < p.timelines@.len() {
            rows_nodes(p, o.1, p.timelines@[o.1].roots@, open_ids, open_folders, o.0, depth)
        } else {
            seq![]
        }
    }
}

/// The walk over these nodes never needs a depth beyond `u32::MAX` and every
/// absolute frame it computes fits in an `i64`.
pub open spec fn nodes_ok(
    p: ProjectModel,
    t: int,
    nodes: Seq<OutlineNode>,
    open_ids: Seq<u64>,
    open_folders: Seq<u64>,
    abs: int,
    depth: u32,
) -> bool
    decreases u32::MAX - depth, 1int, nodes.len(),
{
    nodes.len() == 0 || (nodes_ok(p, t, nodes.drop_last(), open_ids, open_folders, abs, depth)
        && node_ok(p, t, nodes.last(), open_ids, open_folders, abs, depth))
}

pub open spec fn node_ok(
    p: ProjectModel,
    t: int,
    node: OutlineNode,
    open_ids: Seq<u64>,
    open_folders: Seq<u64>,
    abs: int,
    depth: u32,
) -> bool
    decreases u32::MAX - depth, 0int, 0int,
{
    if !(0 <= t < p.timelines@.len()) {
        true
    } else {
        let tl = p.timelines@[t];
        match node {
            OutlineNode::Layer(lid) => match tl.layer_index(lid) {
                None => true,
                Some(li) => {
                    let slots = tl.layers@[li].clips@;
                    let opened = slots_opened(p, tl, slots, open_ids, abs);
                    &&& slots_fit(tl, slots, abs)
                    &&& if depth < u32::MAX {
                        opened_ok(p, opened, open_ids, open_folders, (depth + 1) as u32)
                    } else {
                        opened.len() == 0
                    }
                },
            },
            OutlineNode::Folder(fid) => match tl.folder_index(fid) {
                None => true,
                Some(fi) => {
                    open_folders.contains(fid) ==> depth < u32::MAX && nodes_ok(
                        p,
                        t,
                        tl.folders@[fi].children@,
                        open_ids,
                        open_folders,
                        abs,
                        (depth + 1) as u32,
                    )
                },
            },
        }
    }
}

pub open spec fn opened_ok(
    p: ProjectModel,
    opened: Seq<(int, int)>,
    open_ids: Seq<u64>,
    open_folders: Seq<u64>,
    depth: u32,
) -> bool
    decreases u32::MAX - depth, 2int, opened.len(),
{
    opened.len() == 0 || ({
        let o = opened.last();
        &&& opened_ok(p, opened.drop_last(), open_ids, open_folders, depth)
        &&& 0 <= o.1 < p.timelines@.len() ==> nodes_ok(
            p,
            o.1,
            p.timelines@[o.1].roots@,
            open_ids,
            open_folders,
            o.0,
            depth,
        )
    })
}

proof fn lemma_nodes_ok_prefix(
    p: ProjectModel,
    t: int,
    nodes: Seq<OutlineNode>,
    open_ids: Seq<u64>,
    open_folders: Seq<u64>,
    abs: int,
    depth: u32,
    k: int,
)
    requires
        nodes_ok(p, t, nodes, open_ids, open_folders, abs, depth),
        0 <= k < nodes.len(),
    ensures
        node_ok(p, t, nodes[k], open_ids, open_folders, abs, depth),
    decreases nodes.len(),
{
    if k < nodes.len() - 1 {
        lemma_nodes_ok_prefix(p, t, nodes.drop_last(), open_ids, open_folders, abs, depth, k);
    }
}

proof fn lemma_opened_ok_prefix(
    p: ProjectModel,
    opened: Seq<(int, int)>,
    open_ids: Seq<u64>,
    open_folders: Seq<u64>,
    depth: u32,
    k: int,
)
    requires
        opened_ok(p, opened, open_ids, open_folders, depth),
        0 <= k < opened.len(),
    ensures
        0 <= opened[k].1 < p.timelines@.len() ==> nodes_ok(
            p,
            opened[k].1,
            p.timelines@[opened[k].1].roots@,
            open_ids,
            open_folders,
            opened[k].0,
            depth,
        ),
    decreases opened.len(),
{
    if k < opened.len() - 1 {
        lemma_opened_ok_prefix(p, opened.drop_last(), open_ids, open_folders, depth, k);
    }
}

/// Appends the rows of `nodes` (nodes of timeline `t`) to `result`, depth first:
/// each layer's row, followed by the rows of the timelines of its opened
/// composite clips one level deeper; each folder's row, followed, when the
/// folder is open, by the rows of its children one level deeper.
pub fn build_layer_rows(
    project: &ProjectModel,
    t: usize,
    nodes: &Vec<OutlineNode>,
    open_ids: &Vec<u64>,
    open_folder_ids: &Vec<u64>,
    parent_abs_frame: i64,
    depth: u32,
    result: &mut Vec<LayerRow>,
)
    requires
        t < project.timelines@.len(),
        nodes_ok(
            *project,
            t as int,
            nodes@,
            open_ids@,
            open_folder_ids@,
            parent_abs_frame as int,
            depth,
        ),
    ensures
        rows_view(final(result)@) == rows_view(old(result)@) + rows_nodes(
            *project,
            t as int,
            nodes@,
            open_ids@,
            open_folder_ids@,
            parent_abs_frame as int,
            depth,
        ),
    decreases u32::MAX - depth, 1int, nodes@.len(),
{
    let ghost start = rows_view(result@);
    let mut k: usize = 0;
    while k < nodes.len()
        invariant
            k <= nodes@.len(),
            t < project.timelines@.len(),
            nodes_ok(
                *project,
                t as int,
                nodes@,
                open_ids@,
                open_folder_ids@,
                parent_abs_frame as int,
                depth,
            ),
            rows_view(result@) == start + rows_nodes(
                *project,
                t as int,
                nodes@.take(k as int),
                open_ids@,
                open_folder_ids@,
                parent_abs_frame as int,
                depth,
            ),
        decreases nodes@.len() - k,
    {
        proof {
            lemma_nodes_ok_prefix(
                *project,
                t as int,
                nodes@,
                open_ids@,
                open_folder_ids@,
                parent_abs_frame as int,
                depth,
                k as int,
            );
            assert(nodes@.take(k + 1).drop_last() =~= nodes@.take(k as int));
        }
        build_layer_row_recursive(
            project,
            t,
            nodes[k],
            open_ids,
            open_folder_ids,
            parent_abs_frame,
            depth,
            result,
        );
        k = k + 1;
    }
    proof {
        assert(nodes@.take(k as int) =~= nodes@);
    }
}

/// Appends the rows of one outline node of timeline `t` to `result`.
pub fn build_layer_row_recursive(
    project: &ProjectModel,
    t: usize,
    node: OutlineNode,
    open_ids: &Vec<u64>,
    open_folder_ids: &Vec<u64>,
    parent_abs_frame: i64,
    depth: u32,
    result: &mut Vec<LayerRow>,
)
    requires
        t < project.timelines@.len(),
        node_ok(
            *project,
            t as int,
            node,
            open_ids@,
            open_folder_ids@,
            parent_abs_frame as int,
            depth,
        ),
    ensures
        rows_view(final(result)@) == rows_view(old(result)@) + rows_node(
            *project,
            t as int,
            node,
            open_ids@,
            open_folder_ids@,
            parent_abs_frame as int,
            depth,
        ),
    decreases u32::MAX - depth, 0int, 0int,
{
    let ghost start = rows_view(result@);
    let ghost p = *project;
    let ghost oi = open_ids@;
    let ghost of = open_folder_ids@;
    let ghost abs = parent_abs_frame as int;
    let tl = &project.timelines[t];
    match node {
        OutlineNode::Layer(layer_id) => {
            let li = match tl.find_layer(layer_id) {
                Some(i) => i,
                None => {
                    return;
                },
            };
            let layer = &tl.layers[li];
            let ghost slots = layer.clips@;
            let mut clips: Vec<ClipRenderInfo> = Vec::new();
            let mut opened: Vec<(i64, usize)> = Vec::new();
            let mut k: usize = 0;
            while k < layer.clips.len()
                invariant
                    k <= slots.len(),
                    slots == layer.clips@,
                    *tl == p.timelines@[t as int],
                    t < p.timelines@.len(),
                    p == *project,
                    oi == open_ids@,
                    slots_fit(*tl, slots, abs),
                    abs == parent_abs_frame as int,
                    clips@ == slot_infos(*tl, slots.take(k as int), oi, abs),
                    opened@.map_values(|o: (i64, usize)| (o.0 as int, o.1 as int)) == slots_opened(
                        p,
                        *tl,
                        slots.take(k as int),
                        oi,
                        abs,
                    ),
                    forall|j: int| 0 <= j < opened@.len() ==> opened@[j].1 < p.timelines@.len(),
                decreases slots.len() - k,
            {
                let ghost prev_opened = opened@;
                proof {
                    assert(slots.take(k + 1).drop_last() =~= slots.take(k as int));
                    assert(slots.take(k + 1).last() == slots[k as int]);
                }
                let (pos, clip_id) = layer.clips[k];
                match tl.find_clip(clip_id) {
                    None => {},
                    Some(ci) => {
                        let clip = &tl.clips[ci];
                        proof {
                            assert(tl.clip_ids()[ci as int] == clip.id);
                            assert(tl.clip_spec(slots[k as int].1) == Some(*clip));
                        }
                        let abs_frame = parent_abs_frame + pos;
                        let is_composite = clip.is_composite;
                        let is_open = is_composite && contains_u64(open_ids, clip.id);
                        clips.push(
                            ClipRenderInfo {
                                clip_id: clip.id,
                                abs_frame,
                                duration: clip.duration,
                                is_composite,
                                is_open,
                            },
                        );
                        if is_open {
                            match clip.nested_timeline {
                                Some(child_id) => {
                                    match project.find_timeline(child_id) {
                                        Some(cti) => {
                                            opened.push((abs_frame, cti));
                                        },
                                        None => {},
                                    }
                                },
                                None => {},
                            }
                        }
                    },
                }
                proof {
                    assert(opened@.map_values(|o: (i64, usize)| (o.0 as int, o.1 as int))
                        =~= slots_opened(p, *tl, slots.take(k + 1), oi, abs));
                }
                k = k + 1;
            }
            proof {
                assert(slots.take(k as int) =~= slots);
            }
            let ghost opened_v = opened@.map_values(|o: (i64, usize)| (o.0 as int, o.1 as int));
            let ghost row_v = LayerRowView {
                kind: LayerRowKind::Layer(layer_id),
                timeline_id: tl.id,
                depth,
                is_folder_open: false,
                clips: clips@,
            };
            result.push(
                LayerRow {
                    kind: LayerRowKind::Layer(layer_id),
                    timeline_id: tl.id,
                    depth,
                    is_folder_open: false,
                    clips,
                },
            );
            proof {
                assert(rows_view(result@) =~= start + seq![row_v]);
            }
            let mut j: usize = 0;
            while j < opened.len()
                invariant
                    j <= opened@.len(),
                    p == *project,
                    oi == open_ids@,
                    of == open_folder_ids@,
                    opened_v == opened@.map_values(|o: (i64, usize)| (o.0 as int, o.1 as int)),
                    forall|i: int| 0 <= i < opened@.len() ==> opened@[i].1 < p.timelines@.len(),
                    opened@.len() > 0 ==> depth < u32::MAX,
                    opened@.len() > 0 ==> opened_ok(p, opened_v, oi, of, (depth + 1) as u32),
                    rows_view(result@) == start + seq![row_v] + rows_opened(
                        p,
                        opened_v.take(j as int),
                        oi,
                        of,
                        (depth + 1) as u32,
                    ),
                decreases opened@.len() - j,
            {
                proof {
                    lemma_opened_ok_prefix(p, opened_v, oi, of, (depth + 1) as u32, j as int);
                    assert(opened_v.take(j + 1).drop_last() =~= opened_v.take(j as int));
                    assert(opened_v.take(j + 1).last() == opened_v[j as int]);
                }
                let (child_abs, cti) = opened[j];
                build_layer_rows(
                    project,
                    cti,
                    &project.timelines[cti].roots,
                    open_ids,
                    open_folder_ids,
                    child_abs,
                    depth + 1,
                    result,
                );
                j = j + 1;
            }
            proof {
                assert(opened_v.take(j as int) =~= opened_v);
                if opened@.len() == 0 {
                    assert(opened_v.len() == 0);
                }
            }
        },
        OutlineNode::Folder(folder_id) => {
            let fi = match tl.find_folder(folder_id) {
                Some(i) => i,
                None => {
                    return;
                },
            };
            let folder = &tl.folders[fi];
            let is_open = contains_u64(open_folder_ids, folder_id);
            let ghost row_v = LayerRowView {
                kind: LayerRowKind::Folder(folder_id),
                timeline_id: tl.id,
                depth,
                is_folder_open: is_open,
                clips: seq![],
            };
            let row = LayerRow {
                kind: LayerRowKind::Folder(folder_id),
                timeline_id: tl.id,
                depth,
                is_folder_open: is_open,
                clips: Vec::new(),
            };
            proof {
                assert(row@ =~= row_v);
            }
            result.push(row);
            proof {
                assert(rows_view(result@) =~= start + seq![row_v]);
            }
            if is_open {
                build_layer_rows(
                    project,
                    t,
                    &folder.children,
                    open_ids,
                    open_folder_ids,
                    parent_abs_frame,
                    depth + 1,
                    result,
                );
            }
        },
    }
}

/// The nodes of the outline that the timeline holds, as row kinds, in order.
pub open spec fn held_kinds(tl: TimelineModel, nodes: Seq<OutlineNode>) -> Seq<LayerRowKind>
    decreases nodes.len(),
{
    if nodes.len() == 0 {
        seq![]
    } else {
        let prev = held_kinds(tl, nodes.drop_last());
        match nodes.last() {
            OutlineNode::Layer(id) => if tl.layer_index(id) is Some {
                prev.push(LayerRowKind::Layer(id))
            } else {
                prev
            },
            OutlineNode::Folder(id) => if tl.folder_index(id) is Some {
                prev.push(LayerRowKind::Folder(id))
            } else {
                prev
            },
        }
    }
}

proof fn lemma_nothing_opened(p: ProjectModel, tl: TimelineModel, slots: Seq<(TimelineTick, ClipId)>, abs: int)
    ensures
        slots_opened(p, tl, slots, seq![], abs) == Seq::<(int, int)>::empty(),
    decreases slots.len(),
{
    if slots.len() > 0 {
        lemma_nothing_opened(p, tl, slots.drop_last(), abs);
    }
}

/// With nothing opened, the rows of an outline are one per node that the
/// timeline holds, in the order of the outline: layers and folders keep
/// the order in which they were inserted.
pub proof fn lemma_rows_follow_outline_order(
    p: ProjectModel,
    t: int,
    nodes: Seq<OutlineNode>,
    abs: int,
    depth: u32,
)
    requires
        0 <= t < p.timelines@.len(),
    ensures
        rows_nodes(p, t, nodes, seq![], seq![], abs, depth).map_values(|r: LayerRowView| r.kind)
            == held_kinds(p.timelines@[t], nodes),
    decreases nodes.len(),
{
    let tl = p.timelines@[t];
    if nodes.len() > 0 {
        lemma_rows_follow_outline_order(p, t, nodes.drop_last(), abs, depth);
        let prev = rows_nodes(p, t, nodes.drop_last(), seq![], seq![], abs, depth);
        let last = rows_node(p, t, nodes.last(), seq![], seq![], abs, depth);
        match nodes.last() {
            OutlineNode::Layer(id) => {
                if let Some(li) = tl.layer_index(id) {
                    lemma_nothing_opened(p, tl, tl.layers@[li].clips@, abs);
                    assert(last.len() == 1 && last[0].kind == LayerRowKind::Layer(id));
                }
            },
            OutlineNode::Folder(id) => {
                if let Some(fi) = tl.folder_index(id) {
                    assert(!Seq::<u64>::empty().contains(id));
                    assert(last.len() == 1 && last[0].kind == LayerRowKind::Folder(id));
                }
            },
        }
        assert((prev + last).map_values(|r: LayerRowView| r.kind) =~= prev.map_values(
            |r: LayerRowView| r.kind,
        ) + last.map_values(|r: LayerRowView| r.kind));
    } else {
        assert(rows_nodes(p, t, nodes, seq![], seq![], abs, depth).map_values(|r: LayerRowView| r.kind)
            =~= Seq::<LayerRowKind>::empty());
    }
}

/// `part` stands in `rows` from place `start` on.
pub open spec fn rows_appear_at(rows: Seq<LayerRowView>, part: Seq<LayerRowView>, start: int) -> bool {
    0 <= start && start + part.len() <= rows.len() && rows.subrange(start, start + part.len()) == part
}

/// A slot whose clip is composite, opened and names a timeline of the
/// project is among the opened timelines, at the clip's absolute frame.
proof fn lemma_slot_is_opened(
    p: ProjectModel,
    tl: TimelineModel,
    slots: Seq<(TimelineTick, ClipId)>,
    open_ids: Seq<u64>,
    abs: int,
    k: int,
    ci: int,
)
    requires
        0 <= k < slots.len(),
        slot_opened(p, tl, slots[k], open_ids, abs) == Some((abs + slots[k].0, ci)),
    ensures
        slots_opened(p, tl, slots, open_ids, abs).contains((abs + slots[k].0, ci)),
    decreases slots.len(),
{
    let prev = slots_opened(p, tl, slots.drop_last(), open_ids, abs);
    let all = slots_opened(p, tl, slots, open_ids, abs);
    if k == slots.len() - 1 {
        assert(all[prev.len() as int] == (abs + slots[k].0, ci));
    } else {
        assert(slots.drop_last()[k] == slots[k]);
        lemma_slot_is_opened(p, tl, slots.drop_last(), open_ids, abs, k, ci);
        let j = choose|j: int| 0 <= j < prev.len() && prev[j] == (abs + slots[k].0, ci);
        match slot_opened(p, tl, slots.last(), open_ids, abs) {
            Some(o) => assert(all[j] == prev[j]),
            None => {},
        }
    }
}

/// Each opened timeline of a project contributes the rows of its roots, at
/// its frame, as one block of the rows of the opened timelines.
proof fn lemma_opened_block(
    p: ProjectModel,
    opened: Seq<(int, int)>,
    open_ids: Seq<u64>,
    open_folders: Seq<u64>,
    depth: u32,
    m: int,
)
    requires
        0 <= m < opened.len(),
        0 <= opened[m].1 < p.timelines@.len(),
    ensures
        exists|start: int| #[trigger] rows_appear_at(
            rows_opened(p, opened, open_ids, open_folders, depth),
            rows_nodes(p, opened[m].1, p.timelines@[opened[m].1].roots@, open_ids, open_folders, opened[m].0, depth),
            start,
        ),
    decreases opened.len(),
{
    let all = rows_opened(p, opened, open_ids, open_folders, depth);
    let prev = rows_opened(p, opened.drop_last(), open_ids, open_folders, depth);
    let o = opened[m];
    let part = rows_nodes(p, o.1, p.timelines@[o.1].roots@, open_ids, open_folders, o.0, depth);
    if m == opened.len() - 1 {
        assert(all == prev + part);
        assert(all.subrange(prev.len() as int, prev.len() + part.len() as int) =~= part);
        assert(rows_appear_at(all, part, prev.len() as int));
    } else {
        assert(opened.drop_last()[m] == o);
        lemma_opened_block(p, opened.drop_last(), open_ids, open_folders, depth, m);
        let start = choose|start: int| #[trigger] rows_appear_at(prev, part, start);
        assert(all.subrange(0, prev.len() as int) =~= prev);
        assert(all.subrange(start, start + part.len()) =~= prev.subrange(start, start + part.len()));
        assert(rows_appear_at(all, part, start));
    }
}

/// Opening a composite clip shows its timeline: for every clip slot of a
/// layer whose clip is composite, opened, and names a timeline of the
/// project, the rows of that timeline's roots, at the clip's absolute frame
/// and one level deeper, appear after the layer's own row.
pub proof fn lemma_opened_clip_shows_its_timeline(
    p: ProjectModel,
    t: int,
    lid: LayerId,
    li: int,
    open_ids: Seq<u64>,
    open_folders: Seq<u64>,
    abs: int,
    depth: u32,
    k: int,
    clip: ClipRecord,
    ci: int,
)
    requires
        0 <= t < p.timelines@.len(),
        p.timelines@[t].layer_index(lid) == Some(li),
        0 <= k < p.timelines@[t].layers@[li].clips@.len(),
        p.timelines@[t].clip_spec(p.timelines@[t].layers@[li].clips@[k].1) == Some(clip),
        clip.is_composite,
        open_ids.contains(clip.id),
        clip.nested_timeline matches Some(child) && p.timeline_index(child) == Some(ci),
        depth < u32::MAX,
    ensures
        ({
            let rows = rows_node(p, t, OutlineNode::Layer(lid), open_ids, open_folders, abs, depth);
            let slot = p.timelines@[t].layers@[li].clips@[k];
            let part = rows_nodes(
                p,
                ci,
                p.timelines@[ci].roots@,
                open_ids,
                open_folders,
                abs + slot.0,
                (depth + 1) as u32,
            );
            &&& rows.len() > 0
            &&& rows[0].kind == LayerRowKind::Layer(lid)
            &&& rows[0].depth == depth
            &&& exists|start: int| 1 <= start && #[trigger] rows_appear_at(rows, part, start)
        }),
{
    let tl = p.timelines@[t];
    let slots = tl.layers@[li].clips@;
    let slot = slots[k];
    let opened = slots_opened(p, tl, slots, open_ids, abs);
    let rows = rows_node(p, t, OutlineNode::Layer(lid), open_ids, open_folders, abs, depth);
    let rest = rows_opened(p, opened, open_ids, open_folders, (depth + 1) as u32);
    let part = rows_nodes(p, ci, p.timelines@[ci].roots@, open_ids, open_folders, abs + slot.0, (depth + 1) as u32);
    lemma_index_of(p.timeline_ids(), clip.nested_timeline->0);
    lemma_slot_is_opened(p, tl, slots, open_ids, abs, k, ci);
    let m = choose|m: int| 0 <= m < opened.len() && opened[m] == (abs + slot.0, ci);
    lemma_opened_block(p, opened, open_ids, open_folders, (depth + 1) as u32, m);
    let start = choose|start: int| #[trigger] rows_appear_at(rest, part, start);
    assert(rows == seq![rows[0]] + rest);
    assert(rows.subrange(start + 1, start + 1 + part.len()) =~= rest.subrange(start, start + part.len()));
    assert(rows_appear_at(rows, part, start + 1));
}

/// Whether the walk over these nodes stays within the machine limits (see
/// `nodes_ok`), for a caller to test before building rows.
pub fn rows_fit(
    project: &ProjectModel,
    t: usize,
    nodes: &Vec<OutlineNode>,
    open_ids: &Vec<u64>,
    open_folder_ids: &Vec<u64>,
    parent_abs_frame: i64,
    depth: u32,
) -> (r: bool)
    requires
        t < project.timelines@.len(),
    ensures
        r == nodes_ok(
            *project,
            t as int,
            nodes@,
            open_ids@,
            open_folder_ids@,
            parent_abs_frame as int,
            depth,
        ),
    decreases u32::MAX - depth, 1int, nodes@.len(),
{
    let ghost p = *project;
    let ghost abs = parent_abs_frame as int;
    let mut k: usize = 0;
    while k < nodes.len()
        invariant
            k <= nodes@.len(),
            t < p.timelines@.len(),
            p == *project,
            abs == parent_abs_frame as int,
            nodes_ok(p, t as int, nodes@.take(k as int), open_ids@, open_folder_ids@, abs, depth),
        decreases nodes@.len() - k,
    {
        proof {
            assert(nodes@.take(k + 1).drop_last() =~= nodes@.take(k as int));
            assert(nodes@.take(k + 1).last() == nodes@[k as int]);
        }
        if !row_fit(project, t, nodes[k], open_ids, open_folder_ids, parent_abs_frame, depth) {
            proof {
                if nodes_ok(p, t as int, nodes@, open_ids@, open_folder_ids@, abs, depth) {
                    lemma_nodes_ok_prefix(p, t as int, nodes@, open_ids@, open_folder_ids@, abs, depth, k as int);
                }
            }
            return false;
        }
        k = k + 1;
    }
    proof {
        assert(nodes@.take(k as int) =~= nodes@);
    }
    true
}

/// Whether the walk over one node stays within the machine limits (see `node_ok`).
pub fn row_fit(
    project: &ProjectModel,
    t: usize,
    node: OutlineNode,
    open_ids: &Vec<u64>,
    open_folder_ids: &Vec<u64>,
    parent_abs_frame: i64,
    depth: u32,
) -> (r: bool)
    requires
        t < project.timelines@.len(),
    ensures
        r == node_ok(
            *project,
            t as int,
            node,
            open_ids@,
            open_folder_ids@,
            parent_abs_frame as int,
            depth,
        ),
    decreases u32::MAX - depth, 0int, 0int,
{
    let ghost p = *project;
    let ghost oi = open_ids@;
    let ghost of = open_folder_ids@;
    let ghost abs = parent_abs_frame as int;
    let tl = &project.timelines[t];
    match node {
        OutlineNode::Layer(layer_id) => {
            let li = match tl.find_layer(layer_id) {
                Some(i) => i,
                None => {
                    return true;
                },
            };
            let layer = &tl.layers[li];
            let ghost slots = layer.clips@;
            let mut opened: Vec<(i64, usize)> = Vec::new();
            let mut k: usize = 0;
            while k < layer.clips.len()
                invariant
                    k <= slots.len(),
                    slots == layer.clips@,
                    *tl == p.timelines@[t as int],
                    t < p.timelines@.len(),
                    p == *project,
                    oi == open_ids@,
                    abs == parent_abs_frame as int,
                    node == OutlineNode::Layer(layer_id),
                    tl.layer_index(layer_id) == Some(li as int),
                    li < tl.layers@.len(),
                    *layer == tl.layers@[li as int],
                    slots_fit(*tl, slots.take(k as int), abs),
                    opened@.map_values(|o: (i64, usize)| (o.0 as int, o.1 as int)) == slots_opened(
                        p,
                        *tl,
                        slots.take(k as int),
                        oi,
                        abs,
                    ),
                    forall|j: int| 0 <= j < opened@.len() ==> opened@[j].1 < p.timelines@.len(),
                decreases slots.len() - k,
            {
                let ghost pre = slots.take(k as int);
                let ghost next = slots.take(k + 1);
                proof {
                    assert(next.drop_last() =~= pre);
                    assert(next.last() == slots[k as int]);
                    assert forall|j: int| 0 <= j < k implies next[j] == pre[j] by {}
                }
                let (pos, clip_id) = layer.clips[k];
                match tl.find_clip(clip_id) {
                    None => {},
                    Some(ci) => {
                        let clip = &tl.clips[ci];
                        proof {
                            assert(tl.clip_ids()[ci as int] == clip.id);
                            assert(tl.clip_spec(slots[k as int].1) == Some(*clip));
                        }
                        let a: i128 = parent_abs_frame as i128 + pos as i128;
                        if a < i64::MIN as i128 || a > i64::MAX as i128 {
                            proof {
                                assert(tl.clip_spec(slots[k as int].1) is Some);
                                assert(!slots_fit(*tl, slots, abs));
                            }
                            return false;
                        }
                        let abs_frame = parent_abs_frame + pos;
                        if clip.is_composite && contains_u64(open_ids, clip.id) {
                            match clip.nested_timeline {
                                Some(child_id) => {
                                    match project.find_timeline(child_id) {
                                        Some(cti) => {
                                            opened.push((abs_frame, cti));
                                        },
                                        None => {},
                                    }
                                },
                                None => {},
                            }
                        }
                    },
                }
                proof {
                    assert(opened@.map_values(|o: (i64, usize)| (o.0 as int, o.1 as int))
                        =~= slots_opened(p, *tl, next, oi, abs));
                    assert forall|j: int| 0 <= j < next.len() && (#[trigger] tl.clip_spec(next[j].1)) is Some
                        implies i64::MIN <= abs + next[j].0 <= i64::MAX by {
                        if j < k {
                            assert(tl.clip_spec(pre[j].1) is Some);
                        }
                    }
                }
                k = k + 1;
            }
            proof {
                assert(slots.take(k as int) =~= slots);
            }
            let ghost opened_v = opened@.map_values(|o: (i64, usize)| (o.0 as int, o.1 as int));
            if depth == u32::MAX {
                return opened.len() == 0;
            }
            let mut j: usize = 0;
            while j < opened.len()
                invariant
                    j <= opened@.len(),
                    p == *project,
                    oi == open_ids@,
                    of == open_folder_ids@,
                    depth < u32::MAX,
                    opened_v == opened@.map_values(|o: (i64, usize)| (o.0 as int, o.1 as int)),
                    forall|i: int| 0 <= i < opened@.len() ==> opened@[i].1 < p.timelines@.len(),
                    opened_ok(p, opened_v.take(j as int), oi, of, (depth + 1) as u32),
                    t < p.timelines@.len(),
                    *tl == p.timelines@[t as int],
                    abs == parent_abs_frame as int,
                    node == OutlineNode::Layer(layer_id),
                    tl.layer_index(layer_id) == Some(li as int),
                    slots == tl.layers@[li as int].clips@,
                    slots_fit(*tl, slots, abs),
                    opened_v == slots_opened(p, *tl, slots, oi, abs),
                decreases opened@.len() - j,
            {
                proof {
                    assert(opened_v.take(j + 1).drop_last() =~= opened_v.take(j as int));
                    assert(opened_v.take(j + 1).last() == opened_v[j as int]);
                }
                let (child_abs, cti) = opened[j];
                if !rows_fit(
                    project,
                    cti,
                    &project.timelines[cti].roots,
                    open_ids,
                    open_folder_ids,
                    child_abs,
                    depth + 1,
                ) {
                    proof {
                        if opened_ok(p, opened_v, oi, of, (depth + 1) as u32) {
                            lemma_opened_ok_prefix(p, opened_v, oi, of, (depth + 1) as u32, j as int);
                        }
                    }
                    return false;
                }
                j = j + 1;
            }
            proof {
                assert(opened_v.take(j as int) =~= opened_v);
            }
            true
        },
        OutlineNode::Folder(folder_id) => {
            let fi = match tl.find_folder(folder_id) {
                Some(i) => i,
                None => {
                    return true;
                },
            };
            let folder = &tl.folders[fi];
            if !contains_u64(open_folder_ids, folder_id) {
                return true;
            }
            if depth == u32::MAX {
                return false;
            }
            rows_fit(
                project,
                t,
                &folder.children,
                open_ids,
                open_folder_ids,
                parent_abs_frame,
                depth + 1,
            )
        },
    }
}

/// The kind of a flattened row, as C sees it.
#[derive(Clone, Copy, Debug, PartialEq, Eq, Structural)]
pub enum FfiLayerRowKind {
    Layer,
    Folder,
}

/// A flattened row: its clips are `clip_count` entries of the shared clip
/// array, starting at `clip_start`.
#[derive(Clone, Copy, Debug, PartialEq, Eq, Structural)]
pub struct FfiLayerRow {
    pub node_kind: FfiLayerRowKind,
    pub node_id: LayerId,
    pub timeline_id: TimelineId,
    pub depth: u32,
    pub is_folder_open: bool,
    pub clip_start: u32,
    pub clip_count: u32,
}

/// The rows of a timeline, flattened into two arrays.
pub struct RenderRowsResult {
    pub rows: Vec<FfiLayerRow>,
    /// The clips of all rows, one row after the other.
    pub clips: Vec<ClipRenderInfo>,
}

/// The clips of all the rows, one row after the other.
pub open spec fn all_clips(rows: Seq<LayerRowView>) -> Seq<ClipRenderInfo>
    decreases rows.len(),
{
    if rows.len() == 0 {
        seq![]
    } else {
        all_clips(rows.drop_last()) + rows.last().clips
    }
}

/// The flattened form of a row whose clips start at `start` in the shared array.
pub open spec fn flat_row(row: LayerRowView, start: int) -> FfiLayerRow {
    FfiLayerRow {
        node_kind: match row.kind {
            LayerRowKind::Layer(_) => FfiLayerRowKind::Layer,
            LayerRowKind::Folder(_) => FfiLayerRowKind::Folder,
        },
        node_id: match row.kind {
            LayerRowKind::Layer(id) => id,
            LayerRowKind::Folder(id) => id,
        },
        timeline_id: row.timeline_id,
        depth: row.depth,
        is_folder_open: row.is_folder_open,
        clip_start: start as u32,
        clip_count: row.clips.len() as u32,
    }
}

/// Flattens rows into one array of rows and one array of clips; each row
/// records where its clips start in the clip array (as a `u32`, truncated
/// as the C interface does) and how many there are.
pub fn flatten_rows(layer_rows: &Vec<LayerRow>) -> (r: RenderRowsResult)
    ensures
        r.clips@ == all_clips(rows_view(layer_rows@)),
        r.rows@.len() == layer_rows@.len(),
        forall|i: int|
            0 <= i < layer_rows@.len() ==> #[trigger] r.rows@[i] == flat_row(
                layer_rows@[i]@,
                all_clips(rows_view(layer_rows@).take(i)).len() as int,
            ),
{
    let ghost rv = rows_view(layer_rows@);
    let mut rows: Vec<FfiLayerRow> = Vec::new();
    let mut clips: Vec<ClipRenderInfo> = Vec::new();
    let mut i: usize = 0;
    while i < layer_rows.len()
        invariant
            i <= layer_rows@.len(),
            rv == rows_view(layer_rows@),
            clips@ == all_clips(rv.take(i as int)),
            rows@.len() == i,
            forall|j: int|
                0 <= j < i ==> #[trigger] rows@[j] == flat_row(
                    layer_rows@[j]@,
                    all_clips(rv.take(j)).len() as int,
                ),
        decreases layer_rows@.len() - i,
    {
        let row = &layer_rows[i];
        #[verifier::truncate]
        let clip_start = clips.len() as u32;
        #[verifier::truncate]
        let clip_count = row.clips.len() as u32;
        let ghost before = clips@;
        let mut k: usize = 0;
        while k < row.clips.len()
            invariant
                k <= row.clips@.len(),
                clips@ == before + row.clips@.take(k as int),
            decreases row.clips@.len() - k,
        {
            clips.push(row.clips[k]);
            proof {
                assert(row.clips@.take(k + 1) =~= row.clips@.take(k as int).push(row.clips@[k as int]));
            }
            k = k + 1;
        }
        let (node_kind, node_id) = match row.kind {
            LayerRowKind::Layer(id) => (FfiLayerRowKind::Layer, id),
            LayerRowKind::Folder(id) => (FfiLayerRowKind::Folder, id),
        };
        rows.push(
            FfiLayerRow {
                node_kind,
                node_id,
                timeline_id: row.timeline_id,
                depth: row.depth,
                is_folder_open: row.is_folder_open,
                clip_start,
                clip_count,
            },
        );
        proof {
            assert(row.clips@.take(k as int) =~= row.clips@);
            assert(rv.take(i + 1).drop_last() =~= rv.take(i as int));
            assert(rv.take(i + 1).last() == layer_rows@[i as int]@);
        }
        i = i + 1;
    }
    proof {
        assert(rv.take(i as int) =~= rv);
    }
    RenderRowsResult { rows, clips }
}

/// The walk from the roots of timeline `t` at depth 0 and frame 0 stays
/// within the machine limits.
pub open spec fn render_rows_ok(
    project: ProjectModel,
    t: int,
    open_ids: Seq<u64>,
    open_folder_ids: Seq<u64>,
) -> bool {
    0 <= t < project.timelines@.len() && nodes_ok(
        project,
        t,
        project.timelines@[t].roots@,
        open_ids,
        open_folder_ids,
        0,
        0,
    )
}

/// Builds the rows of timeline `t` from its outline roots, with the given
/// composite clips and folders opened, and flattens them.
pub fn render_rows_build(
    project: &ProjectModel,
    t: usize,
    open_ids: &Vec<u64>,
    open_folder_ids: &Vec<u64>,
) -> (r: RenderRowsResult)
    requires
        render_rows_ok(*project, t as int, open_ids@, open_folder_ids@),
    ensures
        ({
            let rows = rows_nodes(
                *project,
                t as int,
                project.timelines@[t as int].roots@,
                open_ids@,
                open_folder_ids@,
                0,
                0,
            );
            &&& r.clips@ == all_clips(rows)
            &&& r.rows@.len() == rows.len()
            &&& forall|i: int|
                0 <= i < rows.len() ==> #[trigger] r.rows@[i] == flat_row(
                    rows[i],
                    all_clips(rows.take(i)).len() as int,
                )
        }),
{
    let mut layer_rows: Vec<LayerRow> = Vec::new();
    build_layer_rows(
        project,
        t,
        &project.timelines[t].roots,
        open_ids,
        open_folder_ids,
        0,
        0,
        &mut layer_rows,
    );
    proof {
        assert(rows_view(layer_rows@) =~= rows_nodes(
            *project,
            t as int,
            project.timelines@[t as int].roots@,
            open_ids@,
            open_folder_ids@,
            0,
            0,
        ));
    }
    let r = flatten_rows(&layer_rows);
    proof {
        assert forall|i: int| 0 <= i < layer_rows@.len() implies layer_rows@[i]@ == rows_view(
            layer_rows@,
        )[i] by {}
    }
    r
}

} // verus!
