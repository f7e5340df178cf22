use vstd::prelude::*;

use crate::ids::{ClipId, LayerFolderId, LayerId, ResourceId, TimelineId, TimelineTick};

verus! {

/// A node of a timeline's layer outline: a layer or a folder of nodes.
#[derive(Clone, Copy, Debug, PartialEq, Eq, Structural)]
pub enum OutlineNode {
    Layer(LayerId),
    Folder(LayerFolderId),
}

/// What the host logic reads of a clip: where it lies and whether it opens
/// onto a nested timeline.
#[derive(Clone, Copy, Debug, PartialEq, Eq, Structural)]
pub struct ClipRecord {
    pub id: ClipId,
    pub layer_id: LayerId,
    pub position: TimelineTick,
    pub duration: TimelineTick,
    /// The clip is a composite or an area (2D or 3D) clip.
    pub is_composite: bool,
    /// The timeline that the clip's data refers to, if any.
    pub nested_timeline: Option<TimelineId>,
}

/// A layer: its clip slots, ordered by position, each a position and a clip id.
pub struct LayerRecord {
    pub id: LayerId,
    pub name: String,
    pub enabled: bool,
    pub clips: Vec<(TimelineTick, ClipId)>,
}

/// A folder of the layer outline.
pub struct FolderRecord {
    pub id: LayerFolderId,
    pub name: String,
    pub children: Vec<OutlineNode>,
}

/// What the host logic reads of a timeline.
pub struct TimelineModel {
    pub id: TimelineId,
    pub roots: Vec<OutlineNode>,
    /// The layers in the order in which they are composited.
    pub execution_order: Vec<LayerId>,
    pub layers: Vec<LayerRecord>,
    pub folders: Vec<FolderRecord>,
    pub clips: Vec<ClipRecord>,
}

/// What the host logic reads of a project: its timelines.
pub struct ProjectModel {
    pub timelines: Vec<TimelineModel>,
}

/// The first index at or after `k` where `s` holds `x`.
pub open spec fn index_of_from<T>(s: Seq<T>, x: T, k: int) -> Option<int>
    decreases s.len() - k,
{
    if k < 0 || k >= s.len() {
        None
    } else if s[k] == x {
        Some(k)
    } else {
        index_of_from(s, x, k + 1)
    }
}

/// The first index where `s` holds `x`.
pub open spec fn index_of<T>(s: Seq<T>, x: T) -> Option<int> {
    index_of_from(s, x, 0)
}

pub proof fn lemma_index_of_from<T>(s: Seq<T>, x: T, k: int)
    requires
        0 <= k,
    ensures
        index_of_from(s, x, k) matches Some(i) ==> k <= i < s.len() && s[i] == x && (forall|j: int|
            k <= j < i ==> s[j] != x),
        index_of_from(s, x, k) is None ==> (forall|j: int| k <= j < s.len() ==> s[j] != x),
    decreases s.len() - k,
{
    if k < s.len() && s[k] != x {
        lemma_index_of_from(s, x, k + 1);
    }
}

pub proof fn lemma_index_of<T>(s: Seq<T>, x: T)
    ensures
        index_of(s, x) matches Some(i) ==> 0 <= i < s.len() && s[i] == x && (forall|j: int|
            0 <= j < i ==> s[j] != x),
        index_of(s, x) is None <==> !s.contains(x),
{
    lemma_index_of_from(s, x, 0);
    if index_of(s, x) matches Some(i) {
        assert(s.contains(x));
    }
}

impl TimelineModel {
    pub open spec fn layer_ids(&self) -> Seq<LayerId> {
        self.layers@.map_values(|l: LayerRecord| l.id)
    }

    pub open spec fn folder_ids(&self) -> Seq<LayerFolderId> {
        self.folders@.map_values(|f: FolderRecord| f.id)
    }

    pub open spec fn clip_ids(&self) -> Seq<ClipId> {
        self.clips@.map_values(|c: ClipRecord| c.id)
    }

    /// Where the layer with this id stands, if the timeline has it.
    pub open spec fn layer_index(&self, id: LayerId) -> Option<int> {
        index_of(self.layer_ids(), id)
    }

    /// Where the folder with this id stands, if the timeline has it.
    pub open spec fn folder_index(&self, id: LayerFolderId) -> Option<int> {
        index_of(self.folder_ids(), id)
    }

    /// Where the clip with this id stands, if the timeline has it.
    pub open spec fn clip_index(&self, id: ClipId) -> Option<int> {
        index_of(self.clip_ids(), id)
    }

    /// The clip with this id.
    pub open spec fn clip_spec(&self, id: ClipId) -> Option<ClipRecord> {
        match self.clip_index(id) {
            Some(i) => Some(self.clips@[i]),
            None => None,
        }
    }

    pub fn find_layer(&self, id: LayerId) -> (r: Option<usize>)
        ensures
            r matches Some(i) ==> Some(i as int) == self.layer_index(id) && i < self.layers.len(),
            r is None ==> self.layer_index(id) is None,
    {
        let mut k: usize = 0;
        while k < self.layers.len()
            invariant
                k <= self.layers.len(),
                index_of(self.layer_ids(), id) == index_of_from(self.layer_ids(), id, k as int),
            decreases self.layers.len() - k,
        {
            if self.layers[k].id == id {
                return Some(k);
            }
            k = k + 1;
        }
        None
    }

    pub fn find_folder(&self, id: LayerFolderId) -> (r: Option<usize>)
        ensures
            r matches Some(i) ==> Some(i as int) == self.folder_index(id) && i < self.folders.len(),
            r is None ==> self.folder_index(id) is None,
    {
        let mut k: usize = 0;
        while k < self.folders.len()
            invariant
                k <= self.folders.len(),
                index_of(self.folder_ids(), id) == index_of_from(self.folder_ids(), id, k as int),
            decreases self.folders.len() - k,
        {
            if self.folders[k].id == id {
                return Some(k);
            }
            k = k + 1;
        }
        None
    }

    pub fn find_clip(&self, id: ClipId) -> (r: Option<usize>)
        ensures
            r matches Some(i) ==> Some(i as int) == self.clip_index(id) && i < self.clips.len(),
            r is None ==> self.clip_index(id) is None,
    {
        let mut k: usize = 0;
        while k < self.clips.len()
            invariant
                k <= self.clips.len(),
                index_of(self.clip_ids(), id) == index_of_from(self.clip_ids(), id, k as int),
            decreases self.clips.len() - k,
        {
            if self.clips[k].id == id {
                return Some(k);
            }
            k = k + 1;
        }
        None
    }
}

impl ProjectModel {
    pub open spec fn timeline_ids(&self) -> Seq<TimelineId> {
        self.timelines@.map_values(|t: TimelineModel| t.id)
    }

    /// Where the timeline with this id stands, if the project has it.
    pub open spec fn timeline_index(&self, id: TimelineId) -> Option<int> {
        index_of(self.timeline_ids(), id)
    }

    pub fn find_timeline(&self, id: TimelineId) -> (r: Option<usize>)
        ensures
            r matches Some(i) ==> Some(i as int) == self.timeline_index(id) && i
                < self.timelines.len(),
            r is None ==> self.timeline_index(id) is None,
    {
        let mut k: usize = 0;
        while k < self.timelines.len()
            invariant
                k <= self.timelines.len(),
                index_of(self.timeline_ids(), id) == index_of_from(
                    self.timeline_ids(),
                    id,
                    k as int,
                ),
            decreases self.timelines.len() - k,
        {
            if self.timelines[k].id == id {
                return Some(k);
            }
            k = k + 1;
        }
        None
    }
}

/// Whether `x` occurs in `s`.
pub fn contains_u64(s: &Vec<u64>, x: u64) -> (r: bool)
    ensures
        r == s@.contains(x),
{
    let mut k: usize = 0;
    while k < s.len()
        invariant
            k <= s.len(),
            forall|j: int| 0 <= j < k ==> s@[j] != x,
        decreases s.len() - k,
    {
        if s[k] == x {
            return true;
        }
        k = k + 1;
    }
    false
}

/// The errors of the host logic.
#[derive(Clone, Copy, Debug, PartialEq, Eq, Structural)]
pub enum HostError {
    ProjectNotFound,
    TimelineNotFound(TimelineId),
    InvalidTimeline,
    ClipNotFound(ClipId),
    StreamNotFound(ResourceId),
}

/// A copy of a sequence of outline nodes.
pub fn copy_nodes(v: &Vec<OutlineNode>) -> (r: Vec<OutlineNode>)
    ensures
        r@ == v@,
{
    let mut r: Vec<OutlineNode> = Vec::new();
    let mut k: usize = 0;
    while k < v.len()
        invariant
            k <= v@.len(),
            r@ == v@.take(k as int),
        decreases v@.len() - k,
    {
        r.push(v[k]);
        proof {
            assert(v@.take(k + 1) =~= v@.take(k as int).push(v@[k as int]));
        }
        k = k + 1;
    }
    proof {
        assert(v@.take(k as int) =~= v@);
    }
    r
}

/// A copy of a sequence of 64-bit ids.
pub fn copy_ids(v: &Vec<u64>) -> (r: Vec<u64>)
    ensures
        r@ == v@,
{
    let mut r: Vec<u64> = Vec::new();
    let mut k: usize = 0;
    while k < v.len()
        invariant
            k <= v@.len(),
            r@ == v@.take(k as int),
        decreases v@.len() - k,
    {
        r.push(v[k]);
        proof {
            assert(v@.take(k + 1) =~= v@.take(k as int).push(v@[k as int]));
        }
        k = k + 1;
    }
    proof {
        assert(v@.take(k as int) =~= v@);
    }
    r
}

} // verus!
