use vstd::prelude::*;

verus! {

/// Identifier of a timeline inside a project.
pub type TimelineId = u32;

/// Identifier of a layer inside a timeline.
pub type LayerId = u64;

/// Identifier of a folder in a timeline's layer outline.
pub type LayerFolderId = u64;

/// Identifier of a clip inside a timeline.
pub type ClipId = u64;

/// Identifier of a media stream resource.
pub type ResourceId = u32;

/// A position or a length on a timeline, in ticks.
pub type TimelineTick = i64;

} // verus!
