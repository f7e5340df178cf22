use esotereel::layer_rows::{
    build_layer_rows, render_rows_build, ClipRenderInfo, FfiLayerRow, FfiLayerRowKind, LayerRowKind,
};
use esotereel::model::{ClipRecord, FolderRecord, LayerRecord, OutlineNode, ProjectModel, TimelineModel};

fn layer(id: u64, name: &str, clips: Vec<(i64, u64)>) -> LayerRecord {
    LayerRecord { id, name: name.to_string(), enabled: true, clips }
}

/// Appends a layer named `name` at the end of the timeline's outline, as a
/// new layer without a parent or a position goes, and gives its fresh id.
fn insert_layer(timeline: &mut TimelineModel, name: &str) -> u64 {
    let id = timeline.layers.iter().map(|l| l.id + 1).max().unwrap_or(1);
    timeline.roots.push(OutlineNode::Layer(id));
    timeline.execution_order.push(id);
    timeline.layers.push(layer(id, name, vec![]));
    id
}

/// A new timeline, which comes with four default layers.
fn new_timeline(id: u32) -> TimelineModel {
    let mut timeline =
        TimelineModel { id, roots: vec![], execution_order: vec![], layers: vec![], folders: vec![], clips: vec![] };
    for n in 1..=4 {
        insert_layer(&mut timeline, &format!("Layer {}", n));
    }
    timeline
}

#[test]
fn build_layer_rows_preserves_insertion_order() {
    let mut timeline = new_timeline(0);
    let five = insert_layer(&mut timeline, "five");
    let one = insert_layer(&mut timeline, "one");
    let three = insert_layer(&mut timeline, "three");
    let project = ProjectModel { timelines: vec![timeline] };

    let mut rows = Vec::new();
    build_layer_rows(&project, 0, &project.timelines[0].roots, &vec![], &vec![], 0, 0, &mut rows);

    let ids: Vec<u64> = rows
        .iter()
        .filter_map(|row| match row.kind {
            LayerRowKind::Layer(id) => Some(id),
            LayerRowKind::Folder(_) => None,
        })
        .collect();

    // The four default layers, then five, one, three in the order inserted.
    assert_eq!(&ids[ids.len() - 3..], &[five, one, three]);
}

fn nested_project() -> ProjectModel {
    let main = TimelineModel {
        id: 0,
        roots: vec![OutlineNode::Folder(7), OutlineNode::Layer(10)],
        execution_order: vec![11, 10],
        layers: vec![layer(10, "video", vec![(100, 1)]), layer(11, "inside", vec![])],
        folders: vec![FolderRecord { id: 7, name: "group".to_string(), children: vec![OutlineNode::Layer(11)] }],
        clips: vec![ClipRecord {
            id: 1,
            layer_id: 10,
            position: 100,
            duration: 50,
            is_composite: true,
            nested_timeline: Some(5),
        }],
    };
    let nested = TimelineModel {
        id: 5,
        roots: vec![OutlineNode::Layer(20)],
        execution_order: vec![20],
        layers: vec![layer(20, "nested", vec![(5, 2)])],
        folders: vec![],
        clips: vec![ClipRecord {
            id: 2,
            layer_id: 20,
            position: 5,
            duration: 3,
            is_composite: false,
            nested_timeline: None,
        }],
    };
    ProjectModel { timelines: vec![main, nested] }
}

#[test]
fn opened_composite_clip_shows_its_timeline_one_level_deeper() {
    let project = nested_project();
    let r = render_rows_build(&project, 0, &vec![1], &vec![7]);
    assert_eq!(
        r.rows,
        vec![
            FfiLayerRow {
                node_kind: FfiLayerRowKind::Folder,
                node_id: 7,
                timeline_id: 0,
                depth: 0,
                is_folder_open: true,
                clip_start: 0,
                clip_count: 0,
            },
            FfiLayerRow {
                node_kind: FfiLayerRowKind::Layer,
                node_id: 11,
                timeline_id: 0,
                depth: 1,
                is_folder_open: false,
                clip_start: 0,
                clip_count: 0,
            },
            FfiLayerRow {
                node_kind: FfiLayerRowKind::Layer,
                node_id: 10,
                timeline_id: 0,
                depth: 0,
                is_folder_open: false,
                clip_start: 0,
                clip_count: 1,
            },
            FfiLayerRow {
                node_kind: FfiLayerRowKind::Layer,
                node_id: 20,
                timeline_id: 5,
                depth: 1,
                is_folder_open: false,
                clip_start: 1,
                clip_count: 1,
            },
        ]
    );
    assert_eq!(
        r.clips,
        vec![
            ClipRenderInfo { clip_id: 1, abs_frame: 100, duration: 50, is_composite: true, is_open: true },
            ClipRenderInfo { clip_id: 2, abs_frame: 105, duration: 3, is_composite: false, is_open: false },
        ]
    );
}

#[test]
fn closed_folder_and_closed_clip_hide_their_contents() {
    let project = nested_project();
    let r = render_rows_build(&project, 0, &vec![], &vec![]);
    assert_eq!(r.rows.len(), 2);
    assert_eq!(r.rows[0].node_kind, FfiLayerRowKind::Folder);
    assert!(!r.rows[0].is_folder_open);
    assert_eq!(r.rows[1].node_id, 10);
    assert_eq!(
        r.clips,
        vec![ClipRenderInfo { clip_id: 1, abs_frame: 100, duration: 50, is_composite: true, is_open: false }]
    );
}

#[test]
fn nodes_missing_from_the_timeline_give_no_row() {
    let mut project = nested_project();
    project.timelines[0].roots.push(OutlineNode::Layer(99));
    project.timelines[0].roots.push(OutlineNode::Folder(98));
    let r = render_rows_build(&project, 0, &vec![], &vec![]);
    assert_eq!(r.rows.len(), 2);
}

#[test]
fn walks_whose_frames_overflow_are_caught() {
    let project = nested_project();
    assert!(esotereel::layer_rows::rows_fit(&project, 0, &project.timelines[0].roots, &vec![1], &vec![7], 0, 0));
    assert!(esotereel::layer_rows::rows_fit(&project, 0, &project.timelines[0].roots, &vec![], &vec![], i64::MAX - 100, 0));
    assert!(!esotereel::layer_rows::rows_fit(&project, 0, &project.timelines[0].roots, &vec![], &vec![], i64::MAX - 99, 0));
    // The opened clip's timeline starts at the clip, and its own clip lies past the end.
    assert!(!esotereel::layer_rows::rows_fit(&project, 0, &project.timelines[0].roots, &vec![1], &vec![], i64::MAX - 100, 0));
}
