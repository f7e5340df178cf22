use esotereel::client_views::{ClientViews, ViewRange};
use esotereel::dispatch::{plan_changeset_dispatch, ChangeSet, RemovedClipInfo};
use esotereel::model::{ClipRecord, FolderRecord, HostError, LayerRecord, OutlineNode, ProjectModel, TimelineModel};

fn sorted(mut v: Vec<u32>) -> Vec<u32> {
    v.sort();
    v
}

fn project() -> ProjectModel {
    let clip = ClipRecord { id: 1, layer_id: 10, position: 100, duration: 50, is_composite: false, nested_timeline: None };
    ProjectModel {
        timelines: vec![TimelineModel {
            id: 0,
            roots: vec![OutlineNode::Layer(10), OutlineNode::Folder(7)],
            execution_order: vec![10],
            layers: vec![LayerRecord { id: 10, name: "video".to_string(), enabled: true, clips: vec![(100, 1)] }],
            folders: vec![FolderRecord { id: 7, name: "group".to_string(), children: vec![] }],
            clips: vec![clip],
        }],
    }
}

fn views() -> ClientViews {
    let mut v = ClientViews::new();
    v.update_client_view(1, 0, ViewRange { start: 0, end: 120 });
    v.update_client_view(2, 0, ViewRange { start: 500, end: 600 });
    v.update_client_view(3, 1, ViewRange { start: 0, end: 1000 });
    v
}

fn empty_changes() -> ChangeSet {
    ChangeSet {
        clips_upserted: vec![],
        clips_removed: vec![],
        layers_upserted: vec![],
        layers_removed: vec![],
        outline_folders_upserted: vec![],
        outline_children_changed: vec![],
        outline_folders_removed: vec![],
    }
}

#[test]
fn clip_changes_go_to_the_clients_that_see_them() {
    let mut cs = empty_changes();
    cs.clips_upserted = vec![1, 42];
    cs.clips_removed = vec![(9, RemovedClipInfo { layer_id: 10, position: 550, duration: 10 })];
    let plan = plan_changeset_dispatch(&project(), &views(), 0, &cs).ok().unwrap();

    let (targets, clips) = plan.update_clips.unwrap();
    assert_eq!(targets, vec![1]);
    assert_eq!(clips.len(), 1);
    assert_eq!(clips[0].0, 10);
    assert_eq!(clips[0].1.id, 1);

    let (targets, removed) = plan.remove_clips.unwrap();
    assert_eq!(targets, vec![2]);
    assert_eq!(removed, vec![(10, 9)]);

    assert!(plan.update_layers.is_none());
    assert!(plan.remove_layers.is_none());
    assert!(plan.update_outline.is_none());
    assert!(plan.remove_folders.is_none());
}

#[test]
fn clip_changes_nobody_sees_send_nothing() {
    let mut cs = empty_changes();
    cs.clips_upserted = vec![1];
    let mut v = ClientViews::new();
    v.update_client_view(1, 0, ViewRange { start: 150, end: 200 });
    let plan = plan_changeset_dispatch(&project(), &v, 0, &cs).ok().unwrap();
    assert!(plan.update_clips.is_none());
}

#[test]
fn layer_and_outline_changes_go_to_every_client_of_the_timeline() {
    let mut cs = empty_changes();
    cs.layers_upserted = vec![10, 11];
    cs.layers_removed = vec![12];
    cs.outline_folders_upserted = vec![7];
    cs.outline_children_changed = vec![None];
    cs.outline_folders_removed = vec![8];
    let plan = plan_changeset_dispatch(&project(), &views(), 0, &cs).ok().unwrap();

    let (targets, layers) = plan.update_layers.unwrap();
    assert_eq!(sorted(targets), vec![1, 2]);
    assert_eq!(layers.len(), 1);
    assert_eq!(layers[0].id, 10);
    assert_eq!(layers[0].name, "video");
    assert!(layers[0].enabled);

    let (targets, removed) = plan.remove_layers.unwrap();
    assert_eq!(sorted(targets), vec![1, 2]);
    assert_eq!(removed, vec![12]);

    let (targets, folders, children) = plan.update_outline.unwrap();
    assert_eq!(sorted(targets), vec![1, 2]);
    assert_eq!(folders, vec![(7, "group".to_string())]);
    assert_eq!(children, vec![(None, vec![OutlineNode::Layer(10), OutlineNode::Folder(7)])]);

    let (targets, removed) = plan.remove_folders.unwrap();
    assert_eq!(sorted(targets), vec![1, 2]);
    assert_eq!(removed, vec![8]);
}

#[test]
fn an_unknown_timeline_is_an_error() {
    let r = plan_changeset_dispatch(&project(), &views(), 3, &empty_changes());
    assert!(matches!(r, Err(HostError::TimelineNotFound(3))));
}

#[test]
fn change_sets_whose_ends_overflow_are_caught() {
    let mut p = project();
    let mut cs = empty_changes();
    cs.clips_upserted = vec![1];
    assert!(esotereel::dispatch::changeset_fits(&p.timelines[0], &cs));
    p.timelines[0].clips[0].position = i64::MAX - 10;
    assert!(!esotereel::dispatch::changeset_fits(&p.timelines[0], &cs));
    let mut cs2 = empty_changes();
    cs2.clips_removed = vec![(9, RemovedClipInfo { layer_id: 10, position: i64::MIN, duration: -1 })];
    assert!(!esotereel::dispatch::changeset_fits(&p.timelines[0], &cs2));
}
