use esotereel::commands::{
    clips_move_history, req_cmd_add_clip_dummy, req_cmd_add_folder, req_cmd_add_layer, req_cmd_clip_move_mul,
    AddClipError, ClipMoveCtx, ClipMoveHistoryCtx, CommandQueue, CommandRequest,
};
use esotereel::cxxqt_value::ClipBindingValue;
use esotereel::field_value::FieldValue;
use esotereel::error_code::{LastErrorMessage, WrapperErrorCode};
use esotereel::ffi_string::StringView;
use esotereel::model::{ClipRecord, HostError, LayerRecord, OutlineNode, ProjectModel, TimelineModel};

fn project() -> ProjectModel {
    let clip = |id: u64, layer_id: u64, position: i64| ClipRecord {
        id,
        layer_id,
        position,
        duration: 30,
        is_composite: false,
        nested_timeline: None,
    };
    let layer = |id: u64| LayerRecord { id, name: format!("L{}", id), enabled: true, clips: vec![] };
    ProjectModel {
        timelines: vec![TimelineModel {
            id: 4,
            roots: vec![OutlineNode::Layer(10), OutlineNode::Layer(11), OutlineNode::Layer(12)],
            execution_order: vec![10, 11, 12],
            layers: vec![layer(10), layer(11), layer(12)],
            folders: vec![],
            clips: vec![clip(1, 10, 0), clip(2, 11, 100), clip(3, 12, 200)],
        }],
    }
}

#[test]
fn a_move_is_queued_for_each_clip_that_can_move() {
    let p = project();
    let mut queue = CommandQueue::new();
    let mut slot = LastErrorMessage::new();
    let code = req_cmd_clip_move_mul(&mut queue, &mut slot, Some(&p), 4, &vec![1, 3, 99, 2], 5, -10, 1);
    assert_eq!(code, WrapperErrorCode::Success);
    assert_eq!(slot.text, "");
    let batch = queue.send_all().unwrap();
    assert_eq!(batch.len(), 1);
    assert_eq!(batch[0].0, 4);
    match &batch[0].1 {
        CommandRequest::ClipsMove { clips } => assert_eq!(
            clips,
            &vec![
                ClipMoveCtx { clip_id: 1, new_position: 5, new_duration: 20, new_layer_id: 11 },
                ClipMoveCtx { clip_id: 2, new_position: 105, new_duration: 20, new_layer_id: 12 },
            ]
        ),
        _ => panic!("expected a clip move"),
    }
    assert!(queue.send_all().is_none());
}

#[test]
fn a_move_without_project_or_timeline_is_not_found() {
    let p = project();
    let mut queue = CommandQueue::new();
    let mut slot = LastErrorMessage::new();
    assert_eq!(
        req_cmd_clip_move_mul(&mut queue, &mut slot, None, 4, &vec![1], 0, 0, 0),
        WrapperErrorCode::NotFound
    );
    assert_eq!(slot.text, "project not found");
    assert_eq!(
        req_cmd_clip_move_mul(&mut queue, &mut slot, Some(&p), 5, &vec![1], 0, 0, 0),
        WrapperErrorCode::NotFound
    );
    assert_eq!(slot.text, "timeline not found");
    assert!(queue.send_all().is_none());
}

#[test]
fn layers_and_folders_are_queued_in_order() {
    let mut queue = CommandQueue::new();
    let mut slot = LastErrorMessage::new();
    let name = StringView::from_str("Titles");
    assert_eq!(req_cmd_add_layer(&mut queue, &mut slot, 1, true, 7, false, 3, &name), WrapperErrorCode::Success);
    let bad = StringView { data: Some(vec![b'x', 0xff]), len: 2 };
    assert_eq!(req_cmd_add_folder(&mut queue, &mut slot, 2, false, 7, true, 0, &bad), WrapperErrorCode::Success);
    let batch = queue.send_all().unwrap();
    assert_eq!(batch.len(), 2);
    match &batch[0] {
        (1, CommandRequest::AddLayer { parent_folder_id, insert_index, name }) => {
            assert_eq!(*parent_folder_id, Some(7));
            assert_eq!(*insert_index, None);
            assert_eq!(name, "Titles");
        },
        _ => panic!("expected a layer"),
    }
    match &batch[1] {
        (2, CommandRequest::AddFolder { parent_folder_id, insert_index, name }) => {
            assert_eq!(*parent_folder_id, None);
            assert_eq!(*insert_index, Some(0));
            assert_eq!(name, "x\u{FFFD}");
        },
        _ => panic!("expected a folder"),
    }
}

#[test]
fn history_records_where_each_clip_was() {
    let p = project();
    let moves = vec![ClipMoveCtx { clip_id: 2, new_position: 7, new_duration: 8, new_layer_id: 10 }];
    let h = clips_move_history(&p, 4, &moves).ok().unwrap();
    assert_eq!(
        h,
        vec![ClipMoveHistoryCtx {
            clip_id: 2,
            old_position: 100,
            old_duration: 30,
            old_layer_id: 11,
            new_position: 7,
            new_duration: 8,
            new_layer_id: 10,
        }]
    );
    let missing = vec![
        ClipMoveCtx { clip_id: 1, new_position: 0, new_duration: 1, new_layer_id: 10 },
        ClipMoveCtx { clip_id: 77, new_position: 0, new_duration: 1, new_layer_id: 10 },
        ClipMoveCtx { clip_id: 78, new_position: 0, new_duration: 1, new_layer_id: 10 },
    ];
    assert_eq!(clips_move_history(&p, 4, &missing).err(), Some(HostError::ClipNotFound(77)));
    assert_eq!(clips_move_history(&p, 9, &moves).err(), Some(HostError::InvalidTimeline));
}

#[test]
fn moves_that_would_leave_the_tick_range_are_caught() {
    let mut p = project();
    p.timelines[0].clips[0].position = i64::MAX - 2;
    let t = &p.timelines[0];
    assert!(esotereel::commands::clip_moves_fit(t, &vec![1, 2], 2, 0, 1));
    assert!(!esotereel::commands::clip_moves_fit(t, &vec![1, 2], 3, 0, 1));
    // A clip that does not move is not checked.
    assert!(esotereel::commands::clip_moves_fit(t, &vec![1], 3, 0, 5));
}

#[test]
fn a_dummy_clip_is_queued_with_its_kind_defaults() {
    let mut q = CommandQueue::new();
    let props = vec![("std:opacity".to_string(), ClipBindingValue::Static(FieldValue::Int(1)))];
    assert!(req_cmd_add_clip_dummy(&mut q, 4, 250, 12, Some(props)).is_ok());
    assert_eq!(q.pending.len(), 1);
    match &q.pending[0] {
        (4, CommandRequest::AddClip { layer_id, position, duration, kind_id, properties, translate }) => {
            assert_eq!((*layer_id, *position, *duration), (12, 250, 10000));
            assert_eq!(kind_id, "std:video");
            assert_eq!(properties.len(), 1);
            assert_eq!(properties[0].0, "std:opacity");
            assert!(matches!(properties[0].1, ClipBindingValue::Static(FieldValue::Int(1))));
            let floats = |a: [u64; 3]| a.map(f64::from_bits);
            assert_eq!(floats(translate.position), [-100.0, -100.0, 0.0]);
            assert_eq!(floats(translate.rotation), [0.0, 0.0, 0.0]);
            assert_eq!(floats(translate.scale), [400.0, 300.0, 1.0]);
        },
        _ => panic!("expected an added clip"),
    }
}

#[test]
fn a_dummy_clip_of_an_unknown_kind_is_refused() {
    let mut q = CommandQueue::new();
    match req_cmd_add_clip_dummy(&mut q, 4, 250, 12, None) {
        Err(AddClipError::ClipKindNotFound(k)) => assert_eq!(k, "std:video"),
        Ok(()) => panic!("expected an error"),
    }
    assert!(q.pending.is_empty());
}
