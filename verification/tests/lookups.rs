use esotereel::cxxqt_value::{CClipBindingValue, CClipBindingValueTag, ClipBindingValue, CxxQtFieldValue, QFieldValueKind};
use esotereel::error_code::{LastErrorMessage, WrapperErrorCode};
use esotereel::field_value::{CFieldValue, FieldValue, RgbaColor};
use esotereel::lookups::{
    layer_get_clip_at_index, render_frame_source, timeline_find_clip_by_id, timeline_get_layer_by_execution_index,
    timeline_get_layer_id_at_execution_index, timeline_get_layers_count, ClipLookupError,
};
use esotereel::model::{ClipRecord, LayerRecord, ProjectModel, TimelineModel};

fn timeline() -> TimelineModel {
    TimelineModel {
        id: 0,
        roots: vec![],
        execution_order: vec![12, 10],
        layers: vec![
            LayerRecord { id: 10, name: "a".to_string(), enabled: true, clips: vec![(0, 1), (40, 9)] },
            LayerRecord { id: 11, name: "b".to_string(), enabled: true, clips: vec![] },
        ],
        folders: vec![],
        clips: vec![ClipRecord { id: 1, layer_id: 10, position: 0, duration: 20, is_composite: false, nested_timeline: None }],
    }
}

#[test]
fn clips_are_found_by_id_with_their_layer() {
    let t = timeline();
    let mut slot = LastErrorMessage::new();
    let (code, found) = timeline_find_clip_by_id(&mut slot, &t, 1);
    assert_eq!(code, WrapperErrorCode::Success);
    assert_eq!(found.map(|(c, l)| (c.id, l)), Some((1, 10)));
    let (code, found) = timeline_find_clip_by_id(&mut slot, &t, 5);
    assert_eq!(code, WrapperErrorCode::NotFound);
    assert!(found.is_none());
    assert_eq!(slot.text, "clip not found");
}

#[test]
fn layers_are_found_by_execution_index() {
    let t = timeline();
    assert_eq!(timeline_get_layers_count(&t), 2);
    assert_eq!(timeline_get_layer_id_at_execution_index(&t, 1), 10);
    assert_eq!(timeline_get_layer_id_at_execution_index(&t, 2), 0);
    assert_eq!(timeline_get_layer_by_execution_index(&t, 1), Some(0));
    assert_eq!(timeline_get_layer_by_execution_index(&t, 0), None);
    assert_eq!(timeline_get_layer_by_execution_index(&t, 5), None);
}

#[test]
fn a_layer_gives_its_clips_by_slot() {
    let t = timeline();
    let l = &t.layers[0];
    assert_eq!(layer_get_clip_at_index(l, &t, 0).map(|c| c.id), Ok(1));
    assert_eq!(layer_get_clip_at_index(l, &t, 1).err(), Some(ClipLookupError::ClipNotFound(9)));
    assert_eq!(layer_get_clip_at_index(l, &t, 2).err(), Some(ClipLookupError::ClipNotFoundAt(2)));
}

#[test]
fn getters_give_neutral_values_for_other_kinds() {
    let s = CxxQtFieldValue::new(FieldValue::Enum("Add".to_string()));
    assert_eq!(s.kind(), QFieldValueKind::Enum);
    assert_eq!(s.as_string(), "Add");
    assert!(!s.as_bool());
    assert_eq!(s.as_int(), 0);
    assert_eq!(s.as_float(), 0);
    assert!(s.as_color().is_none());
    assert!(s.as_paths().is_empty());
    let c = CxxQtFieldValue::new(FieldValue::Color(RgbaColor { r: 9, g: 8, b: 7, a: 6 }));
    assert_eq!(c.kind(), QFieldValueKind::Color);
    assert_eq!(c.as_color(), Some(RgbaColor { r: 9, g: 8, b: 7, a: 6 }));
    assert_eq!(c.as_string(), "");
    let p = CxxQtFieldValue::new(FieldValue::Path(vec!["/x".to_string()]));
    assert_eq!(p.as_paths(), vec!["/x".to_string()]);
    assert_eq!(CxxQtFieldValue::new(FieldValue::Int(-4)).as_int(), -4);
    assert!(CxxQtFieldValue::new(FieldValue::Bool(true)).as_bool());
    assert_eq!(CxxQtFieldValue::new(FieldValue::Float(0x4000_0000_0000_0000)).as_float(), 0x4000_0000_0000_0000);
    assert_eq!(2.0_f64.to_bits(), 0x4000_0000_0000_0000);
}

#[test]
fn a_binding_reads_back_from_its_c_form() {
    let b = ClipBindingValue::Static(FieldValue::Int(12));
    let c = CClipBindingValue::wrap_ffi(&b);
    assert_eq!(c.tag(), CClipBindingValueTag::Static);
    assert!(matches!(c, CClipBindingValue::Static(CFieldValue::Int(12))));
    assert!(matches!(c.unwrap_ffi(), Ok(ClipBindingValue::Static(FieldValue::Int(12)))));
}

#[test]
fn a_frame_is_drawn_from_the_timeline_named() {
    let mut slot = LastErrorMessage::new();
    assert_eq!(render_frame_source(&mut slot, None, 0), Err(WrapperErrorCode::NotFound));
    assert_eq!(slot.text, "project not found");
    let mut second = timeline();
    second.id = 4;
    let project = ProjectModel { timelines: vec![timeline(), second] };
    let mut slot = LastErrorMessage::new();
    assert_eq!(render_frame_source(&mut slot, Some(&project), 4), Ok(1));
    assert_eq!(slot.text, "");
    assert_eq!(render_frame_source(&mut slot, Some(&project), 9), Err(WrapperErrorCode::NotFound));
    assert_eq!(slot.text, "timeline not found");
}
