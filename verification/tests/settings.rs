use esotereel::field_value::{CFieldValue, FieldMap, FieldValue};
use esotereel::settings::{
    clip_get_all_fields, clip_get_categories, join_category, settings_get_all_fields,
    settings_get_categories, FfiPropertySchema, FieldKind, PropertySchema, SettingsFieldType,
};

fn prop(key: &str, category: &[&str], kind: FieldKind, default: FieldValue) -> PropertySchema {
    PropertySchema {
        key: key.to_string(),
        category: category.iter().map(|s| s.to_string()).collect(),
        label: format!("Label of {}", key),
        kind,
        default,
    }
}

fn fields() -> Vec<PropertySchema> {
    vec![
        prop("std:opacity", &["Video", "Blend"], FieldKind::Float, FieldValue::Float(0x3FF0_0000_0000_0000)),
        prop("std:loop", &["Playback"], FieldKind::Bool, FieldValue::Bool(false)),
        prop("std:mode", &["Video"], FieldKind::Enum, FieldValue::Enum("Normal".to_string())),
        prop("std:tags", &[], FieldKind::Dict, FieldValue::Dict(FieldMap::new())),
    ]
}

fn texts(a: &[esotereel::ffi_string::OwnedString]) -> Vec<String> {
    a.iter().map(|s| s.as_str().ok().unwrap().to_string()).collect()
}

#[test]
fn categories_are_listed_once_in_order() {
    let cats = settings_get_categories(&fields());
    assert_eq!(texts(&cats.items), vec!["Blend", "Playback", "Video"]);
    assert!(settings_get_categories(&vec![]).items.is_empty());
}

#[test]
fn categories_of_an_unknown_clip_kind_are_none() {
    assert!(clip_get_categories(None).is_none());
    let f = fields();
    assert_eq!(texts(&clip_get_categories(Some(&f)).unwrap().items), vec!["Blend", "Playback", "Video"]);
    assert!(clip_get_all_fields(None).is_none());
    assert_eq!(clip_get_all_fields(Some(&f)).unwrap().items.len(), 4);
}

#[test]
fn a_property_is_handed_over_with_its_category_path() {
    assert_eq!(join_category(&vec!["A".to_string(), "B".to_string(), "C".to_string()]), "A > B > C");
    assert_eq!(join_category(&vec![]), "");
    let f = fields();
    let p: FfiPropertySchema = FfiPropertySchema::from_schema(&f[0]);
    assert_eq!(p.key.as_str().ok(), Some("std:opacity"));
    assert_eq!(p.category.as_str().ok(), Some("Video > Blend"));
    assert_eq!(p.label.as_str().ok(), Some("Label of std:opacity"));
    assert_eq!(p.kind_type, SettingsFieldType::Float);
    assert!(matches!(p.default_value, CFieldValue::Float(0x3FF0_0000_0000_0000)));
    let all = settings_get_all_fields(&f);
    let kinds: Vec<SettingsFieldType> = all.items.iter().map(|p| p.kind_type).collect();
    assert_eq!(kinds, vec![SettingsFieldType::Float, SettingsFieldType::Bool, SettingsFieldType::Enum, SettingsFieldType::Dict]);
    assert_eq!(all.items[3].category.as_str().ok(), Some(""));
}
