use esotereel::toolbar::{FfiToolbarButton, LayoutError, ToolbarButtonSpec, ToolbarState};

fn button(id: &str, icon: Option<&str>) -> ToolbarButtonSpec {
    ToolbarButtonSpec {
        id: id.to_string(),
        label: format!("{} label", id),
        tooltip: format!("{} tip", id),
        icon: icon.map(|s| s.to_string()),
        action: format!("on_{}", id),
    }
}

fn state() -> ToolbarState {
    ToolbarState {
        buttons: vec![
            ("plugin.a".to_string(), button("cut", Some("scissors.svg"))),
            ("plugin.b".to_string(), button("fade", None)),
        ],
        layouts: vec![("main".to_string(), vec!["fade".to_string(), "nope".to_string(), "cut".to_string()])],
    }
}

fn ids(bs: &[FfiToolbarButton]) -> Vec<String> {
    bs.iter().map(|b| b.id.as_str().ok().unwrap().to_string()).collect()
}

#[test]
fn buttons_follow_the_layout_and_skip_unknown_ids() {
    let s = state();
    let bs = s.toolbar_get_buttons("main");
    assert_eq!(ids(&bs.items), vec!["fade", "cut"]);
    assert_eq!(bs.items[0].icon.as_str().ok(), Some(""));
    assert_eq!(bs.items[1].icon.as_str().ok(), Some("scissors.svg"));
    assert_eq!(bs.items[1].action.as_str().ok(), Some("on_cut"));
    assert_eq!(bs.items[1].tooltip.as_str().ok(), Some("cut tip"));
    assert!(s.toolbar_get_buttons("side").items.is_empty());
}

#[test]
fn a_layout_given_as_toml_replaces_the_old_one() {
    let mut s = state();
    assert!(s.toolbar_set_layout("main", "ids = 3").is_err());
    assert_eq!(ids(&s.toolbar_get_buttons("main").items), vec!["fade", "cut"]);
    match s.toolbar_set_layout("main", "[[[") {
        Err(LayoutError::InvalidToml(m)) => assert!(m.starts_with("Failed to parse ids: ")),
        _ => panic!("expected a parse error"),
    }
    match s.toolbar_set_layout("main", "ids = [\"cut\"]") {
        Err(LayoutError::NotStringArray(m)) => assert!(m.starts_with("ids must be an array of strings: ")),
        _ => panic!("expected a type error"),
    }
    s.set_layout("side".to_string(), vec!["cut".to_string()]);
    assert_eq!(ids(&s.toolbar_get_buttons("side").items), vec!["cut"]);
    assert_eq!(ids(&s.toolbar_get_buttons("main").items), vec!["fade", "cut"]);
}

#[test]
fn an_action_names_the_plugin_and_its_function() {
    let s = state();
    assert_eq!(s.toolbar_handle_action("fade"), Some(("plugin.b".to_string(), "on_fade".to_string())));
    assert_eq!(s.toolbar_handle_action("missing"), None);
}

#[test]
fn every_toml_document_is_refused_as_a_layout() {
    let mut s = state();
    for text in ["", "a = 1", "[t]\nx = [\"cut\"]", "\"$__toml_private_datetime\" = \"1979-05-27T07:32:00Z\""] {
        match s.toolbar_set_layout("main", text) {
            Err(LayoutError::NotStringArray(m)) => assert!(m.starts_with("ids must be an array of strings: ")),
            _ => panic!("expected a type error for {:?}", text),
        }
    }
    match s.toolbar_set_layout("main", "\"$__toml_private_datetime\" = \"not a date\"") {
        Err(LayoutError::InvalidToml(m)) => assert!(m.starts_with("Failed to parse ids: ")),
        _ => panic!("expected a parse error"),
    }
    assert_eq!(ids(&s.toolbar_get_buttons("main").items), vec!["fade", "cut"]);
}
