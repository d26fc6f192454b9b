use voxurf::ax::{js_value_to_string, AxNode, AxProperty, AxValue, ScriptValue};

fn string(s: &str) -> ScriptValue {
    ScriptValue { as_string: Some(s.to_string()), is_true: false, debug: format!("JsValue({s:?})") }
}

fn boolean(b: bool) -> ScriptValue {
    ScriptValue { as_string: None, is_true: b, debug: format!("JsValue({b})") }
}

fn value(v: ScriptValue) -> AxValue {
    AxValue { ty: "any".to_string(), value: v }
}

fn property(name: &str, v: ScriptValue) -> AxProperty {
    AxProperty { name: name.to_string(), value: value(v) }
}

fn button() -> AxNode {
    AxNode {
        node_id: "12".to_string(),
        ignored: false,
        role: Some(value(string("button"))),
        name: Some(value(string("Main menu"))),
        description: None,
        value: None,
        properties: Some(vec![
            property("focusable", boolean(true)),
            property("hasPopup", string("menu")),
            property("invalid", string("false")),
        ]),
        parent_id: Some("3".to_string()),
        backend_dom_node_id: Some(77),
    }
}

#[test]
fn debug_rendering_loses_its_frame_and_quotes() {
    assert_eq!(js_value_to_string(&string("menu")), "menu");
    assert_eq!(js_value_to_string(&boolean(true)), "true");
    let number = ScriptValue { as_string: None, is_true: false, debug: "JsValue(42)".to_string() };
    assert_eq!(js_value_to_string(&number), "42");
    let empty = ScriptValue { as_string: None, is_true: false, debug: "JsValue()".to_string() };
    assert_eq!(js_value_to_string(&empty), "");
    let lone_quote = ScriptValue { as_string: None, is_true: false, debug: "JsValue(\")".to_string() };
    assert_eq!(js_value_to_string(&lone_quote), "");
    let half = ScriptValue { as_string: None, is_true: false, debug: "JsValue(a\")".to_string() };
    assert_eq!(js_value_to_string(&half), "a");
}

#[test]
fn frame_is_recognised() {
    assert!(string("x").is_framed());
    assert!(!ScriptValue { as_string: None, is_true: false, debug: "JsValue(".to_string() }.is_framed());
    assert!(!ScriptValue { as_string: None, is_true: false, debug: "Value(12345)".to_string() }.is_framed());
    assert!(!ScriptValue { as_string: None, is_true: false, debug: "JsValue(1) ".to_string() }.is_framed());
    assert!(button().is_well_framed());
    let mut broken = button();
    broken.value = Some(value(ScriptValue { as_string: None, is_true: false, debug: "oops".to_string() }));
    assert!(!broken.is_well_framed());
}

#[test]
fn focusable_node_is_kept_with_its_other_properties() {
    let record = button().into_intermediate();
    assert!(!record.remove);
    assert_eq!(record.id, "12");
    assert_eq!(record.parent_id.as_deref(), Some("3"));
    assert_eq!(record.selector, 77);
    assert_eq!(record.name.as_deref(), Some("Main menu"));
    assert_eq!(record.role.as_deref(), Some("button"));
    assert_eq!(record.description, None);
    assert_eq!(record.value, None);
    assert_eq!(record.properties.len(), 2);
    assert_eq!(record.properties.get("hasPopup").map(|s| s.as_str()), Some("menu"));
    assert_eq!(record.properties.get("invalid").map(|s| s.as_str()), Some("false"));
    assert_eq!(record.properties.get("focusable"), None);
}

#[test]
fn node_that_cannot_take_the_focus_is_removed() {
    let mut node = button();
    node.properties = Some(vec![property("focusable", boolean(false)), property("invalid", string("false"))]);
    assert!(node.into_intermediate().remove);
    let mut node = button();
    node.properties = Some(vec![property("invalid", string("false"))]);
    assert!(node.into_intermediate().remove);
    let mut node = button();
    node.properties = None;
    let record = node.into_intermediate();
    assert!(record.remove);
    assert!(record.properties.is_empty());
}

#[test]
fn ignored_node_and_page_root_are_removed() {
    let mut node = button();
    node.ignored = true;
    assert!(node.into_intermediate().remove);
    let mut node = button();
    node.role = Some(value(string("RootWebArea")));
    assert!(node.into_intermediate().remove);
}

#[test]
fn missing_backend_id_becomes_zero_and_state_is_the_text_of_the_value() {
    let mut node = button();
    node.backend_dom_node_id = None;
    node.value = Some(value(string("typed text")));
    node.description = Some(value(boolean(true)));
    let record = node.into_intermediate();
    assert_eq!(record.selector, 0);
    assert_eq!(record.value.as_deref(), Some("typed text"));
    assert_eq!(record.description, None);
}

#[test]
fn later_property_of_the_same_name_wins() {
    let mut node = button();
    node.properties = Some(vec![
        property("focusable", boolean(true)),
        property("level", string("1")),
        property("level", string("2")),
    ]);
    let record = node.into_intermediate();
    assert_eq!(record.properties.len(), 1);
    assert_eq!(record.properties.get("level").map(|s| s.as_str()), Some("2"));
}
