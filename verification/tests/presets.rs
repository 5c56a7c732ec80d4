use auto_import::get_preset_imports;

#[test]
fn test_vue_preset() {
    let imports = get_preset_imports("vue");
    assert!(imports.contains_key("vue"));
    let vue_imports = imports.get("vue").unwrap();
    assert!(vue_imports.len() >= 17);
    assert!(vue_imports.contains(&("ref".to_string(), None)));
    assert!(vue_imports.contains(&("computed".to_string(), None)));
}

#[test]
fn test_react_preset() {
    let imports = get_preset_imports("react");
    assert!(imports.contains_key("react"));
    let react_imports = imports.get("react").unwrap();
    assert!(react_imports.len() >= 30);
    assert!(react_imports.contains(&("useState".to_string(), None)));
    assert!(react_imports.contains(&("useEffect".to_string(), None)));
    assert!(react_imports.contains(&("lazy".to_string(), None)));
    assert!(react_imports.contains(&("memo".to_string(), None)));
}

#[test]
fn test_react_dom_preset() {
    let imports = get_preset_imports("react-dom");
    assert!(imports.contains_key("react-dom"));
    let react_dom_imports = imports.get("react-dom").unwrap();
    assert_eq!(react_dom_imports.len(), 9);
    assert!(react_dom_imports.contains(&("useFormStatus".to_string(), None)));
    assert!(react_dom_imports.contains(&("createPortal".to_string(), None)));
}

#[test]
fn test_router_presets() {
    let vue_router = get_preset_imports("vue-router");
    assert!(vue_router.contains_key("vue-router"));

    let react_router = get_preset_imports("react-router");
    assert!(react_router.contains_key("react-router-dom"));
}

#[test]
fn test_unknown_preset_is_empty() {
    let imports = get_preset_imports("svelte");
    assert!(!imports.contains_key("svelte"));
    assert!(imports.get("svelte").is_none());
}

#[test]
fn test_preset_fragments_accumulate() {
    let mut twice = get_preset_imports("vue");
    let again = get_preset_imports("vue");
    twice.append_from(&again);
    let vue_imports = twice.get("vue").unwrap();
    assert_eq!(vue_imports.len(), 36);
    assert_eq!(vue_imports[0], ("ref".to_string(), None));
    assert_eq!(vue_imports[18], ("ref".to_string(), None));
}
