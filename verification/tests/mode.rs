use veneer::mode::{
    default_matrix_path, detect_mode, dispatch_framework, is_behavior_file, is_walkable_dir,
    FrameworkDispatch, Mode,
};
use veneer::traits::FrameworkAdapter;

#[test]
fn a_nonexistent_root_is_sidecar_never_a_guess() {
    // A root that does not exist shows neither signal.
    assert_eq!(detect_mode(false, false), Mode::Sidecar);
}

#[test]
fn component_target_react_dispatches_react_adapter() {
    match dispatch_framework(Some("react")) {
        FrameworkDispatch::Supported(adapter) => assert_eq!(adapter.name(), "react"),
        FrameworkDispatch::Unsupported { declared } => {
            panic!("react must be supported, got Unsupported({declared})")
        }
    }
}

#[test]
fn an_undeclared_component_target_still_dispatches_react_adapter() {
    match dispatch_framework(None) {
        FrameworkDispatch::Supported(adapter) => assert_eq!(adapter.name(), "react"),
        FrameworkDispatch::Unsupported { declared } => {
            panic!("undeclared must default to react, got Unsupported({declared})")
        }
    }
}

#[test]
fn an_unsupported_framework_is_named_never_inferred() {
    match dispatch_framework(Some("vue")) {
        FrameworkDispatch::Unsupported { declared } => assert_eq!(declared, "vue"),
        FrameworkDispatch::Supported(_) => {
            panic!("vue has no adapter and must never be inferred as react")
        }
    }
}

#[test]
fn default_mode_needs_both_signals() {
    assert_eq!(detect_mode(true, true), Mode::Default);
    assert_eq!(detect_mode(true, false), Mode::Sidecar);
    assert_eq!(detect_mode(false, true), Mode::Sidecar);
}

#[test]
fn project_walk_rules() {
    assert!(is_behavior_file("button.behavior.ts"));
    assert!(!is_behavior_file("button.tsx"));
    assert_eq!(default_matrix_path("/p"), "/p/docs/spec/matrix/components.jsonl");
    assert!(is_walkable_dir(".rafters", true));
    assert!(!is_walkable_dir(".rafters", false));
    assert!(!is_walkable_dir("node_modules", false));
    assert!(is_walkable_dir("components", false));
}
