use veneer::local_registry::{missing_item_error, missing_namespace_error, LocalRegistryReader, RegistryError};

#[test]
fn detect_with_rafters_dir() {
    let reader = LocalRegistryReader::detect("/proj", true).expect("present");
    assert_eq!(reader.rafters_dir(), "/proj/.rafters");
}

#[test]
fn detect_without_rafters_dir() {
    let result = LocalRegistryReader::detect("/proj", false);
    assert!(matches!(result, Err(RegistryError::NotFound(ref p)) if p == "/proj/.rafters"));
}

#[test]
fn registry_files_live_under_the_rafters_dir() {
    let reader = LocalRegistryReader::new("/p/.rafters");
    assert_eq!(reader.namespace_path("color"), "/p/.rafters/tokens/color.rafters.json");
    assert_eq!(reader.item_path("components", "button"), "/p/.rafters/registry/components/button.json");
    assert_eq!(reader.index_path(), "/p/.rafters/registry/index.json");
    assert_eq!(reader.config_path(), "/p/.rafters/config.rafters.json");
}

#[test]
fn missing_files_are_named_by_what_was_asked_for() {
    let io = || RegistryError::Io { path: "x".to_string(), message: "gone".to_string() };
    assert_eq!(
        missing_item_error("components", "nonexistent", io(), true),
        RegistryError::ComponentNotFound("components/nonexistent".to_string())
    );
    assert_eq!(missing_item_error("components", "b", io(), false), io());
    assert_eq!(
        missing_namespace_error("nonexistent", io(), true),
        RegistryError::NamespaceNotFound("nonexistent".to_string())
    );
    assert_eq!(
        RegistryError::NotFound("/p/.rafters".to_string()).message(),
        "rafters directory not found at /p/.rafters"
    );
}
