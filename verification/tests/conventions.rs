use veneer::conventions::ComponentConventions;

#[test]
fn default_conventions_name_the_hand_written_variables() {
    let c = ComponentConventions::default();
    assert_eq!(c.variant_records, ["variantClasses"]);
    assert_eq!(c.disabled_class_vars, ["disabledClasses", "disabledCls"]);
    assert_eq!(c.excluded_props, ["children", "className", "style"]);
    assert_eq!(c.fallback_attributes, ["variant", "size", "disabled", "loading"]);
}

#[test]
fn classes_file_conventions_put_the_prefixed_names_first() {
    let c = ComponentConventions::for_classes_file("badge");
    assert_eq!(c.variant_records, ["badgeVariantClasses", "variantClasses"]);
    assert_eq!(c.size_records, ["badgeSizeClasses", "sizeClasses"]);
    assert_eq!(c.base_class_vars, ["badgeBaseClasses", "baseClasses"]);
    assert_eq!(c.disabled_class_vars, ["badgeDisabledClasses", "disabledClasses", "disabledCls"]);
    assert_eq!(c.excluded_props, ["children", "className", "style"]);
}
