use assignment_fixer::classify::{is_destructuring, is_object_property};
use assignment_fixer::config::{
    default_indent_width, default_line_width, default_wrap_in_parens, fallback_indent_width,
    fallback_line_width, resolve_configuration, Configuration,
};
use assignment_fixer::pipeline::fix_assignments;
use assignment_fixer::AssignmentFixerPlugin;

#[test]
fn built_in_defaults() {
    assert_eq!(default_line_width(), 80);
    assert!(default_wrap_in_parens());
    assert_eq!(default_indent_width(), 2);
    let config = Configuration::default();
    assert_eq!(config.line_width, 80);
    assert!(config.wrap_long_assignments);
    assert_eq!(config.indent_width, 2);
}

#[test]
fn per_run_override_wins() {
    let config = resolve_configuration(Some(100), Some(4), Some(false), Some(120), Some(8));
    assert_eq!(config.line_width, 100);
    assert_eq!(config.indent_width, 4);
    assert!(!config.wrap_long_assignments);
}

#[test]
fn document_wide_value_wins_over_built_in() {
    let config = resolve_configuration(None, None, None, Some(120), Some(8));
    assert_eq!(config.line_width, 120);
    assert_eq!(config.indent_width, 8);
    assert!(config.wrap_long_assignments);
}

#[test]
fn built_in_defaults_are_the_last_tier() {
    let config = resolve_configuration(None, None, None, None, None);
    assert_eq!(config.line_width, 80);
    assert_eq!(config.indent_width, 2);
    assert!(config.wrap_long_assignments);
}

#[test]
fn fallbacks_follow_the_document_wide_value() {
    assert_eq!(fallback_line_width(Some(120)), 120);
    assert_eq!(fallback_line_width(None), 80);
    assert_eq!(fallback_indent_width(Some(8)), 8);
    assert_eq!(fallback_indent_width(None), 2);
}

#[test]
fn destructuring_shapes_are_recognized() {
    assert!(is_destructuring("{ a, b }"));
    assert!(is_destructuring("const { a, b }"));
    assert!(is_destructuring("let [x]"));
    assert!(is_destructuring("var  [x, y]"));
    assert!(is_destructuring("  [x, y]  "));
    assert!(!is_destructuring("x"));
    assert!(!is_destructuring("const x"));
    assert!(!is_destructuring("{"));
    assert!(!is_destructuring("{ a ]"));
    assert!(!is_destructuring(""));
}

#[test]
fn object_properties_are_recognized() {
    assert!(is_object_property("color: red"));
    assert!(!is_object_property("x ? a : b"));
    assert!(!is_object_property("const x"));
    assert!(!is_object_property(""));
}

#[test]
fn plugin_value_constructs() {
    let _plugin = AssignmentFixerPlugin::new();
    let config = Configuration::default();
    assert_eq!(fix_assignments("const x\n=\n42", &config), "const x = 42");
}
