use assignment_fixer::config::Configuration;
use assignment_fixer::pipeline::{fix_assignments, format_text};

#[test]
fn test_simple_assignment_fix() {
    let config = Configuration::default();
    let input = "const x\n=\n42";
    let expected = "const x = 42";
    assert_eq!(fix_assignments(input, &config), expected);
}

#[test]
fn test_long_assignment_wrap() {
    let config = Configuration {
        line_width: 20,
        wrap_long_assignments: true,
        indent_width: 2,
    };
    let input = "const veryLongVariable\n=\nsomeVeryLongExpression";
    let expected = "const veryLongVariable = (\n  someVeryLongExpression\n)";
    assert_eq!(fix_assignments(input, &config), expected);
}

#[test]
fn test_destructuring_preserved() {
    let config = Configuration::default();
    let input = "const { a, b }\n=\nobject";
    let expected = "(const { a, b } = object)";
    assert_eq!(fix_assignments(input, &config), expected);
}

#[test]
fn test_method_chain() {
    let config = Configuration::default();
    let input = "  const result\n  =\n  object.method().chain()";
    let expected = "  const result = object.method().chain()";
    assert_eq!(fix_assignments(input, &config), expected);
}

#[test]
fn no_change_is_reported_as_none() {
    let config = Configuration::default();
    assert_eq!(format_text("const x = 42", &config), None);
    assert_eq!(format_text("function f() {}\nreturn 1", &config), None);
    assert_eq!(format_text("", &config), None);
}

#[test]
fn change_is_reported_as_some() {
    let config = Configuration::default();
    assert_eq!(
        format_text("const x\n=\n42", &config),
        Some(String::from("const x = 42"))
    );
}

#[test]
fn pipeline_is_idempotent_on_scenarios() {
    let config = Configuration::default();
    for input in [
        "const x\n=\n42",
        "const { a, b }\n=\nobject",
        "  const result\n  =\n  object.method().chain()",
        "key: value\n=\nsomething",
        "a\n=\nb\nc\n=\nd",
    ] {
        let once = fix_assignments(input, &config);
        let twice = fix_assignments(&once, &config);
        assert_eq!(twice, once);
    }
    let narrow = Configuration {
        line_width: 20,
        wrap_long_assignments: true,
        indent_width: 2,
    };
    let once = fix_assignments("const veryLongVariable\n=\nsomeVeryLongExpression", &narrow);
    assert_eq!(fix_assignments(&once, &narrow), once);
}

#[test]
fn object_property_is_left_alone() {
    let config = Configuration::default();
    let input = "color: red\n=\nblue";
    assert_eq!(fix_assignments(input, &config), input);
}

#[test]
fn ternary_left_side_is_not_an_object_property() {
    let config = Configuration::default();
    let input = "x ? a : b\n=\n1";
    assert_eq!(fix_assignments(input, &config), "x ? a : b = 1");
}

#[test]
fn width_respected_at_exact_boundary() {
    // indent 0 + left 1 + 3 + right 1 == 5: collapses at width 5 and
    // wraps just below it.
    let at_limit = Configuration {
        line_width: 5,
        wrap_long_assignments: true,
        indent_width: 2,
    };
    assert_eq!(fix_assignments("a\n=\nb", &at_limit), "a = b");
    let below = Configuration {
        line_width: 4,
        wrap_long_assignments: true,
        indent_width: 2,
    };
    assert_eq!(fix_assignments("a\n=\nb", &below), "a = (\n  b\n)");
}

#[test]
fn wrapping_disabled_keeps_original() {
    let config = Configuration {
        line_width: 4,
        wrap_long_assignments: false,
        indent_width: 2,
    };
    let input = "name\n=\nvalue";
    assert_eq!(fix_assignments(input, &config), input);
}

#[test]
fn parenthesized_right_side_is_not_rewrapped() {
    let config = Configuration {
        line_width: 4,
        wrap_long_assignments: true,
        indent_width: 2,
    };
    let input = "name\n=\n(value)";
    assert_eq!(fix_assignments(input, &config), input);
}

#[test]
fn right_side_on_equals_line_is_collapsed() {
    let config = Configuration::default();
    assert_eq!(fix_assignments("x\n= 42", &config), "x = 42");
}

#[test]
fn several_assignments_are_all_repaired() {
    let config = Configuration::default();
    let input = "const a\n=\n1\nconst b\n=\n2";
    assert_eq!(fix_assignments(input, &config), "const a = 1\nconst b = 2");
}

#[test]
fn surrounding_lines_are_preserved() {
    let config = Configuration::default();
    let input = "function f() {\nconst x\n=\n42\n}";
    assert_eq!(fix_assignments(input, &config), "function f() {\nconst x = 42\n}");
}

#[test]
fn method_chain_after_equals_is_collapsed() {
    let config = Configuration::default();
    assert_eq!(fix_assignments("x =\nfoo.bar().baz()", &config), "x = foo.bar().baz()");
}

#[test]
fn method_chain_tail_is_kept() {
    let config = Configuration::default();
    assert_eq!(fix_assignments("x =\nfoo.bar();", &config), "x = foo.bar();");
}

#[test]
fn method_chain_wraps_when_too_long() {
    let config = Configuration {
        line_width: 5,
        wrap_long_assignments: true,
        indent_width: 2,
    };
    assert_eq!(
        fix_assignments("x =\nfoo.bar().baz()", &config),
        "x = (\n  foo.bar().baz()\n)"
    );
}

#[test]
fn plain_identifier_line_is_no_chain() {
    let config = Configuration::default();
    let input = "x =\nfoo";
    assert_eq!(fix_assignments(input, &config), input);
}

#[test]
fn array_destructuring_is_parenthesized() {
    let config = Configuration::default();
    assert_eq!(fix_assignments("[x, y]\n=\narr", &config), "([x, y] = arr)");
}

#[test]
fn bare_destructuring_on_one_line_is_parenthesized() {
    let config = Configuration::default();
    assert_eq!(fix_assignments("{ a, b } = c", &config), "({ a, b } = c)");
}

#[test]
fn let_destructuring_keeps_its_keyword_inside_parens() {
    let config = Configuration::default();
    assert_eq!(fix_assignments("let [a] = b", &config), "(let [a] = b)");
}

#[test]
fn destructuring_ignores_width() {
    let config = Configuration {
        line_width: 4,
        wrap_long_assignments: true,
        indent_width: 2,
    };
    assert_eq!(
        fix_assignments("var { key } = source", &config),
        "(var { key } = source)"
    );
}

#[test]
fn already_parenthesized_destructuring_is_untouched() {
    let config = Configuration::default();
    assert_eq!(format_text("(const { a, b } = object)", &config), None);
}

#[test]
fn empty_braces_are_no_destructuring_pattern() {
    let config = Configuration::default();
    assert_eq!(format_text("const {} = x", &config), None);
}
