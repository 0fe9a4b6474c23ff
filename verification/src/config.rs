//! The formatting configuration and its layered resolution.
//!
//! A run is governed by three values: the maximum line width, whether long
//! assignments are wrapped in parentheses, and the indent step of a wrapped
//! right side. Each is resolved in three tiers: a per-run override, a
//! document-wide default, and finally the built-in default.

use vstd::prelude::*;

verus! {

/// Built-in default for the maximum line width.
pub fn default_line_width() -> (r: u32)
    ensures
        r == 80,
{
    80
}

/// Built-in default for wrapping long assignments in parentheses.
pub fn default_wrap_in_parens() -> (r: bool)
    ensures
        r == true,
{
    true
}

/// Built-in default for the indent step of a wrapped right side.
pub fn default_indent_width() -> (r: u32)
    ensures
        r == 2,
{
    2
}

/// Immutable settings of one formatting run.
pub struct Configuration {
    /// Maximum line length before wrapping in parentheses; at least 1.
    pub line_width: u32,
    /// Whether to wrap long assignments in parentheses.
    pub wrap_long_assignments: bool,
    /// Indent width for wrapped expressions.
    pub indent_width: u32,
}

impl Clone for Configuration {
    fn clone(&self) -> (r: Configuration)
        ensures
            r == *self,
    {
        Configuration {
            line_width: self.line_width,
            wrap_long_assignments: self.wrap_long_assignments,
            indent_width: self.indent_width,
        }
    }
}

impl Default for Configuration {
    /// The built-in defaults: width 80, wrapping on, indent step 2.
    fn default() -> (r: Configuration)
        ensures
            r.line_width == 80,
            r.wrap_long_assignments == true,
            r.indent_width == 2,
    {
        Configuration {
            line_width: default_line_width(),
            wrap_long_assignments: default_wrap_in_parens(),
            indent_width: default_indent_width(),
        }
    }
}

/// The line width that a per-key lookup falls back to: the document-wide
/// value when one is set, else the built-in 80.
pub fn fallback_line_width(document_wide: Option<u32>) -> (r: u32)
    ensures
        r == match document_wide {
            Option::Some(w) => w,
            Option::None => 80u32,
        },
{
    match document_wide {
        Option::Some(w) => w,
        Option::None => default_line_width(),
    }
}

/// The indent width that a per-key lookup falls back to: the document-wide
/// value when one is set, else the built-in 2.
pub fn fallback_indent_width(document_wide: Option<u8>) -> (r: u32)
    ensures
        r == match document_wide {
            Option::Some(w) => w as u32,
            Option::None => 2u32,
        },
{
    match document_wide {
        Option::Some(w) => w as u32,
        Option::None => default_indent_width(),
    }
}

/// Resolves one run's configuration from the per-run overrides and the
/// document-wide defaults; a value absent at both tiers falls back to the
/// built-in default.
pub fn resolve_configuration(
    line_width: Option<u32>,
    indent_width: Option<u32>,
    wrap_long_assignments: Option<bool>,
    document_line_width: Option<u32>,
    document_indent_width: Option<u8>,
) -> (r: Configuration)
    ensures
        r.line_width == match line_width {
            Option::Some(w) => w,
            Option::None => match document_line_width {
                Option::Some(w) => w,
                Option::None => 80u32,
            },
        },
        r.indent_width == match indent_width {
            Option::Some(w) => w,
            Option::None => match document_indent_width {
                Option::Some(w) => w as u32,
                Option::None => 2u32,
            },
        },
        r.wrap_long_assignments == match wrap_long_assignments {
            Option::Some(b) => b,
            Option::None => true,
        },
{
    let lw = match line_width {
        Option::Some(w) => w,
        Option::None => fallback_line_width(document_line_width),
    };
    let iw = match indent_width {
        Option::Some(w) => w,
        Option::None => fallback_indent_width(document_indent_width),
    };
    let wr = match wrap_long_assignments {
        Option::Some(b) => b,
        Option::None => default_wrap_in_parens(),
    };
    Configuration { line_width: lw, wrap_long_assignments: wr, indent_width: iw }
}

} // verus!
