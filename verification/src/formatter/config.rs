//! Formatting configuration.

use vstd::prelude::*;

verus! {

/// Formatting configuration.
#[derive(Debug, Clone, Copy)]
pub struct FormatConfig {
    /// Number of spaces per indentation level.
    pub indent_size: usize,
    /// Maximum line length.
    pub max_width: usize,
    /// Indent with a tab instead of spaces.
    pub use_tabs: bool,
    /// Trailing comma after the last item of a multi-line list.
    pub trailing_comma: bool,
    /// Spaces around operators.
    pub space_around_operators: bool,
    /// Space after a comma.
    pub space_after_comma: bool,
    /// Space after a colon.
    pub space_after_colon: bool,
    /// Keep (collapsed) blank lines.
    pub preserve_blank_lines: bool,
    /// Sort imports.
    pub sort_imports: bool,
    /// Group imports.
    pub group_imports: bool,
}

/// The default indentation width.
fn default_indent() -> (r: usize)
    ensures
        r == 4,
{
    4
}

/// The default maximum line length.
fn default_max_width() -> (r: usize)
    ensures
        r == 100,
{
    100
}

/// The default of the boolean options that are on by default.
fn default_true() -> (r: bool)
    ensures
        r,
{
    true
}

impl FormatConfig {
    /// The default configuration: four spaces, width 100, every option on but tabs.
    pub open spec fn spec_default() -> FormatConfig {
        FormatConfig {
            indent_size: 4,
            max_width: 100,
            use_tabs: false,
            trailing_comma: true,
            space_around_operators: true,
            space_after_comma: true,
            space_after_colon: true,
            preserve_blank_lines: true,
            sort_imports: true,
            group_imports: true,
        }
    }

    /// One indentation unit: a tab, or `indent_size` spaces.
    pub open spec fn indent_chars(self) -> Seq<char> {
        if self.use_tabs {
            seq!['\t']
        } else {
            Seq::new(self.indent_size as nat, |i: int| ' ')
        }
    }

    /// The indentation unit as a string.
    pub fn indent_str(&self) -> (s: String)
        ensures
            s@ == self.indent_chars(),
    {
        let mut s = String::new();
        if self.use_tabs {
            crate::text::push_char(&mut s, '\t');
        } else {
            let mut i: usize = 0;
            while i < self.indent_size
                invariant
                    i <= self.indent_size,
                    !self.use_tabs,
                    s@ == Seq::new(i as nat, |k: int| ' '),
                decreases self.indent_size - i,
            {
                crate::text::push_char(&mut s, ' ');
                assert(s@ == Seq::new((i + 1) as nat, |k: int| ' '));
                i += 1;
            }
        }
        s
    }
}

impl Default for FormatConfig {
    fn default() -> (c: Self)
        ensures
            c == FormatConfig::spec_default(),
    {
        FormatConfig {
            indent_size: default_indent(),
            max_width: default_max_width(),
            use_tabs: false,
            trailing_comma: default_true(),
            space_around_operators: default_true(),
            space_after_comma: default_true(),
            space_after_colon: default_true(),
            preserve_blank_lines: default_true(),
            sort_imports: default_true(),
            group_imports: default_true(),
        }
    }
}

} // verus!
