//! Printing options and how they are resolved from what the user gave.

use vstd::prelude::*;

verus! {

/// The number of spaces of one indentation step, unless the caller says otherwise.
pub const DEFAULT_INDENT: usize = 4;

/// The line width that is used when neither the caller nor the terminal gives one.
pub const DEFAULT_COLUMNS: usize = 80;

/// How a value is laid out: the spaces per indentation step and the line width.
#[derive(Debug, Clone, Copy, PartialEq, Eq, Structural)]
pub struct PrintOptions {
    pub indent: usize,
    pub columns: usize,
}

/// The options that are used where none are given: four spaces to an
/// indentation step, eighty columns to a line.
pub open spec fn default_options() -> PrintOptions {
    PrintOptions { indent: DEFAULT_INDENT, columns: DEFAULT_COLUMNS }
}

impl Default for PrintOptions {
    /// Four spaces to an indentation step, eighty columns to a line.
    fn default() -> (options: PrintOptions)
        ensures
            options == default_options(),
    {
        PrintOptions { indent: DEFAULT_INDENT, columns: DEFAULT_COLUMNS }
    }
}

/// The width of the terminal, given its size as columns and rows, or the
/// default where there is no terminal.
pub open spec fn spec_terminal_width(size: Option<(u16, u16)>) -> usize {
    match size {
        Some((width, _)) => width as usize,
        None => DEFAULT_COLUMNS,
    }
}

/// The width of the terminal, given its size as columns and rows, or the
/// default where there is no terminal.
#[verifier::when_used_as_spec(spec_terminal_width)]
pub fn terminal_width(size: Option<(u16, u16)>) -> (width: usize)
    ensures
        width == spec_terminal_width(size),
{
    match size {
        Some((width, _)) => width as usize,
        None => DEFAULT_COLUMNS,
    }
}

/// The options of one run of the formatter.
#[derive(Debug, Clone, Copy, PartialEq, Eq, Structural)]
pub struct Opt {
    pub indent: usize,
    pub columns: usize,
}

impl Opt {
    /// Resolves the options from the command line's arguments and the
    /// terminal's size: an explicit number of columns wins over the terminal's
    /// width, which wins over the default.
    pub fn from_args(indent: usize, columns: Option<usize>, terminal: Option<(u16, u16)>) -> (opt:
        Opt)
        ensures
            opt.indent == indent,
            opt.columns == match columns {
                Some(c) => c,
                None => spec_terminal_width(terminal),
            },
    {
        let columns = match columns {
            Some(c) => c,
            None => terminal_width(terminal),
        };
        Opt { indent, columns }
    }

    /// The printing options that these options ask for.
    pub fn print_options(&self) -> (options: PrintOptions)
        ensures
            options.indent == self.indent,
            options.columns == self.columns,
    {
        PrintOptions { indent: self.indent, columns: self.columns }
    }
}

impl From<&Opt> for PrintOptions {
    /// The printing options that the options of a run ask for.
    fn from(opt: &Opt) -> (options: PrintOptions) {
        opt.print_options()
    }
}

impl vstd::std_specs::convert::FromSpecImpl<&Opt> for PrintOptions {
    open spec fn obeys_from_spec() -> bool {
        true
    }

    open spec fn from_spec(opt: &Opt) -> PrintOptions {
        PrintOptions { indent: opt.indent, columns: opt.columns }
    }
}

} // verus!
