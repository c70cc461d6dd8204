//! The resolved display configuration.
use vstd::prelude::*;

verus! {

/// What the transformer does to each line. Every field is set independently
/// of the others.
#[derive(Clone, Copy, Debug, PartialEq, Eq, Structural)]
pub struct ResolvedConfig {
    /// Prefix emitted lines with a running counter.
    pub number: bool,
    /// Leave blank lines without a counter; only meaningful with `number`.
    pub number_nonblank: bool,
    /// Collapse runs of blank lines within a source to a single one.
    pub squeeze_blank: bool,
    /// End every emitted line with `$`.
    pub show_ends: bool,
    /// Render each tab as `^I`.
    pub show_tabs: bool,
    /// Accepted and recorded; it changes no output.
    pub show_nonprinting: bool,
}

impl ResolvedConfig {
    /// The configuration with every option off: the identity transform.
    pub open spec fn plain() -> ResolvedConfig {
        ResolvedConfig {
            number: false,
            number_nonblank: false,
            squeeze_blank: false,
            show_ends: false,
            show_tabs: false,
            show_nonprinting: false,
        }
    }

    /// A configuration with every option off.
    pub fn new() -> (r: ResolvedConfig)
        ensures
            r == ResolvedConfig::plain(),
    {
        ResolvedConfig {
            number: false,
            number_nonblank: false,
            squeeze_blank: false,
            show_ends: false,
            show_tabs: false,
            show_nonprinting: false,
        }
    }
}

} // verus!
