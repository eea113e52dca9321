//! What the caller chooses for a comparison, and how a comparison can fail.
use vstd::prelude::*;

verus! {

/// The choices that change what the comparison reports.
#[derive(Clone, Copy, Debug)]
pub struct DiffOptions {
    /// Show a differing text line by line rather than word by word.
    pub fast: bool,
    /// Report differences in the sidebar markup too.
    pub sidebars: bool,
    /// Keep the ids of definition terms and the anchors that point at them.
    pub check_dts: bool,
    /// Drop paragraph tags, keeping what they hold, before comparing markup.
    pub ignore_ps: bool,
}

/// Why a comparison could not be carried out.
#[derive(Clone, Copy, Debug, PartialEq, Eq, Structural)]
pub enum DiffError {
    /// One of the patterns of the canonical form was not accepted.
    Pattern,
    /// The markup could not be rewritten.
    Rewrite,
    /// The markup could not be minified.
    Minify,
    /// A difference could not be turned into markup.
    Render,
}

impl DiffOptions {
    /// The options of a plain run: word by word, sidebars left out, ids of
    /// definition terms stripped, paragraphs kept.
    pub fn new() -> (out: DiffOptions)
        ensures
            !out.fast,
            !out.sidebars,
            !out.check_dts,
            !out.ignore_ps,
    {
        DiffOptions { fast: false, sidebars: false, check_dts: false, ignore_ps: false }
    }
}

} // verus!
