//! Where the source map of a bundle goes.

use vstd::prelude::*;

verus! {

/// Where the source map goes.
#[derive(Debug, Clone, PartialEq, Eq)]
pub enum SourceMapOutput {
    /// Nowhere.
    Suppressed,
    /// Into the bundle, as a data URI.
    Inline,
    /// Into the file of the first path; the second is the bundle's.
    File(String, String),
}

pub enum SourceMapOutputView {
    Suppressed,
    Inline,
    File(Seq<char>, Seq<char>),
}

impl View for SourceMapOutput {
    type V = SourceMapOutputView;

    open spec fn view(&self) -> SourceMapOutputView {
        match self {
            SourceMapOutput::Suppressed => SourceMapOutputView::Suppressed,
            SourceMapOutput::Inline => SourceMapOutputView::Inline,
            SourceMapOutput::File(map, output) => SourceMapOutputView::File(map@, output@),
        }
    }
}

} // verus!
