//! The text that a lexer scans.
use vstd::prelude::*;

verus! {

/// A text held in memory, with the name of the place it came from. The name is only
/// descriptive; the content is what gets scanned.
#[derive(Debug)]
pub struct Source {
    pub name: String,
    pub content: String,
}

/// A source as two sequences of characters.
pub struct SourceView {
    pub name: Seq<char>,
    pub content: Seq<char>,
}

impl View for Source {
    type V = SourceView;

    open spec fn view(&self) -> SourceView {
        SourceView { name: self.name@, content: self.content@ }
    }
}

impl Source {
    /// A source named `name` that holds `content`.
    pub fn new(name: String, content: String) -> (source: Source)
        ensures
            source.name == name,
            source.content == content,
            source@ == (SourceView { name: name@, content: content@ }),
    {
        Source { name, content }
    }
}

} // verus!
