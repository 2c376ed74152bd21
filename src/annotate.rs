use vstd::prelude::*;

use crate::document::{with_labels, Document};

verus! {

/// A heuristic that inspects a document and appends labels to its metadata,
/// leaving its text, its record attributes and its language as they were.
pub trait Annotate {
    /// The configuration is usable.
    spec fn wf(&self) -> bool;

    /// The labels appended to a document with this text.
    spec fn labels_for(&self, content: Seq<char>) -> Seq<Seq<char>>;

    fn annotate(&self, doc: &mut Document)
        requires
            self.wf(),
        ensures
            final(doc).content_view() == old(doc).content_view(),
            final(doc).headers_view() == old(doc).headers_view(),
            final(doc).metadata_view().language == old(doc).metadata_view().language,
            final(doc).metadata_view().annotation_view() == with_labels(
                old(doc).metadata_view().annotation_view(),
                self.labels_for(old(doc).content_view()),
            ),
    ;
}

} // verus!
