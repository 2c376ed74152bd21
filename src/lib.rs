//! Processing of web-crawl archives into annotated documents: framing of the
//! archive's records, line splitting, document-level language election from
//! per-line predictions, and boilerplate annotators over documents.

use vstd::prelude::*;

pub mod annotate;
pub mod document;
pub mod header;
pub mod language;
pub mod pipeline;
pub mod text;
pub mod warc;

verus! {

} // verus!
