use vstd::prelude::*;

use crate::annotate::Annotate;
use crate::document::{with_labels, Document, Metadata};
use crate::header::Header;
use crate::language::{dominant_language, elects, top_codes, top_predictions};
use crate::document::strings_view;
use crate::warc::RawRecord;
use vstd::utf8::{decode_utf8, valid_utf8};

verus! {

/// One record of an archive: its header fields and its body text.
pub struct Record {
    pub headers: Vec<(String, String)>,
    pub body: String,
}

/// The annotators a pipeline can run.
pub enum Annotator {
    Header(Header),
}

impl Annotate for Annotator {
    open spec fn wf(&self) -> bool {
        match self {
            Annotator::Header(h) => h.wf(),
        }
    }

    open spec fn labels_for(&self, content: Seq<char>) -> Seq<Seq<char>> {
        match self {
            Annotator::Header(h) => h.labels_for(content),
        }
    }

    fn annotate(&self, doc: &mut Document) {
        match self {
            Annotator::Header(h) => h.annotate(doc),
        }
    }
}

/// The labels that running `anns` in order appends to a document with this text.
pub open spec fn labels_of_all(anns: Seq<Annotator>, content: Seq<char>) -> Seq<Seq<char>>
    decreases anns.len(),
{
    if anns.len() == 0 {
        seq![]
    } else {
        labels_of_all(anns.drop_last(), content) + anns.last().labels_for(content)
    }
}

/// Every annotator of the list is usable.
pub open spec fn all_wf(anns: Seq<Annotator>) -> bool {
    forall|i: int| 0 <= i < anns.len() ==> (#[trigger] anns[i]).wf()
}

/// The per-line predictions as label sequences.
pub open spec fn predictions_view(preds: Seq<Vec<String>>) -> Seq<Seq<Seq<char>>> {
    preds.map_values(|p: Vec<String>| strings_view(p@))
}

proof fn lemma_with_labels_concat(
    a: Option<Seq<Seq<char>>>,
    x: Seq<Seq<char>>,
    y: Seq<Seq<char>>,
)
    ensures
        with_labels(with_labels(a, x), y) == with_labels(a, x + y),
{
    assert(x + Seq::<Seq<char>>::empty() == x);
    assert(Seq::<Seq<char>>::empty() + y == y);
}

/// Runs the annotators on `doc`, one after the other, in the order given.
pub fn apply_annotators(anns: &Vec<Annotator>, doc: &mut Document)
    requires
        all_wf(anns@),
    ensures
        final(doc).content_view() == old(doc).content_view(),
        final(doc).headers_view() == old(doc).headers_view(),
        final(doc).metadata_view().language == old(doc).metadata_view().language,
        final(doc).metadata_view().annotation_view() == with_labels(
            old(doc).metadata_view().annotation_view(),
            labels_of_all(anns@, old(doc).content_view()),
        ),
{
    let ghost start = doc.metadata_view().annotation_view();
    let mut i: usize = 0;
    while i < anns.len()
        invariant
            i <= anns.len(),
            all_wf(anns@),
            doc.content_view() == old(doc).content_view(),
            doc.headers_view() == old(doc).headers_view(),
            doc.metadata_view().language == old(doc).metadata_view().language,
            start == old(doc).metadata_view().annotation_view(),
            doc.metadata_view().annotation_view() == with_labels(
                start,
                labels_of_all(anns@.subrange(0, i as int), doc.content_view()),
            ),
        decreases anns.len() - i,
    {
        let ghost before = doc.metadata_view().annotation_view();
        assert(anns@.subrange(0, i + 1).drop_last() == anns@.subrange(0, i as int));
        assert(anns@[i as int].wf());
        anns[i].annotate(doc);
        proof {
            lemma_with_labels_concat(
                start,
                labels_of_all(anns@.subrange(0, i as int), doc.content_view()),
                anns@[i as int].labels_for(doc.content_view()),
            );
        }
        i = i + 1;
    }
    assert(anns@.subrange(0, anns.len() as int) == anns@);
}

/// Turns one record into a document: `predictions[i]` holds the classifier's
/// labels for line `i` of the body, most confident first. The document gets the
/// language its classified lines elect, then the labels of each annotator, in order.
pub fn process_record(
    record: Record,
    predictions: &Vec<Vec<String>>,
    annotators: &Vec<Annotator>,
) -> (r: Document)
    requires
        all_wf(annotators@),
    ensures
        r.content_view() == record.body@,
        r.headers_view() == record.headers@,
        elects(top_codes(predictions_view(predictions@)), r.metadata_view().language),
        r.metadata_view().annotation_view() == with_labels(
            None,
            labels_of_all(annotators@, record.body@),
        ),
{
    let tops = top_predictions(predictions);
    build_document(record, &tops, annotators)
}

/// A document for `record` with the language that the votes `tops` elect,
/// then the labels of each annotator, in order.
fn build_document(record: Record, tops: &Vec<String>, annotators: &Vec<Annotator>) -> (r: Document)
    requires
        all_wf(annotators@),
    ensures
        r.content_view() == record.body@,
        r.headers_view() == record.headers@,
        elects(strings_view(tops@), r.metadata_view().language),
        r.metadata_view().annotation_view() == with_labels(
            None,
            labels_of_all(annotators@, record.body@),
        ),
{
    let language = dominant_language(tops);
    let mut doc = Document::new(record.body, record.headers, Metadata::default());
    doc.set_language(language);
    apply_annotators(annotators, &mut doc);
    doc
}

/// The per-line classifier outcomes as label sequences; a failed line counts as no label.
pub open spec fn outcomes_view(preds: Seq<Option<Vec<String>>>) -> Seq<Seq<Seq<char>>> {
    preds.map_values(
        |o: Option<Vec<String>>|
            match o {
                Some(p) => strings_view(p@),
                None => Seq::<Seq<char>>::empty(),
            },
    )
}

/// The top prediction of each classified line, in line order; or the index of
/// the first line whose classification failed (`None`).
pub fn checked_top_predictions(preds: &Vec<Option<Vec<String>>>) -> (r: Result<Vec<String>, usize>)
    ensures
        match r {
            Ok(tops) => (forall|k: int| 0 <= k < preds.len() ==> (#[trigger] preds@[k]) is Some)
                && strings_view(tops@) == top_codes(outcomes_view(preds@)),
            Err(k) => k < preds.len() && preds@[k as int] is None && forall|j: int|
                0 <= j < k ==> (#[trigger] preds@[j]) is Some,
        },
{
    let ghost all = outcomes_view(preds@);
    let mut r: Vec<String> = Vec::new();
    let mut i: usize = 0;
    while i < preds.len()
        invariant
            i <= preds.len(),
            all == outcomes_view(preds@),
            forall|j: int| 0 <= j < i ==> (#[trigger] preds@[j]) is Some,
            strings_view(r@) == top_codes(all.subrange(0, i as int)),
        decreases preds.len() - i,
    {
        assert(all.subrange(0, i + 1).drop_last() == all.subrange(0, i as int));
        match &preds[i] {
            None => {
                return Err(i);
            },
            Some(line) => {
                if line.len() > 0 {
                    let top = line[0].clone();
                    let ghost before = r@;
                    r.push(top);
                    assert(strings_view(r@) == strings_view(before).push(top@));
                }
            },
        }
        i = i + 1;
    }
    assert(all.subrange(0, preds.len() as int) == all);
    Ok(r)
}

/// Like `process_record`, for a classifier that may fail on a line
/// (`outcomes[i]` is `None` when line `i` could not be classified): such a
/// failure drops the record, naming the first line that failed.
pub fn process_classified_record(
    record: Record,
    outcomes: &Vec<Option<Vec<String>>>,
    annotators: &Vec<Annotator>,
) -> (r: Result<Document, RecordError>)
    requires
        all_wf(annotators@),
    ensures
        match r {
            Ok(d) => {
                &&& forall|k: int| 0 <= k < outcomes.len() ==> (#[trigger] outcomes@[k]) is Some
                &&& d.content_view() == record.body@
                &&& d.headers_view() == record.headers@
                &&& elects(top_codes(outcomes_view(outcomes@)), d.metadata_view().language)
                &&& d.metadata_view().annotation_view() == with_labels(
                    None,
                    labels_of_all(annotators@, record.body@),
                )
            },
            Err(RecordError::Classification(k)) => k < outcomes.len() && outcomes@[k as int] is None
                && forall|j: int| 0 <= j < k ==> (#[trigger] outcomes@[j]) is Some,
            Err(_) => false,
        },
{
    match checked_top_predictions(outcomes) {
        Ok(tops) => Ok(build_document(record, &tops, annotators)),
        Err(k) => Err(RecordError::Classification(k)),
    }
}

/// Lets through every record of an archive but the first, a banner that is
/// not page content.
pub struct RecordGate {
    pub past_preamble: bool,
}

impl RecordGate {
    pub fn new() -> (r: Self)
        ensures
            !r.past_preamble,
    {
        RecordGate { past_preamble: false }
    }

    /// Whether the next record of the archive is to be processed.
    pub fn should_process(&mut self) -> (keep: bool)
        ensures
            keep == old(self).past_preamble,
            final(self).past_preamble,
    {
        let keep = self.past_preamble;
        self.past_preamble = true;
        keep
    }
}

/// Why a framed record could not become a document.
#[derive(Clone, Copy, Debug, PartialEq, Eq)]
pub enum RecordError {
    /// The header field at this index is not valid UTF-8.
    Field(usize),
    /// The body is not valid UTF-8.
    Body,
    /// The classifier failed on the line at this index.
    Classification(usize),
}

/// Relies on `String::from_utf8`: it succeeds exactly on valid UTF-8, with the
/// text that the bytes encode.
#[verifier::external_body]
fn decode_text(v: Vec<u8>) -> (r: Option<String>)
    ensures
        r is Some <==> valid_utf8(v@),
        r matches Some(s) ==> s@ == decode_utf8(v@),
{
    match String::from_utf8(v) {
        Ok(s) => Some(s),
        Err(_) => None,
    }
}

/// A copy of `v`.
fn copy_bytes(v: &Vec<u8>) -> (r: Vec<u8>)
    ensures
        r@ == v@,
{
    let mut r: Vec<u8> = Vec::new();
    let mut i: usize = 0;
    while i < v.len()
        invariant
            i <= v.len(),
            r@ == v@.subrange(0, i as int),
        decreases v.len() - i,
    {
        r.push(v[i]);
        i = i + 1;
    }
    r
}

/// Both parts of a header field are valid UTF-8.
pub open spec fn field_is_text(f: (Vec<u8>, Vec<u8>)) -> bool {
    valid_utf8(f.0@) && valid_utf8(f.1@)
}

/// Decodes a framed record's header fields, then its body, as UTF-8 text.
pub fn to_record(raw: RawRecord) -> (r: Result<Record, RecordError>)
    ensures
        match r {
            Ok(rec) => {
                &&& valid_utf8(raw.body@)
                &&& rec.body@ == decode_utf8(raw.body@)
                &&& rec.headers.len() == raw.fields.len()
                &&& forall|k: int|
                    0 <= k < raw.fields.len() ==> field_is_text(#[trigger] raw.fields@[k])
                        && rec.headers@[k].0@ == decode_utf8(raw.fields@[k].0@)
                        && rec.headers@[k].1@ == decode_utf8(raw.fields@[k].1@)
            },
            Err(RecordError::Field(k)) => {
                &&& k < raw.fields.len()
                &&& !field_is_text(raw.fields@[k as int])
                &&& forall|j: int| 0 <= j < k ==> field_is_text(#[trigger] raw.fields@[j])
            },
            Err(RecordError::Body) => {
                &&& !valid_utf8(raw.body@)
                &&& forall|j: int|
                    0 <= j < raw.fields.len() ==> field_is_text(#[trigger] raw.fields@[j])
            },
            Err(RecordError::Classification(_)) => false,
        },
{
    let mut headers: Vec<(String, String)> = Vec::new();
    let mut k: usize = 0;
    while k < raw.fields.len()
        invariant
            k <= raw.fields.len(),
            headers.len() == k,
            forall|j: int|
                0 <= j < k ==> field_is_text(#[trigger] raw.fields@[j]) && headers@[j].0@
                    == decode_utf8(raw.fields@[j].0@) && headers@[j].1@ == decode_utf8(
                    raw.fields@[j].1@,
                ),
        decreases raw.fields.len() - k,
    {
        let name = decode_text(copy_bytes(&raw.fields[k].0));
        let value = decode_text(copy_bytes(&raw.fields[k].1));
        match (name, value) {
            (Some(n), Some(v)) => {
                headers.push((n, v));
            },
            _ => {
                return Err(RecordError::Field(k));
            },
        }
        k = k + 1;
    }
    match decode_text(raw.body) {
        Some(body) => Ok(Record { headers, body }),
        None => Err(RecordError::Body),
    }
}

} // verus!
