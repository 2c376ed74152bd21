use ungoliant::annotate::Annotate;
use ungoliant::document::{Document, Metadata};
use ungoliant::header::{Fraction, Header};
use ungoliant::language::{bytes_le, count_votes, dominant_language, top_predictions};
use ungoliant::pipeline::{
    apply_annotators, checked_top_predictions, process_classified_record, process_record, Annotator,
    Record, RecordError, RecordGate,
};
use ungoliant::text::line_lengths;

fn strings(v: &[&str]) -> Vec<String> {
    v.iter().map(|s| s.to_string()).collect()
}

#[test]
fn empty_document_gets_both_labels() {
    let mut doc = Document::new(String::new(), Vec::new(), Metadata::default());
    Header::default().annotate(&mut doc);
    assert_eq!(
        doc.metadata().annotation(),
        Some(&strings(&["header", "footer"]))
    );
}

#[test]
fn default_configuration() {
    let h = Header::default();
    assert_eq!(h.header_pctg, Fraction::new(1, 5));
    assert_eq!(h.threshold_pctg, Fraction::new(1, 2));
    assert_eq!(h.min_length, 100);
}

#[test]
fn annotating_twice_is_cumulative() {
    let mut doc = Document::new("a\nb\nc\nd\ne".to_string(), Vec::new(), Metadata::default());
    let h = Header::default();
    h.annotate(&mut doc);
    h.annotate(&mut doc);
    assert_eq!(
        doc.metadata().annotation(),
        Some(&strings(&["header", "footer", "header", "footer"]))
    );
    assert_eq!(doc.content(), "a\nb\nc\nd\ne");
}

#[test]
fn zone_and_trigger_sizes() {
    assert_eq!(Fraction::new(30, 100).floor_mul(18), 5);
    assert_eq!(Fraction::new(60, 100).floor_mul(5), 3);
    assert_eq!(Fraction::new(1, 5).floor_mul(0), 0);
    assert_eq!(Fraction::new(1, 5).floor_mul(9), 1);
    assert_eq!(Fraction::new(1, 1).floor_mul(u64::MAX), u64::MAX);
    assert_eq!(Fraction::new(0, 7).floor_mul(u64::MAX), 0);
}

#[test]
fn zones_overlap_on_short_documents() {
    // One line, whole-document zones: both zones are that line.
    let h = Header::new(Fraction::new(1, 1), Fraction::new(1, 1), 10);
    let mut doc = Document::new("tiny".to_string(), Vec::new(), Metadata::default());
    h.annotate(&mut doc);
    assert_eq!(
        doc.metadata().annotation(),
        Some(&strings(&["header", "footer"]))
    );
    let mut doc = Document::new("long enough line".to_string(), Vec::new(), Metadata::default());
    h.annotate(&mut doc);
    assert_eq!(doc.metadata().annotation(), None);
}

#[test]
fn line_lengths_follow_line_endings() {
    assert_eq!(line_lengths("a\r\nbc\n\nd\r"), vec![1, 2, 0, 2]);
    assert_eq!(line_lengths(""), Vec::<usize>::new());
    assert_eq!(line_lengths("x\n"), vec![1]);
    assert_eq!(line_lengths("\n"), vec![0]);
    assert_eq!(line_lengths("é\nab"), vec![1, 2]);
    assert_eq!(line_lengths("ééé\r\nçà"), vec![3, 2]);
}

#[test]
fn short_lines_are_counted_in_range() {
    let h = Header::new(Fraction::new(1, 5), Fraction::new(1, 2), 3);
    let lens = vec![1, 5, 2, 3, 0];
    assert_eq!(h.count_short_lines(&lens, 0, 5), 3);
    assert_eq!(h.count_short_lines(&lens, 1, 4), 1);
    assert_eq!(h.count_short_lines(&lens, 2, 2), 0);
}

#[test]
fn majority_language_wins() {
    let mut codes = Vec::new();
    for _ in 0..7 {
        codes.push("en".to_string());
    }
    for _ in 0..3 {
        codes.push("fr".to_string());
    }
    codes.rotate_left(4);
    let v = dominant_language(&codes).unwrap();
    assert_eq!(v.code, "en");
    assert_eq!(v.lines, 7);
}

#[test]
fn tie_goes_to_smaller_code() {
    let v = dominant_language(&strings(&["fr", "en", "en", "fr"])).unwrap();
    assert_eq!(v.code, "en");
    assert_eq!(v.lines, 2);
    let v = dominant_language(&strings(&["fr", "de"])).unwrap();
    assert_eq!(v.code, "de");
    assert_eq!(v.lines, 1);
    assert!(dominant_language(&Vec::new()).is_none());
}

#[test]
fn byte_order_and_vote_counts() {
    assert!(bytes_le(b"de", b"en"));
    assert!(!bytes_le(b"en", b"de"));
    assert!(bytes_le(b"en", b"en"));
    assert!(bytes_le(b"en", b"eng"));
    assert!(!bytes_le(b"eng", b"en"));
    let codes = strings(&["en", "fr", "en"]);
    assert_eq!(count_votes(&codes, &"en".to_string()), 2);
    assert_eq!(count_votes(&codes, &"de".to_string()), 0);
}

#[test]
fn top_predictions_skip_unclassified_lines() {
    let preds = vec![strings(&["en", "fr"]), vec![], strings(&["fr"])];
    assert_eq!(top_predictions(&preds), strings(&["en", "fr"]));
}

#[test]
fn record_becomes_annotated_document() {
    let record = Record {
        headers: vec![("WARC-Target-URI".to_string(), "http://a.example".to_string())],
        body: "hi\nthere".to_string(),
    };
    let preds = vec![strings(&["fr"]), strings(&["en", "fr"])];
    let anns = vec![Annotator::Header(Header::default())];
    let doc = process_record(record, &preds, &anns);
    assert_eq!(doc.content(), "hi\nthere");
    assert_eq!(doc.warc_headers().len(), 1);
    let lang = doc.metadata().language.as_ref().unwrap();
    assert_eq!(lang.code, "en");
    assert_eq!(lang.lines, 1);
    assert_eq!(doc.metadata().annotation(), Some(&strings(&["header", "footer"])));
}

#[test]
fn unclassified_document_has_no_language() {
    let record = Record { headers: Vec::new(), body: "x".repeat(200) };
    let doc = process_record(record, &vec![vec![]], &vec![]);
    assert!(doc.metadata().language.is_none());
    assert_eq!(doc.metadata().annotation(), None);
}

#[test]
fn annotators_run_in_order() {
    let strict = Header::new(Fraction::new(1, 1), Fraction::new(1, 1), 3);
    let anns = vec![Annotator::Header(Header::default()), Annotator::Header(strict)];
    let mut doc = Document::new("abcd\nabcdef".to_string(), Vec::new(), Metadata::default());
    apply_annotators(&anns, &mut doc);
    assert_eq!(
        doc.metadata().annotation(),
        Some(&strings(&["header", "footer"]))
    );
}

#[test]
fn first_record_is_skipped() {
    let mut gate = RecordGate::new();
    assert!(!gate.should_process());
    assert!(gate.should_process());
    assert!(gate.should_process());
}

#[test]
fn labels_append_to_metadata() {
    let mut m = Metadata::default();
    assert_eq!(m.annotation(), None);
    m.set_annotation("a".to_string());
    m.set_annotation("b".to_string());
    assert_eq!(m.annotation(), Some(&strings(&["a", "b"])));
}

#[test]
fn short_lines_are_measured_in_characters() {
    let h = Header::new(Fraction::new(1, 1), Fraction::new(1, 1), 5);
    let mut doc = Document::new("ééé".to_string(), Vec::new(), Metadata::default());
    h.annotate(&mut doc);
    assert_eq!(doc.metadata().annotation(), Some(&strings(&["header", "footer"])));
    let mut plain = Document::new("abc".to_string(), Vec::new(), Metadata::default());
    h.annotate(&mut plain);
    assert_eq!(plain.metadata().annotation(), doc.metadata().annotation());
    let lens = line_lengths("ééé");
    assert_eq!(h.count_short_lines(&lens, 0, 1), 1);
}

#[test]
fn failed_line_drops_the_record() {
    let outcomes = vec![Some(strings(&["en"])), None, None];
    assert_eq!(checked_top_predictions(&outcomes), Err(1));
    let record = Record { headers: Vec::new(), body: "a\nb\nc".to_string() };
    let anns = vec![Annotator::Header(Header::default())];
    assert_eq!(process_classified_record(record, &outcomes, &anns).err(), Some(RecordError::Classification(1)));
}

#[test]
fn classified_record_becomes_document() {
    let outcomes = vec![Some(strings(&["fr"])), Some(vec![]), Some(strings(&["fr", "en"]))];
    assert_eq!(checked_top_predictions(&outcomes), Ok(strings(&["fr", "fr"])));
    let record = Record { headers: Vec::new(), body: "a\nb\nc".to_string() };
    let doc = process_classified_record(record, &outcomes, &vec![]).ok().unwrap();
    let lang = doc.metadata().language.as_ref().unwrap();
    assert_eq!(lang.code, "fr");
    assert_eq!(lang.lines, 2);
}

#[test]
fn metadata_fields_hold_one_value_per_key() {
    let mut m = Metadata::default();
    assert_eq!(m.field(&"k".to_string()), None);
    m.set_field("k".to_string(), "1".to_string());
    m.set_field("j".to_string(), "2".to_string());
    m.set_field("k".to_string(), "3".to_string());
    assert_eq!(m.field(&"k".to_string()), Some(&"3".to_string()));
    assert_eq!(m.field(&"j".to_string()), Some(&"2".to_string()));
    assert_eq!(m.fields.len(), 2);
    let mut doc = Document::new("x".to_string(), Vec::new(), Metadata::default());
    doc.set_field("quality".to_string(), "ok".to_string());
    assert_eq!(doc.metadata().field(&"quality".to_string()), Some(&"ok".to_string()));
    assert_eq!(doc.metadata().annotation(), None);
}
