use ungoliant::annotate::Annotate;
use ungoliant::document::{Document, Metadata};
use ungoliant::header::{Fraction, Header};

#[test]
fn lengthy_enough() {
    let annotator = Header::new(Fraction::new(30, 100), Fraction::new(60, 100), 30);
    let text = r"This is a lengthy enough sentence! Or at least I hope :)
        This is a lengthy enough sentence! Or at least I hope :)
This is a lengthy enough sentence! Or at least I hope :)
This is a lengthy enough sentence! Or at least I hope :)
This is a lengthy enough sentence! Or at least I hope :)
This is a lengthy enough sentence! Or at least I hope :)
This is a lengthy enough sentence! Or at least I hope :)
This is a lengthy enough sentence! Or at least I hope :)
This is a lengthy enough sentence! Or at least I hope :)
This is a lengthy enough sentence! Or at least I hope :)
This is a lengthy enough sentence! Or at least I hope :)
This is a lengthy enough sentence! Or at least I hope :)
This is a lengthy enough sentence! Or at least I hope :)
This is a lengthy enough sentence! Or at least I hope :)
This is a lengthy enough sentence! Or at least I hope :)
short one but it's ok
This is a lengthy enough sentence! Or at least I hope :)
This is a lengthy enough sentence! Or at least I hope :)";

    let mut doc = Document::new(text.to_string(), Vec::new(), Metadata::default());
    annotator.annotate(&mut doc);
    assert_eq!(doc.metadata().annotation(), None);
}

#[test]
fn test_header() {
    let annotator = Header::new(Fraction::new(30, 100), Fraction::new(60, 100), 30);
    let text = r"This is a lengthy enough sentence! Or at least I hope :)
oop, tiny one here
oop, tiny one here
oop, tiny one here
oop, tiny one here
oop, tiny one here
oop, tiny one here
oop, tiny one here
oop, tiny one here
This is a lengthy enough sentence! Or at least I hope :)
This is a lengthy enough sentence! Or at least I hope :)
This is a lengthy enough sentence! Or at least I hope :)
This is a lengthy enough sentence! Or at least I hope :)
This is a lengthy enough sentence! Or at least I hope :)
This is a lengthy enough sentence! Or at least I hope :)
short one but it's ok
This is a lengthy enough sentence! Or at least I hope :)
This is a lengthy enough sentence! Or at least I hope :)";

    let mut doc = Document::new(text.to_string(), Vec::new(), Metadata::default());
    annotator.annotate(&mut doc);
    assert_eq!(
        doc.metadata().annotation(),
        Some(&vec!["header".to_string()])
    );
}

#[test]
fn test_footer() {
    let annotator = Header::new(Fraction::new(30, 100), Fraction::new(60, 100), 30);
    let text = r"This is a lengthy enough sentence! Or at least I hope :)
This is a lengthy enough sentence! Or at least I hope :)
This is a lengthy enough sentence! Or at least I hope :)
This is a lengthy enough sentence! Or at least I hope :)
This is a lengthy enough sentence! Or at least I hope :)
This is a lengthy enough sentence! Or at least I hope :)
This is a lengthy enough sentence! Or at least I hope :)
This is a lengthy enough sentence! Or at least I hope :)
This is a lengthy enough sentence! Or at least I hope :)
This is a lengthy enough sentence! Or at least I hope :)
This is a lengthy enough sentence! Or at least I hope :)
This is a lengthy enough sentence! Or at least I hope :)
This is a lengthy enough sentence! Or at least I hope :)
This is a lengthy enough sentence! Or at least I hope :)
This is a lengthy enough sentence! Or at least I hope :)
short one but it's ok
short one but it's ok
short one but it's ok
This is a lengthy enough sentence! Or at least I hope :)";

    let mut doc = Document::new(text.to_string(), Vec::new(), Metadata::default());
    annotator.annotate(&mut doc);
    assert_eq!(
        doc.metadata().annotation(),
        Some(&vec!["footer".to_string()])
    );
}

#[test]
fn test_both() {
    let annotator = Header::new(Fraction::new(30, 100), Fraction::new(60, 100), 30);
    let text = r"This is a lengthy enough sentence! Or at least I hope :)
short one but it's ok
short one but it's ok
short one but it's ok
short one but it's ok
short one but it's ok
This is a lengthy enough sentence! Or at least I hope :)
This is a lengthy enough sentence! Or at least I hope :)
This is a lengthy enough sentence! Or at least I hope :)
This is a lengthy enough sentence! Or at least I hope :)
This is a lengthy enough sentence! Or at least I hope :)
This is a lengthy enough sentence! Or at least I hope :)
This is a lengthy enough sentence! Or at least I hope :)
This is a lengthy enough sentence! Or at least I hope :)
This is a lengthy enough sentence! Or at least I hope :)
short one but it's ok
short one but it's ok
short one but it's ok
This is a lengthy enough sentence! Or at least I hope :)";

    let mut doc = Document::new(text.to_string(), Vec::new(), Metadata::default());
    annotator.annotate(&mut doc);
    assert_eq!(
        doc.metadata().annotation(),
        Some(&vec!["header".to_string(), "footer".to_string()])
    );
}
