use vstd::prelude::*;

use crate::annotate::Annotate;
use crate::document::{with_labels, Document};
use crate::text::{line_lengths, lengths_of, lines_of};

verus! {

/// A fraction `num / den` between zero and one.
#[derive(Clone, Copy, Debug, PartialEq, Eq)]
pub struct Fraction {
    pub num: u64,
    pub den: u64,
}

impl Fraction {
    pub open spec fn wf(&self) -> bool {
        0 < self.den && self.num <= self.den
    }

    pub fn new(num: u64, den: u64) -> (r: Fraction)
        requires
            0 < den,
            num <= den,
        ensures
            r.num == num,
            r.den == den,
            r.wf(),
    {
        Fraction { num, den }
    }

    /// `floor(n * self)`.
    pub open spec fn floor_of(&self, n: nat) -> nat {
        ((n * self.num as nat) / (self.den as nat)) as nat
    }

    /// `floor(n * self)`, computed without overflow.
    pub fn floor_mul(&self, n: u64) -> (r: u64)
        requires
            self.wf(),
        ensures
            r as nat == self.floor_of(n as nat),
            r <= n,
    {
        proof {
            let a = n as int;
            let x = self.num as int;
            let d = self.den as int;
            assert(0 <= a * x <= a * d) by (nonlinear_arith)
                requires 0 <= x <= d, 0 <= a;
            assert(a * d <= a * d);
            assert((a * x) / d <= (a * d) / d) by (nonlinear_arith)
                requires a * x <= a * d, 0 < d, 0 <= a * x;
            assert((a * d) / d == a) by (nonlinear_arith)
                requires 0 < d;
            assert(a * x <= 0xffff_ffff_ffff_ffff * 0xffff_ffff_ffff_ffffint) by (nonlinear_arith)
                requires 0 <= a <= 0xffff_ffff_ffff_ffff, 0 <= x <= 0xffff_ffff_ffff_ffff;
        }
        let p: u128 = n as u128 * self.num as u128;
        (p / self.den as u128) as u64
    }
}

/// The label appended when the start of a document is mostly short lines.
pub open spec fn header_label() -> Seq<char> {
    "header"@
}

/// The label appended when the end of a document is mostly short lines.
pub open spec fn footer_label() -> Seq<char> {
    "footer"@
}

/// How many of the given line lengths are strictly below `min`.
pub open spec fn short_count(lens: Seq<usize>, min: usize) -> nat
    decreases lens.len(),
{
    if lens.len() == 0 {
        0
    } else {
        short_count(lens.drop_last(), min) + if lens.last() < min {
            1nat
        } else {
            0nat
        }
    }
}

proof fn lemma_short_count_bound(lens: Seq<usize>, min: usize)
    ensures
        short_count(lens, min) <= lens.len(),
    decreases lens.len(),
{
    if lens.len() > 0 {
        lemma_short_count_bound(lens.drop_last(), min);
    }
}

/// Header/footer boilerplate detector: flags a document whose first (or last)
/// lines are mostly short.
#[derive(Clone, Copy, Debug)]
pub struct Header {
    /// Share of the document's lines that make up the header zone, and the footer zone.
    pub header_pctg: Fraction,
    /// Share of a zone's lines that must be short for the zone to be flagged.
    pub threshold_pctg: Fraction,
    /// A line with fewer characters than this is short.
    pub min_length: usize,
}

impl Header {
    pub open spec fn wf(&self) -> bool {
        self.header_pctg.wf() && self.threshold_pctg.wf()
    }

    /// Lines in each zone of a document of `n` lines.
    pub open spec fn zone_lines(&self, n: nat) -> nat {
        self.header_pctg.floor_of(n)
    }

    /// Short lines a zone of `h` lines must hold to be flagged.
    pub open spec fn trigger_lines(&self, h: nat) -> nat {
        self.threshold_pctg.floor_of(h)
    }

    /// The labels this annotator appends for a document with the given line lengths.
    pub open spec fn labels_for_lengths(&self, lens: Seq<usize>) -> Seq<Seq<char>> {
        let n = lens.len();
        let h = self.zone_lines(n);
        let t = self.trigger_lines(h);
        let head = short_count(lens.subrange(0, h as int), self.min_length);
        let foot = short_count(lens.subrange(n - h, n as int), self.min_length);
        (if head >= t {
            seq![header_label()]
        } else {
            seq![]
        }) + (if foot >= t {
            seq![footer_label()]
        } else {
            seq![]
        })
    }

    /// The labels this annotator appends for a document with this text.
    pub open spec fn labels_for(&self, content: Seq<char>) -> Seq<Seq<char>> {
        self.labels_for_lengths(lengths_of(lines_of(content)))
    }

    pub fn new(header_pctg: Fraction, threshold_pctg: Fraction, min_length: usize) -> (r: Self)
        ensures
            r.header_pctg == header_pctg,
            r.threshold_pctg == threshold_pctg,
            r.min_length == min_length,
    {
        Header { header_pctg, threshold_pctg, min_length }
    }

    /// Counts the lengths in `lens[from..to]` that are below `min_length`.
    pub fn count_short_lines(&self, lens: &Vec<usize>, from: usize, to: usize) -> (r: u64)
        requires
            from <= to <= lens.len(),
        ensures
            r as nat == short_count(lens@.subrange(from as int, to as int), self.min_length),
    {
        let mut count: u64 = 0;
        let mut i: usize = from;
        while i < to
            invariant
                from <= i <= to <= lens.len(),
                count as nat == short_count(lens@.subrange(from as int, i as int), self.min_length),
            decreases to - i,
        {
            proof {
                let s = lens@.subrange(from as int, i as int + 1);
                assert(s.drop_last() == lens@.subrange(from as int, i as int));
                lemma_short_count_bound(lens@.subrange(from as int, i as int), self.min_length);
            }
            if lens[i] < self.min_length {
                count = count + 1;
            }
            i = i + 1;
        }
        count
    }
}

impl Default for Header {
    /// A zone is a fifth of the document, flagged when half its lines have fewer than 100 characters.
    fn default() -> (r: Self)
        ensures
            r.header_pctg == (Fraction { num: 1, den: 5 }),
            r.threshold_pctg == (Fraction { num: 1, den: 2 }),
            r.min_length == 100,
    {
        Header {
            header_pctg: Fraction { num: 1, den: 5 },
            threshold_pctg: Fraction { num: 1, den: 2 },
            min_length: 100,
        }
    }
}

impl Annotate for Header {
    open spec fn wf(&self) -> bool {
        Header::wf(self)
    }

    open spec fn labels_for(&self, content: Seq<char>) -> Seq<Seq<char>> {
        Header::labels_for(self, content)
    }

    fn annotate(&self, doc: &mut Document) {
        let lens = line_lengths(doc.content());
        let n: usize = lens.len();
        let h: u64 = self.header_pctg.floor_mul(n as u64);
        let t: u64 = self.threshold_pctg.floor_mul(h);
        let h: usize = h as usize;
        let ghost old_labels = doc.metadata_view().annotation_view();

        let head = self.count_short_lines(&lens, 0, h);
        if head >= t {
            doc.set_annotation("header".to_owned());
        }
        let foot = self.count_short_lines(&lens, n - h, n);
        if foot >= t {
            doc.set_annotation("footer".to_owned());
        }
        proof {
            let a = if head >= t { seq![header_label()] } else { Seq::<Seq<char>>::empty() };
            let b = if foot >= t { seq![footer_label()] } else { Seq::<Seq<char>>::empty() };
            assert(with_labels(with_labels(old_labels, a), b) == with_labels(old_labels, a + b));
        }
    }
}

/// A zone never holds more lines than the document: `0 <= floor(n * f) <= n`.
pub proof fn lemma_zone_within_document(h: Header, n: nat)
    requires
        h.header_pctg.wf(),
    ensures
        0 <= h.zone_lines(n) <= n,
{
    let x = h.header_pctg.num as int;
    let d = h.header_pctg.den as int;
    assert(0 <= n * x <= n * d) by (nonlinear_arith)
        requires 0 <= x <= d, 0 <= n;
    assert((n * x) / d <= (n * d) / d) by (nonlinear_arith)
        requires n * x <= n * d, 0 < d, 0 <= n * x;
    assert((n * d) / d == n) by (nonlinear_arith)
        requires 0 < d;
}

/// A document without lines gets both labels, whatever the configuration: both
/// zones are empty, and zero short lines reach a trigger count of zero.
pub proof fn lemma_empty_document_flagged(h: Header)
    requires
        h.wf(),
    ensures
        h.labels_for(Seq::<char>::empty()) == seq![header_label(), footer_label()],
{
    assert(lines_of(Seq::<char>::empty()) == Seq::<Seq<char>>::empty());
    let lens = lengths_of(lines_of(Seq::<char>::empty()));
    assert(lens.len() == 0);
    assert(h.zone_lines(0) == 0);
    assert(h.trigger_lines(0) == 0);
    assert(lens.subrange(0, 0).len() == 0);
    assert(seq![header_label()] + seq![footer_label()] == seq![header_label(), footer_label()]);
}

/// Annotating a document twice is cumulative: the second pass appends the same
/// labels again after those of the first.
pub proof fn lemma_annotate_twice_cumulative(
    h: Header,
    content: Seq<char>,
    before: Option<Seq<Seq<char>>>,
)
    ensures
        with_labels(with_labels(before, h.labels_for(content)), h.labels_for(content))
            == with_labels(before, h.labels_for(content) + h.labels_for(content)),
{
    let l = h.labels_for(content);
    assert(l + Seq::<Seq<char>>::empty() == l);
    assert(Seq::<Seq<char>>::empty() + l == l);
}

} // verus!
