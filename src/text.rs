use vstd::prelude::*;
use vstd::std_specs::iter::IteratorSpec;
use vstd::string::{axiom_spec_iter, next_postcondition};

verus! {

/// Line feed, the character that ends a line.
pub const LF: char = '\n';

/// Carriage return, dropped when it stands just before a line feed.
pub const CR: char = '\r';

/// Position of the first line feed at or after `start`, or the length of `b` if there is none.
pub open spec fn next_lf(b: Seq<char>, start: int) -> int
    decreases b.len() - start,
{
    if start >= b.len() {
        b.len() as int
    } else if b[start] == LF {
        start
    } else {
        next_lf(b, start + 1)
    }
}

/// The line that starts at `start`: the characters up to the next line feed, without
/// the carriage return of a `\r\n` ending.
pub open spec fn line_at(b: Seq<char>, start: int) -> Seq<char> {
    let e = next_lf(b, start);
    let l = b.subrange(start, e);
    if e < b.len() && l.len() > 0 && l.last() == CR {
        l.drop_last()
    } else {
        l
    }
}

/// The lines of `b` from position `start` on.
pub open spec fn lines_from(b: Seq<char>, start: int) -> Seq<Seq<char>>
    decreases b.len() - start,
{
    if start < 0 || start >= b.len() {
        seq![]
    } else {
        let e = next_lf(b, start);
        if e < start {
            seq![]
        } else if e >= b.len() {
            seq![line_at(b, start)]
        } else {
            seq![line_at(b, start)] + lines_from(b, e + 1)
        }
    }
}

/// The lines of a text: split at `\n` or `\r\n`; a final line ending is optional
/// and an empty text has no lines.
pub open spec fn lines_of(b: Seq<char>) -> Seq<Seq<char>> {
    lines_from(b, 0)
}

/// The line lengths, in characters, of a sequence of lines.
pub open spec fn lengths_of(lines: Seq<Seq<char>>) -> Seq<usize> {
    lines.map_values(|l: Seq<char>| l.len() as usize)
}

proof fn lemma_next_lf(b: Seq<char>, start: int, i: int)
    requires
        0 <= start <= i <= b.len(),
        forall|k: int| start <= k < i ==> b[k] != LF,
        i == b.len() || b[i] == LF,
    ensures
        next_lf(b, start) == i,
    decreases i - start,
{
    if start < i {
        lemma_next_lf(b, start + 1, i);
    }
}

/// Length in characters of each line of `b`, in order.
pub fn line_lengths_of_chars(b: &[char]) -> (r: Vec<usize>)
    ensures
        r@ == lengths_of(lines_of(b@)),
{
    let mut r: Vec<usize> = Vec::new();
    let mut start: usize = 0;
    let mut i: usize = 0;
    let ghost mut done: Seq<Seq<char>> = seq![];
    while i < b.len()
        invariant
            0 <= start <= i <= b.len(),
            forall|k: int| start <= k < i ==> b@[k] != LF,
            lines_of(b@) == done + lines_from(b@, start as int),
            r@ == lengths_of(done),
        decreases b.len() - i,
    {
        if b[i] == LF {
            proof {
                lemma_next_lf(b@, start as int, i as int);
            }
            let mut len: usize = i - start;
            if i > start && b[i - 1] == CR {
                len = len - 1;
            }
            proof {
                let l = line_at(b@, start as int);
                assert(l.len() == len);
                assert(lines_from(b@, start as int) == seq![l] + lines_from(b@, i + 1));
                assert(done + lines_from(b@, start as int) == done.push(l) + lines_from(b@, i + 1));
                assert(lengths_of(done.push(l)) == lengths_of(done).push(len));
                done = done.push(l);
            }
            r.push(len);
            start = i + 1;
        }
        i = i + 1;
    }
    if start < b.len() {
        proof {
            lemma_next_lf(b@, start as int, i as int);
            let l = line_at(b@, start as int);
            assert(lines_from(b@, start as int) == seq![l] + lines_from(b@, i + 1));
            assert(lines_from(b@, i + 1) == Seq::<Seq<char>>::empty());
            assert(done + lines_from(b@, start as int) == done.push(l));
            assert(lengths_of(done.push(l)) == lengths_of(done).push((i - start) as usize));
        }
        r.push(i - start);
    } else {
        assert(done + lines_from(b@, start as int) == done);
    }
    r
}

/// The characters of `text`, in order.
pub fn chars_of(text: &str) -> (r: Vec<char>)
    ensures
        r@ == text@,
{
    broadcast use axiom_spec_iter, next_postcondition;

    let mut it = text.chars();
    let mut r: Vec<char> = Vec::new();
    loop
        invariant
            r@ + it.remaining() == text@,
        ensures
            r@ == text@,
        decreases text@.len() - r.len(),
    {
        match it.next() {
            Some(c) => {
                r.push(c);
            },
            None => {
                assert(r@ + Seq::<char>::empty() == r@);
                break;
            },
        }
    }
    r
}

/// Length in characters of each line of `text`, in order.
pub fn line_lengths(text: &str) -> (r: Vec<usize>)
    ensures
        r@ == lengths_of(lines_of(text@)),
{
    let chars = chars_of(text);
    line_lengths_of_chars(chars.as_slice())
}

} // verus!
