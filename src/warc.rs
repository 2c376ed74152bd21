use vstd::prelude::*;
use vstd::string::StringSliceAdditionalSpecFns;

verus! {

/// Line feed.
pub const LF: u8 = 10;

/// Carriage return.
pub const CR: u8 = 13;

/// The colon that separates a header field's name from its value.
pub const COLON: u8 = 58;

/// A space.
pub const SP: u8 = 32;

/// A horizontal tab.
pub const HT: u8 = 9;

/// Why the bytes at a position do not hold a record.
#[derive(Clone, Copy, Debug, PartialEq, Eq)]
pub enum FrameError {
    /// No blank line ends the header block before the data runs out.
    UnterminatedHeader,
    /// The header block does not open with a `WARC/` version line.
    MissingVersion,
    /// A header line has no colon.
    MalformedHeader,
    /// No `Content-Length` field.
    MissingLength,
    /// The `Content-Length` value is not a decimal number that fits in memory.
    BadLength,
    /// The data ends before the body and the blank line after it do.
    TruncatedBody,
    /// The body is not followed by a blank line.
    MissingTrailer,
}

/// One record as framed in the archive: its header fields, as raw bytes, and its body.
#[derive(Clone, Debug)]
pub struct RawRecord {
    pub fields: Vec<(Vec<u8>, Vec<u8>)>,
    pub body: Vec<u8>,
}

impl RawRecord {
    pub open spec fn fields_view(&self) -> Seq<(Seq<u8>, Seq<u8>)> {
        self.fields@.map_values(|f: (Vec<u8>, Vec<u8>)| (f.0@, f.1@))
    }
}

/// A line ending `\r\n` stands at `i`, before `e`.
pub open spec fn crlf_at(b: Seq<u8>, i: int, e: int) -> bool {
    0 <= i && i + 1 < e && e <= b.len() && b[i] == CR && b[i + 1] == LF
}

/// Position of the first `\r\n\r\n` at or after `i`, or the length of `b` if there is none.
pub open spec fn next_blank(b: Seq<u8>, i: int) -> int
    decreases b.len() - i,
{
    if i + 3 >= b.len() {
        b.len() as int
    } else if crlf_at(b, i, b.len() as int) && crlf_at(b, i + 2, b.len() as int) {
        i
    } else {
        next_blank(b, i + 1)
    }
}

/// Position of the first `\r\n` in `b[i..e]`, or `e` if there is none.
pub open spec fn next_crlf(b: Seq<u8>, i: int, e: int) -> int
    decreases e - i,
{
    if i + 1 >= e {
        e
    } else if crlf_at(b, i, e) {
        i
    } else {
        next_crlf(b, i + 1, e)
    }
}

/// The lines of `b[s..e]`, split at `\r\n`.
pub open spec fn crlf_lines(b: Seq<u8>, s: int, e: int) -> Seq<Seq<u8>>
    decreases e - s,
{
    if s < 0 || s >= e {
        seq![]
    } else {
        let c = next_crlf(b, s, e);
        if c < s || c + 2 > e {
            seq![b.subrange(s, e)]
        } else {
            seq![b.subrange(s, c)] + crlf_lines(b, c + 2, e)
        }
    }
}

/// Position of the first colon of `l` at or after `i`, or the length of `l`.
pub open spec fn colon_from(l: Seq<u8>, i: int) -> int
    decreases l.len() - i,
{
    if i >= l.len() {
        l.len() as int
    } else if l[i] == COLON {
        i
    } else {
        colon_from(l, i + 1)
    }
}

/// `v` without its leading spaces and tabs.
pub open spec fn trim_start(v: Seq<u8>) -> Seq<u8>
    decreases v.len(),
{
    if v.len() > 0 && (v[0] == SP || v[0] == HT) {
        trim_start(v.drop_first())
    } else {
        v
    }
}

/// A header line as a field: the name before the first colon, the value after
/// it without leading blanks.
pub open spec fn field_of(l: Seq<u8>) -> (Seq<u8>, Seq<u8>) {
    let c = colon_from(l, 0);
    (l.subrange(0, c), trim_start(l.subrange(c + 1, l.len() as int)))
}

/// The fields of the header lines, or `None` if a line has no colon.
pub open spec fn fields_of(lines: Seq<Seq<u8>>) -> Option<Seq<(Seq<u8>, Seq<u8>)>>
    decreases lines.len(),
{
    if lines.len() == 0 {
        Some(seq![])
    } else {
        match fields_of(lines.drop_last()) {
            None => None,
            Some(fs) => if colon_from(lines.last(), 0) < lines.last().len() {
                Some(fs.push(field_of(lines.last())))
            } else {
                None
            },
        }
    }
}

/// The field name that gives the body's length.
pub open spec fn length_name() -> Seq<u8> {
    "Content-Length".spec_bytes()
}

/// The value of the first field named `Content-Length`.
pub open spec fn length_field(fs: Seq<(Seq<u8>, Seq<u8>)>) -> Option<Seq<u8>>
    decreases fs.len(),
{
    if fs.len() == 0 {
        None
    } else if fs[0].0 == length_name() {
        Some(fs[0].1)
    } else {
        length_field(fs.drop_first())
    }
}

pub open spec fn is_digit(c: u8) -> bool {
    48 <= c <= 57
}

/// The number that the decimal digits `v` spell.
pub open spec fn decimal(v: Seq<u8>) -> nat
    decreases v.len(),
{
    if v.len() == 0 {
        0
    } else {
        decimal(v.drop_last()) * 10 + (v.last() - 48) as nat
    }
}

/// `v` is a decimal number that fits in a `usize`.
pub open spec fn valid_length(v: Seq<u8>) -> bool {
    &&& v.len() > 0
    &&& forall|i: int| 0 <= i < v.len() ==> is_digit(#[trigger] v[i])
    &&& decimal(v) <= usize::MAX
}

/// The bytes of `WARC/`, which open a record's version line.
pub open spec fn version_prefix() -> Seq<u8> {
    seq![87u8, 65u8, 82u8, 67u8, 47u8]
}

/// The version line opens with `WARC/`.
pub open spec fn is_version_line(l: Seq<u8>) -> bool {
    l.len() >= 5 && l.subrange(0, 5) == version_prefix()
}

/// The record framed at position `p` of `b`: its fields, its body and the
/// position just after it; or why there is none.
pub open spec fn frame_at(b: Seq<u8>, p: int) -> Result<
    (Seq<(Seq<u8>, Seq<u8>)>, Seq<u8>, int),
    FrameError,
> {
    let e = next_blank(b, p);
    let lines = crlf_lines(b, p, e);
    if e >= b.len() {
        Err(FrameError::UnterminatedHeader)
    } else if lines.len() == 0 || !is_version_line(lines[0]) {
        Err(FrameError::MissingVersion)
    } else {
        match fields_of(lines.skip(1)) {
            None => Err(FrameError::MalformedHeader),
            Some(fs) => match length_field(fs) {
                None => Err(FrameError::MissingLength),
                Some(v) => if !valid_length(v) {
                    Err(FrameError::BadLength)
                } else {
                    let s = e + 4;
                    let n = decimal(v) as int;
                    if s + n + 4 > b.len() {
                        Err(FrameError::TruncatedBody)
                    } else if !(crlf_at(b, s + n, b.len() as int) && crlf_at(
                        b,
                        s + n + 2,
                        b.len() as int,
                    )) {
                        Err(FrameError::MissingTrailer)
                    } else {
                        Ok((fs, b.subrange(s, s + n), s + n + 4))
                    }
                },
            },
        }
    }
}

/// The byte ranges of a sequence of lines.
pub open spec fn ranges_view(b: Seq<u8>, r: Seq<(usize, usize)>) -> Seq<Seq<u8>> {
    r.map_values(|x: (usize, usize)| b.subrange(x.0 as int, x.1 as int))
}

proof fn lemma_next_blank_fits(b: Seq<u8>, i: int)
    requires
        0 <= i,
    ensures
        next_blank(b, i) == b.len() || next_blank(b, i) + 3 < b.len(),
    decreases b.len() - i,
{
    if i + 3 < b.len() && !(crlf_at(b, i, b.len() as int) && crlf_at(b, i + 2, b.len() as int)) {
        lemma_next_blank_fits(b, i + 1);
    }
}

/// Position of the first `\r\n\r\n` at or after `p`, or the length of `b`.
fn find_blank(b: &[u8], p: usize) -> (e: usize)
    requires
        p <= b.len(),
    ensures
        e == next_blank(b@, p as int),
        p <= e <= b.len(),
{
    let mut i: usize = p;
    while i < b.len()
        invariant
            p <= i <= b.len(),
            next_blank(b@, p as int) == next_blank(b@, i as int),
        decreases b.len() - i,
    {
        if b.len() - i <= 3 {
            return b.len();
        }
        if b[i] == CR && b[i + 1] == LF && b[i + 2] == CR && b[i + 3] == LF {
            return i;
        }
        i = i + 1;
    }
    b.len()
}

/// Position of the first `\r\n` in `b[s..e]`, or `e`.
fn find_crlf(b: &[u8], s: usize, e: usize) -> (c: usize)
    requires
        s <= e <= b.len(),
    ensures
        c == next_crlf(b@, s as int, e as int),
        s <= c <= e,
{
    let mut i: usize = s;
    while i < e
        invariant
            s <= i <= e <= b.len(),
            next_crlf(b@, s as int, e as int) == next_crlf(b@, i as int, e as int),
        decreases e - i,
    {
        if e - i <= 1 {
            return e;
        }
        if b[i] == CR && b[i + 1] == LF {
            return i;
        }
        i = i + 1;
    }
    e
}

/// The byte ranges of the lines of `b[s0..e]`, split at `\r\n`.
fn line_ranges(b: &[u8], s0: usize, e: usize) -> (r: Vec<(usize, usize)>)
    requires
        s0 <= e <= b.len(),
    ensures
        ranges_view(b@, r@) == crlf_lines(b@, s0 as int, e as int),
        forall|k: int| 0 <= k < r.len() ==> r@[k].0 <= #[trigger] r@[k].1 <= e,
{
    let mut r: Vec<(usize, usize)> = Vec::new();
    let mut s: usize = s0;
    while s < e
        invariant
            s0 <= s <= e <= b.len(),
            crlf_lines(b@, s0 as int, e as int) == ranges_view(b@, r@) + crlf_lines(
                b@,
                s as int,
                e as int,
            ),
            forall|k: int| 0 <= k < r.len() ==> r@[k].0 <= #[trigger] r@[k].1 <= e,
        decreases e - s,
    {
        let c = find_crlf(b, s, e);
        let ghost before = r@;
        if e - c < 2 {
            r.push((s, e));
            assert(ranges_view(b@, r@) == ranges_view(b@, before).push(b@.subrange(s as int, e as int)));
            assert(crlf_lines(b@, e as int, e as int) == Seq::<Seq<u8>>::empty());
            s = e;
        } else {
            r.push((s, c));
            assert(ranges_view(b@, r@) == ranges_view(b@, before).push(b@.subrange(s as int, c as int)));
            s = c + 2;
        }
    }
    r
}

/// A copy of `b[s..t]`.
fn copy_range(b: &[u8], s: usize, t: usize) -> (r: Vec<u8>)
    requires
        s <= t <= b.len(),
    ensures
        r@ == b@.subrange(s as int, t as int),
{
    let mut r: Vec<u8> = Vec::new();
    let mut i: usize = s;
    while i < t
        invariant
            s <= i <= t <= b.len(),
            r@ == b@.subrange(s as int, i as int),
        decreases t - i,
    {
        r.push(b[i]);
        i = i + 1;
    }
    r
}

/// Position of the first colon in `b[s..t]`, or `t`.
fn find_colon(b: &[u8], s: usize, t: usize) -> (c: usize)
    requires
        s <= t <= b.len(),
    ensures
        s <= c <= t,
        c - s == colon_from(b@.subrange(s as int, t as int), 0),
{
    let ghost l = b@.subrange(s as int, t as int);
    let mut i: usize = s;
    while i < t
        invariant
            s <= i <= t <= b.len(),
            l == b@.subrange(s as int, t as int),
            colon_from(l, 0) == colon_from(l, i - s),
        decreases t - i,
    {
        if b[i] == COLON {
            return i;
        }
        i = i + 1;
    }
    i
}

/// Position of the first byte of `b[s..t]` that is neither a space nor a tab, or `t`.
fn skip_blanks(b: &[u8], s: usize, t: usize) -> (r: usize)
    requires
        s <= t <= b.len(),
    ensures
        s <= r <= t,
        b@.subrange(r as int, t as int) == trim_start(b@.subrange(s as int, t as int)),
{
    let mut i: usize = s;
    while i < t && (b[i] == SP || b[i] == HT)
        invariant
            s <= i <= t <= b.len(),
            trim_start(b@.subrange(s as int, t as int)) == trim_start(
                b@.subrange(i as int, t as int),
            ),
        decreases t - i,
    {
        assert(b@.subrange(i as int, t as int).drop_first() == b@.subrange(i + 1, t as int));
        i = i + 1;
    }
    i
}

proof fn lemma_fields_none_extends(lines: Seq<Seq<u8>>, j: int)
    requires
        0 <= j <= lines.len(),
        fields_of(lines.subrange(0, j)) is None,
    ensures
        fields_of(lines) is None,
    decreases lines.len(),
{
    if lines.len() > j {
        assert(lines.drop_last().subrange(0, j) == lines.subrange(0, j));
        lemma_fields_none_extends(lines.drop_last(), j);
    } else {
        assert(lines.subrange(0, j) == lines);
    }
}

/// The fields of the header lines at `ranges[1..]`; `None` if a line has no colon.
fn parse_fields(b: &[u8], ranges: &Vec<(usize, usize)>) -> (r: Option<Vec<(Vec<u8>, Vec<u8>)>>)
    requires
        ranges.len() >= 1,
        forall|k: int| 0 <= k < ranges.len() ==> ranges@[k].0 <= #[trigger] ranges@[k].1 <= b.len(),
    ensures
        match r {
            None => fields_of(ranges_view(b@, ranges@).skip(1)) is None,
            Some(fs) => fields_of(ranges_view(b@, ranges@).skip(1)) == Some(
                fs@.map_values(|f: (Vec<u8>, Vec<u8>)| (f.0@, f.1@)),
            ),
        },
{
    let ghost hl = ranges_view(b@, ranges@).skip(1);
    let mut fs: Vec<(Vec<u8>, Vec<u8>)> = Vec::new();
    let mut j: usize = 1;
    while j < ranges.len()
        invariant
            1 <= j <= ranges.len(),
            hl == ranges_view(b@, ranges@).skip(1),
            forall|k: int| 0 <= k < ranges.len() ==> ranges@[k].0 <= #[trigger] ranges@[k].1 <= b.len(),
            fields_of(hl.subrange(0, j - 1)) == Some(
                fs@.map_values(|f: (Vec<u8>, Vec<u8>)| (f.0@, f.1@)),
            ),
        decreases ranges.len() - j,
    {
        let (s, t) = ranges[j];
        assert(ranges@[j as int].0 <= ranges@[j as int].1 <= b.len());
        let ghost line = b@.subrange(s as int, t as int);
        assert(hl[j - 1] == line);
        assert(hl.subrange(0, j as int).drop_last() == hl.subrange(0, j - 1));
        assert(hl.subrange(0, j as int).last() == line);
        let c = find_colon(b, s, t);
        if c == t {
            proof {
                lemma_fields_none_extends(hl, j as int);
            }
            return None;
        }
        let v = skip_blanks(b, c + 1, t);
        assert(line.subrange(c - s + 1, line.len() as int) == b@.subrange(c + 1, t as int));
        assert(line.subrange(0, c - s) == b@.subrange(s as int, c as int));
        let name = copy_range(b, s, c);
        let value = copy_range(b, v, t);
        let ghost before = fs@;
        fs.push((name, value));
        assert(fs@.map_values(|f: (Vec<u8>, Vec<u8>)| (f.0@, f.1@)) == before.map_values(
            |f: (Vec<u8>, Vec<u8>)| (f.0@, f.1@),
        ).push(field_of(line)));
        j = j + 1;
    }
    assert(hl.subrange(0, ranges.len() - 1) == hl);
    Some(fs)
}

/// Whether `a` and `b` hold the same bytes.
fn same_bytes(a: &[u8], b: &[u8]) -> (r: bool)
    ensures
        r == (a@ == b@),
{
    if a.len() != b.len() {
        return false;
    }
    let mut i: usize = 0;
    while i < a.len()
        invariant
            i <= a.len() == b.len(),
            a@.subrange(0, i as int) == b@.subrange(0, i as int),
        decreases a.len() - i,
    {
        if a[i] != b[i] {
            assert(a@[i as int] != b@[i as int]);
            return false;
        }
        assert(a@.subrange(0, i + 1) == a@.subrange(0, i as int).push(a@[i as int]));
        assert(b@.subrange(0, i + 1) == b@.subrange(0, i as int).push(b@[i as int]));
        i = i + 1;
    }
    assert(a@ == a@.subrange(0, i as int));
    assert(b@ == b@.subrange(0, i as int));
    true
}

/// Index of the first field named `Content-Length`.
fn find_length_field(fs: &Vec<(Vec<u8>, Vec<u8>)>) -> (r: Option<usize>)
    ensures
        match r {
            None => length_field(fs@.map_values(|f: (Vec<u8>, Vec<u8>)| (f.0@, f.1@))) is None,
            Some(k) => k < fs.len() && length_field(
                fs@.map_values(|f: (Vec<u8>, Vec<u8>)| (f.0@, f.1@)),
            ) == Some(fs@[k as int].1@),
        },
{
    let ghost fv = fs@.map_values(|f: (Vec<u8>, Vec<u8>)| (f.0@, f.1@));
    let name = "Content-Length".as_bytes();
    assert(fv.subrange(0, fv.len() as int) == fv);
    let mut i: usize = 0;
    while i < fs.len()
        invariant
            i <= fs.len(),
            fv == fs@.map_values(|f: (Vec<u8>, Vec<u8>)| (f.0@, f.1@)),
            name@ == length_name(),
            length_field(fv) == length_field(fv.subrange(i as int, fv.len() as int)),
        decreases fs.len() - i,
    {
        let ghost rest = fv.subrange(i as int, fv.len() as int);
        assert(rest[0] == fv[i as int]);
        if same_bytes(fs[i].0.as_slice(), name) {
            return Some(i);
        }
        assert(rest.drop_first() == fv.subrange(i + 1, fv.len() as int));
        i = i + 1;
    }
    None
}

/// The number that `v` spells, if it is a decimal number that fits in a `usize`.
pub fn parse_length(v: &[u8]) -> (r: Option<usize>)
    ensures
        r is Some <==> valid_length(v@),
        r matches Some(n) ==> n == decimal(v@),
{
    if v.len() == 0 {
        return None;
    }
    let mut val: u128 = 0;
    let mut over: bool = false;
    let mut i: usize = 0;
    while i < v.len()
        invariant
            i <= v.len(),
            forall|k: int| 0 <= k < i ==> is_digit(#[trigger] v@[k]),
            !over ==> val == decimal(v@.subrange(0, i as int)) && val <= usize::MAX,
            over ==> decimal(v@.subrange(0, i as int)) > usize::MAX,
        decreases v.len() - i,
    {
        let d = v[i];
        if d < 48 || d > 57 {
            assert(!is_digit(v@[i as int]));
            return None;
        }
        assert(v@.subrange(0, i + 1).drop_last() == v@.subrange(0, i as int));
        if !over {
            let next: u128 = val * 10 + (d - 48) as u128;
            if next > usize::MAX as u128 {
                over = true;
            } else {
                val = next;
            }
        }
        i = i + 1;
    }
    assert(v@.subrange(0, i as int) == v@);
    if over {
        None
    } else {
        Some(val as usize)
    }
}

/// Frames the record that starts at position `p` of `b`: its fields, its body,
/// and the position just after the blank line that ends it.
#[verifier::loop_isolation(false)]
pub fn read_record(b: &[u8], p: usize) -> (r: Result<(RawRecord, usize), FrameError>)
    requires
        p <= b.len(),
    ensures
        match (r, frame_at(b@, p as int)) {
            (Ok((rec, q)), Ok((fs, body, end))) => rec.fields_view() == fs && rec.body@ == body
                && q == end,
            (Err(x), Err(y)) => x == y,
            _ => false,
        },
{
    let e = find_blank(b, p);
    if e == b.len() {
        return Err(FrameError::UnterminatedHeader);
    }
    proof {
        lemma_next_blank_fits(b@, p as int);
    }
    let ranges = line_ranges(b, p, e);
    let ghost lines = crlf_lines(b@, p as int, e as int);
    if ranges.len() == 0 {
        return Err(FrameError::MissingVersion);
    }
    let (s0, t0) = ranges[0];
    assert(lines[0] == b@.subrange(s0 as int, t0 as int));
    let version: [u8; 5] = [87, 65, 82, 67, 47];
    if t0 - s0 < 5 {
        return Err(FrameError::MissingVersion);
    }
    let mut k: usize = 0;
    while k < 5
        invariant
            k <= 5,
            s0 + 5 <= t0 <= b.len(),
            version@ == version_prefix(),
            forall|m: int| 0 <= m < k ==> b@[s0 + m] == version@[m],
        decreases 5 - k,
    {
        if b[s0 + k] != version[k] {
            assert(b@.subrange(s0 as int, t0 as int).subrange(0, 5)[k as int] != version@[k as int]);
            return Err(FrameError::MissingVersion);
        }
        k = k + 1;
    }
    assert(b@.subrange(s0 as int, t0 as int).subrange(0, 5) == version@);
    let fields = match parse_fields(b, &ranges) {
        None => return Err(FrameError::MalformedHeader),
        Some(fs) => fs,
    };
    let n = match find_length_field(&fields) {
        None => return Err(FrameError::MissingLength),
        Some(k) => match parse_length(fields[k].1.as_slice()) {
            None => return Err(FrameError::BadLength),
            Some(n) => n,
        },
    };
    let s = e + 4;
    if b.len() - s < n || b.len() - s - n < 4 {
        return Err(FrameError::TruncatedBody);
    }
    let t = s + n;
    if !(b[t] == CR && b[t + 1] == LF && b[t + 2] == CR && b[t + 3] == LF) {
        return Err(FrameError::MissingTrailer);
    }
    let body = copy_range(b, s, t);
    Ok((RawRecord { fields, body }, t + 4))
}

/// The error says only that the data ran out: more bytes may complete the record.
pub open spec fn is_incomplete(e: FrameError) -> bool {
    e == FrameError::UnterminatedHeader || e == FrameError::TruncatedBody
}

/// A line that opens with `WARC/` starts at `q`.
pub open spec fn version_at(b: Seq<u8>, q: int) -> bool {
    1 <= q && q + 5 <= b.len() && b[q - 1] == LF && b.subrange(q, q + 5) == version_prefix()
}

/// The first position at or after `i` where a line opens with `WARC/`, or the length of `b`.
pub open spec fn next_version(b: Seq<u8>, i: int) -> int
    decreases b.len() - i,
{
    if i >= b.len() {
        b.len() as int
    } else if version_at(b, i) {
        i
    } else {
        next_version(b, i + 1)
    }
}

/// What a reader does next at position `p` of the bytes read so far.
pub enum FrameStep {
    /// A record, and the position just after it.
    Record(RawRecord, usize),
    /// The record here needs bytes that have not been read yet.
    NeedMore,
    /// A malformed record: why, and the position where the next record may start.
    Skip(FrameError, usize),
    /// The archive is done; with the error of a record that the data cut short, if any.
    End(Option<FrameError>),
}

/// Position of the first line at or after `i` that opens with `WARC/`, or the length of `b`.
fn find_version(b: &[u8], i: usize) -> (q: usize)
    requires
        i <= b.len(),
    ensures
        q == next_version(b@, i as int),
{
    let mut q: usize = i;
    while q < b.len()
        invariant
            i <= q <= b.len(),
            next_version(b@, i as int) == next_version(b@, q as int),
        decreases b.len() - q,
    {
        if q >= 1 && b.len() - q >= 5 && b[q - 1] == LF && b[q] == 87 && b[q + 1] == 65 && b[q + 2]
            == 82 && b[q + 3] == 67 && b[q + 4] == 47 {
            assert(b@.subrange(q as int, q + 5) == version_prefix());
            return q;
        }
        proof {
            if version_at(b@, q as int) {
                let w = b@.subrange(q as int, q + 5);
                assert(w[0] == 87 && w[1] == 65 && w[2] == 82 && w[3] == 67 && w[4] == 47);
            }
        }
        q = q + 1;
    }
    q
}

/// Decides the reader's next step at position `p` of `b`, the bytes read so
/// far; `eof` says that no more will come. A record cut short by the end of the
/// data waits for more bytes, or ends the archive once none will come; a
/// malformed one is skipped up to the next line that opens with `WARC/`.
pub fn next_step(b: &[u8], p: usize, eof: bool) -> (r: FrameStep)
    requires
        p <= b.len(),
    ensures
        p == b.len() ==> if eof {
            r matches FrameStep::End(None)
        } else {
            r is NeedMore
        },
        p < b.len() ==> match frame_at(b@, p as int) {
            Ok((fs, body, end)) => r matches FrameStep::Record(rec, q) && rec.fields_view() == fs
                && rec.body@ == body && q == end,
            Err(e) => if !is_incomplete(e) {
                r matches FrameStep::Skip(x, q) && x == e && q == next_version(b@, p + 1)
            } else if eof {
                r matches FrameStep::End(Some(x)) && x == e
            } else {
                r is NeedMore
            },
        },
{
    if p == b.len() {
        if eof {
            return FrameStep::End(None);
        } else {
            return FrameStep::NeedMore;
        }
    }
    match read_record(b, p) {
        Ok((rec, q)) => FrameStep::Record(rec, q),
        Err(e) => {
            let incomplete = match e {
                FrameError::UnterminatedHeader => true,
                FrameError::TruncatedBody => true,
                _ => false,
            };
            if !incomplete {
                FrameStep::Skip(e, find_version(b, p + 1))
            } else if eof {
                FrameStep::End(Some(e))
            } else {
                FrameStep::NeedMore
            }
        },
    }
}

} // verus!
