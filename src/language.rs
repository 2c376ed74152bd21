use vstd::prelude::*;
use vstd::string::StringSliceAdditionalSpecFns;
use vstd::utf8::{encode_utf8, encode_utf8_decode_utf8};

use crate::document::{strings_view, LanguageVerdict};

verus! {

/// How many lines voted for `code`.
pub open spec fn votes(codes: Seq<Seq<char>>, code: Seq<char>) -> nat
    decreases codes.len(),
{
    if codes.len() == 0 {
        0
    } else {
        votes(codes.drop_last(), code) + if codes.last() == code {
            1nat
        } else {
            0nat
        }
    }
}

/// Byte-wise lexicographic order of `a` and `b`, compared from position `i` on.
pub open spec fn bytes_le_from(a: Seq<u8>, b: Seq<u8>, i: int) -> bool
    decreases a.len() - i,
{
    if i >= a.len() {
        true
    } else if i >= b.len() {
        false
    } else if a[i] < b[i] {
        true
    } else if a[i] > b[i] {
        false
    } else {
        bytes_le_from(a, b, i + 1)
    }
}

/// `a` sorts before `b`, or equals it, in the byte-wise order of their UTF-8 text.
pub open spec fn code_le(a: Seq<char>, b: Seq<char>) -> bool {
    bytes_le_from(encode_utf8(a), encode_utf8(b), 0)
}

/// `a` ranks at least as high as `b`: more votes, or as many and a code that sorts first.
pub open spec fn ranks_over(codes: Seq<Seq<char>>, a: Seq<char>, b: Seq<char>) -> bool {
    votes(codes, a) > votes(codes, b) || (votes(codes, a) == votes(codes, b) && code_le(a, b))
}

/// The top prediction of every line that got at least one, in line order.
pub open spec fn top_codes(preds: Seq<Seq<Seq<char>>>) -> Seq<Seq<char>>
    decreases preds.len(),
{
    if preds.len() == 0 {
        seq![]
    } else {
        let rest = top_codes(preds.drop_last());
        if preds.last().len() == 0 {
            rest
        } else {
            rest.push(preds.last()[0])
        }
    }
}

proof fn lemma_le_total(a: Seq<u8>, b: Seq<u8>, i: int)
    requires
        0 <= i,
    ensures
        bytes_le_from(a, b, i) || bytes_le_from(b, a, i),
    decreases a.len() - i,
{
    if i < a.len() && i < b.len() && a[i] == b[i] {
        lemma_le_total(a, b, i + 1);
    }
}

proof fn lemma_le_trans(a: Seq<u8>, b: Seq<u8>, c: Seq<u8>, i: int)
    requires
        0 <= i,
        bytes_le_from(a, b, i),
        bytes_le_from(b, c, i),
    ensures
        bytes_le_from(a, c, i),
    decreases a.len() - i,
{
    if i < a.len() && i < b.len() && i < c.len() && a[i] == b[i] && b[i] == c[i] {
        lemma_le_trans(a, b, c, i + 1);
    }
}

proof fn lemma_votes_bound(codes: Seq<Seq<char>>, code: Seq<char>)
    ensures
        votes(codes, code) <= codes.len(),
    decreases codes.len(),
{
    if codes.len() > 0 {
        lemma_votes_bound(codes.drop_last(), code);
    }
}

/// Byte-wise lexicographic comparison: `a` sorts before `b` or equals it.
pub fn bytes_le(a: &[u8], b: &[u8]) -> (r: bool)
    ensures
        r == bytes_le_from(a@, b@, 0),
{
    let mut i: usize = 0;
    while i < a.len() && i < b.len() && a[i] == b[i]
        invariant
            i <= a.len(),
            bytes_le_from(a@, b@, 0) == bytes_le_from(a@, b@, i as int),
        decreases a.len() - i,
    {
        i = i + 1;
    }
    if i >= a.len() {
        true
    } else if i >= b.len() {
        false
    } else {
        a[i] < b[i]
    }
}

/// How many entries of `codes` equal `code`.
pub fn count_votes(codes: &Vec<String>, code: &String) -> (r: u64)
    ensures
        r as nat == votes(strings_view(codes@), code@),
{
    let ghost all = strings_view(codes@);
    let mut n: u64 = 0;
    let mut j: usize = 0;
    while j < codes.len()
        invariant
            j <= codes.len(),
            all == strings_view(codes@),
            n as nat == votes(all.subrange(0, j as int), code@),
        decreases codes.len() - j,
    {
        proof {
            assert(all.subrange(0, j + 1).drop_last() == all.subrange(0, j as int));
            lemma_votes_bound(all.subrange(0, j as int), code@);
        }
        if codes[j] == *code {
            n = n + 1;
        }
        j = j + 1;
    }
    assert(all.subrange(0, codes.len() as int) == all);
    n
}

/// The top prediction of each line that has one, in line order; `preds[i]` holds
/// the predictions for line `i`, most confident first.
pub fn top_predictions(preds: &Vec<Vec<String>>) -> (r: Vec<String>)
    ensures
        strings_view(r@) == top_codes(preds@.map_values(|p: Vec<String>| strings_view(p@))),
{
    let ghost all = preds@.map_values(|p: Vec<String>| strings_view(p@));
    let mut r: Vec<String> = Vec::new();
    let mut i: usize = 0;
    while i < preds.len()
        invariant
            i <= preds.len(),
            all == preds@.map_values(|p: Vec<String>| strings_view(p@)),
            strings_view(r@) == top_codes(all.subrange(0, i as int)),
        decreases preds.len() - i,
    {
        assert(all.subrange(0, i + 1).drop_last() == all.subrange(0, i as int));
        let line = &preds[i];
        if line.len() > 0 {
            let top = line[0].clone();
            let ghost before = r@;
            r.push(top);
            assert(strings_view(r@) == strings_view(before).push(top@));
        }
        i = i + 1;
    }
    assert(all.subrange(0, preds.len() as int) == all);
    r
}

/// `r` is the language that the votes `codes` elect: the code with the most
/// votes, ties going to the code that sorts first; `None` when there is no vote.
pub open spec fn elects(codes: Seq<Seq<char>>, r: Option<LanguageVerdict>) -> bool {
    &&& (r is None <==> codes.len() == 0)
    &&& r matches Some(v) ==> {
        &&& codes.contains(v.code@)
        &&& v.lines as nat == votes(codes, v.code@)
        &&& forall|k: int| 0 <= k < codes.len() ==> ranks_over(codes, v.code@, #[trigger] codes[k])
    }
}

/// The language of a document whose classified lines voted for `codes`.
pub fn dominant_language(codes: &Vec<String>) -> (r: Option<LanguageVerdict>)
    ensures
        elects(strings_view(codes@), r),
{
    if codes.len() == 0 {
        return None;
    }
    let ghost all = strings_view(codes@);
    let mut best: usize = 0;
    let mut best_votes: u64 = count_votes(codes, &codes[0]);
    let mut i: usize = 1;
    proof {
        lemma_le_total(encode_utf8(all[0]), encode_utf8(all[0]), 0);
    }
    while i < codes.len()
        invariant
            1 <= i <= codes.len(),
            best < codes.len(),
            all == strings_view(codes@),
            best_votes as nat == votes(all, all[best as int]),
            forall|k: int| 0 <= k < i ==> ranks_over(all, all[best as int], #[trigger] all[k]),
        decreases codes.len() - i,
    {
        let v = count_votes(codes, &codes[i]);
        let better = v > best_votes || (v == best_votes && !bytes_le(
            codes[best].as_str().as_bytes(),
            codes[i].as_str().as_bytes(),
        ));
        proof {
            let b = encode_utf8(all[best as int]);
            let c = encode_utf8(all[i as int]);
            lemma_le_total(b, c, 0);
            if better {
                assert forall|k: int| 0 <= k < i + 1 implies ranks_over(
                    all,
                    all[i as int],
                    #[trigger] all[k],
                ) by {
                    if k < i {
                        let d = encode_utf8(all[k]);
                        if votes(all, all[i as int]) == votes(all, all[k]) {
                            lemma_le_trans(c, b, d, 0);
                        }
                    }
                    if k == i {
                        lemma_le_total(c, c, 0);
                    }
                }
            }
        }
        if better {
            best = i;
            best_votes = v;
        }
        i = i + 1;
    }
    let code = codes[best].clone();
    assert(all[best as int] == code@);
    Some(LanguageVerdict { code, lines: best_votes })
}

proof fn lemma_le_antisymmetric(a: Seq<u8>, b: Seq<u8>, i: int)
    requires
        0 <= i <= a.len(),
        i <= b.len(),
        a.subrange(0, i) == b.subrange(0, i),
        bytes_le_from(a, b, i),
        bytes_le_from(b, a, i),
    ensures
        a == b,
    decreases a.len() - i,
{
    if i < a.len() && i < b.len() {
        assert(a.subrange(0, i + 1) == a.subrange(0, i).push(a[i]));
        assert(b.subrange(0, i + 1) == b.subrange(0, i).push(b[i]));
        lemma_le_antisymmetric(a, b, i + 1);
    } else {
        assert(a == a.subrange(0, i));
        assert(b == b.subrange(0, i));
    }
}

/// The election has one outcome: two verdicts that the same votes elect name
/// the same code with the same count.
pub proof fn lemma_election_unique(
    codes: Seq<Seq<char>>,
    a: Option<LanguageVerdict>,
    b: Option<LanguageVerdict>,
)
    requires
        elects(codes, a),
        elects(codes, b),
    ensures
        a is None <==> b is None,
        a matches Some(x) ==> b matches Some(y) && x.code@ == y.code@ && x.lines == y.lines,
{
    if a is Some && b is Some {
        let x = a->Some_0;
        let y = b->Some_0;
        let i = choose|i: int| 0 <= i < codes.len() && codes[i] == x.code@;
        let j = choose|j: int| 0 <= j < codes.len() && codes[j] == y.code@;
        assert(ranks_over(codes, x.code@, codes[j]));
        assert(ranks_over(codes, y.code@, codes[i]));
        let ex = encode_utf8(x.code@);
        let ey = encode_utf8(y.code@);
        assert(ex.subrange(0, 0) == ey.subrange(0, 0));
        lemma_le_antisymmetric(ex, ey, 0);
        encode_utf8_decode_utf8(x.code@);
        encode_utf8_decode_utf8(y.code@);
    }
}

} // verus!
