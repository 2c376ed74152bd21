use vstd::prelude::*;

verus! {

/// The character sequences held by a sequence of strings.
pub open spec fn strings_view(v: Seq<String>) -> Seq<Seq<char>> {
    v.map_values(|s: String| s@)
}

/// The labels recorded so far, or none when the key is absent.
pub open spec fn labels_or_empty(a: Option<Seq<Seq<char>>>) -> Seq<Seq<char>> {
    match a {
        Some(l) => l,
        None => seq![],
    }
}

/// The annotation list after appending `labels`: appending nothing leaves an
/// absent list absent.
pub open spec fn with_labels(
    a: Option<Seq<Seq<char>>>,
    labels: Seq<Seq<char>>,
) -> Option<Seq<Seq<char>>> {
    if labels.len() == 0 {
        a
    } else {
        Some(labels_or_empty(a) + labels)
    }
}

/// The key/value pairs held by a list of fields.
pub open spec fn pairs_view(v: Seq<(String, String)>) -> Seq<(Seq<char>, Seq<char>)> {
    v.map_values(|p: (String, String)| (p.0@, p.1@))
}

/// The value under `key`: that of the first pair with this key, if any.
pub open spec fn lookup(pairs: Seq<(Seq<char>, Seq<char>)>, key: Seq<char>) -> Option<Seq<char>>
    decreases pairs.len(),
{
    if pairs.len() == 0 {
        None
    } else if pairs[0].0 == key {
        Some(pairs[0].1)
    } else {
        lookup(pairs.drop_first(), key)
    }
}

proof fn lemma_lookup_push(
    pairs: Seq<(Seq<char>, Seq<char>)>,
    key: Seq<char>,
    value: Seq<char>,
    k: Seq<char>,
)
    requires
        lookup(pairs, key) is None,
    ensures
        lookup(pairs.push((key, value)), k) == if k == key {
            Some(value)
        } else {
            lookup(pairs, k)
        },
    decreases pairs.len(),
{
    let pushed = pairs.push((key, value));
    if pairs.len() > 0 {
        assert(pushed[0] == pairs[0]);
        assert(pushed.drop_first() =~= pairs.drop_first().push((key, value)));
        lemma_lookup_push(pairs.drop_first(), key, value, k);
        assert(pairs[0].0 != key);
    } else {
        assert(pushed[0] == (key, value));
        assert(pushed.drop_first().len() == 0);
        assert(lookup(pushed.drop_first(), k) is None);
    }
}

proof fn lemma_lookup_replace(
    pairs: Seq<(Seq<char>, Seq<char>)>,
    i: int,
    value: Seq<char>,
    k: Seq<char>,
)
    requires
        0 <= i < pairs.len(),
        forall|j: int| 0 <= j < i ==> (#[trigger] pairs[j]).0 != pairs[i].0,
    ensures
        lookup(pairs.update(i, (pairs[i].0, value)), k) == if k == pairs[i].0 {
            Some(value)
        } else {
            lookup(pairs, k)
        },
    decreases i,
{
    let updated = pairs.update(i, (pairs[i].0, value));
    if i == 0 {
        assert(updated[0] == (pairs[0].0, value));
        assert(updated.drop_first() == pairs.drop_first());
    }
    if i > 0 {
        assert(updated[0] == pairs[0]);
        let rest = pairs.drop_first();
        assert(pairs.update(i, (pairs[i].0, value)).drop_first() == rest.update(
            i - 1,
            (rest[i - 1].0, value),
        ));
        assert forall|j: int| 0 <= j < i - 1 implies (#[trigger] rest[j]).0 != rest[i - 1].0 by {
            assert(rest[j] == pairs[j + 1]);
        }
        lemma_lookup_replace(rest, i - 1, value, k);
        assert(pairs[0].0 != pairs[i].0);
    }
}

/// A document's language: its code and the number of lines that voted for it.
#[derive(Clone, Debug)]
pub struct LanguageVerdict {
    pub code: String,
    pub lines: u64,
}

/// What the pipeline learns about a document.
#[derive(Clone, Debug)]
pub struct Metadata {
    /// Structural labels, in the order they were appended.
    pub annotation: Option<Vec<String>>,
    /// The language the document was assigned, if any line was classified.
    pub language: Option<LanguageVerdict>,
    /// Key/value fields that annotators may set; a key holds one value.
    pub fields: Vec<(String, String)>,
}

impl Metadata {
    pub open spec fn annotation_view(&self) -> Option<Seq<Seq<char>>> {
        match self.annotation {
            Some(v) => Some(strings_view(v@)),
            None => None,
        }
    }

    /// Appends one label, creating the list if it was absent.
    pub fn set_annotation(&mut self, label: String)
        ensures
            final(self).annotation_view() == with_labels(old(self).annotation_view(), seq![label@]),
            final(self).language == old(self).language,
            final(self).fields == old(self).fields,
    {
        match &mut self.annotation {
            Some(v) => {
                let ghost before = v@;
                v.push(label);
                assert(strings_view(v@) == strings_view(before).push(label@));
            },
            None => {
                let v = vec![label];
                assert(strings_view(v@) == seq![label@]);
                self.annotation = Some(v);
            },
        }
    }

    /// The labels appended so far, or `None` when none ever was.
    pub fn annotation(&self) -> (r: Option<&Vec<String>>)
        ensures
            match r {
                Some(v) => self.annotation == Some(*v),
                None => self.annotation is None,
            },
    {
        match &self.annotation {
            Some(v) => Some(v),
            None => None,
        }
    }

    /// Records the document's language.
    pub fn set_language(&mut self, verdict: Option<LanguageVerdict>)
        ensures
            final(self).language == verdict,
            final(self).annotation == old(self).annotation,
            final(self).fields == old(self).fields,
    {
        self.language = verdict;
    }

    /// Sets the field `key` to `value`, replacing the value it held.
    pub fn set_field(&mut self, key: String, value: String)
        ensures
            forall|k: Seq<char>|
                #![auto]
                lookup(pairs_view(final(self).fields@), k) == if k == key@ {
                    Some(value@)
                } else {
                    lookup(pairs_view(old(self).fields@), k)
                },
            final(self).annotation == old(self).annotation,
            final(self).language == old(self).language,
    {
        let ghost before = pairs_view(self.fields@);
        assert(before.subrange(0, before.len() as int) == before);
        let mut i: usize = 0;
        while i < self.fields.len()
            invariant
                i <= self.fields.len(),
                before == pairs_view(self.fields@),
                before == pairs_view(old(self).fields@),
                self.annotation == old(self).annotation,
                self.language == old(self).language,
                forall|j: int| 0 <= j < i ==> (#[trigger] before[j]).0 != key@,
                lookup(before, key@) == lookup(before.subrange(i as int, before.len() as int), key@),
            decreases self.fields.len() - i,
        {
            let ghost rest = before.subrange(i as int, before.len() as int);
            if self.fields[i].0 == key {
                let ghost kv = key@;
                let ghost vv = value@;
                assert(before[i as int].0 == kv);
                self.fields.set(i, (key, value));
                proof {
                    assert(pairs_view(self.fields@) == before.update(i as int, (before[i as int].0, vv)));
                    assert forall|k: Seq<char>| #![auto]
                        lookup(pairs_view(self.fields@), k) == if k == kv {
                            Some(vv)
                        } else {
                            lookup(before, k)
                        } by {
                        lemma_lookup_replace(before, i as int, vv, k);
                    }
                }
                return;
            }
            assert(rest.drop_first() == before.subrange(i + 1, before.len() as int));
            i = i + 1;
        }
        let ghost kv = key@;
        let ghost vv = value@;
        self.fields.push((key, value));
        proof {
            assert(before.subrange(i as int, before.len() as int).len() == 0);
            assert(pairs_view(self.fields@) == before.push((kv, vv)));
            assert forall|k: Seq<char>| #![auto]
                lookup(pairs_view(self.fields@), k) == if k == kv {
                    Some(vv)
                } else {
                    lookup(before, k)
                } by {
                lemma_lookup_push(before, kv, vv, k);
            }
        }
    }

    /// The value of the field `key`, if it is set.
    pub fn field(&self, key: &String) -> (r: Option<&String>)
        ensures
            match r {
                Some(v) => lookup(pairs_view(self.fields@), key@) == Some(v@),
                None => lookup(pairs_view(self.fields@), key@) is None,
            },
    {
        let ghost all = pairs_view(self.fields@);
        assert(all.subrange(0, all.len() as int) == all);
        let mut i: usize = 0;
        while i < self.fields.len()
            invariant
                i <= self.fields.len(),
                all == pairs_view(self.fields@),
                lookup(all, key@) == lookup(all.subrange(i as int, all.len() as int), key@),
            decreases self.fields.len() - i,
        {
            let ghost rest = all.subrange(i as int, all.len() as int);
            assert(rest[0] == all[i as int]);
            if self.fields[i].0 == *key {
                return Some(&self.fields[i].1);
            }
            assert(rest.drop_first() == all.subrange(i + 1, all.len() as int));
            i = i + 1;
        }
        None
    }
}

impl Default for Metadata {
    fn default() -> (r: Self)
        ensures
            r.annotation is None,
            r.language is None,
            r.fields@.len() == 0,
    {
        Metadata { annotation: None, language: None, fields: Vec::new() }
    }
}

/// A crawled page: its text, the attributes of the record it came from, and
/// what the pipeline learned about it. The text never changes once built.
pub struct Document {
    content: String,
    warc_headers: Vec<(String, String)>,
    metadata: Metadata,
}

impl Document {
    pub closed spec fn content_view(&self) -> Seq<char> {
        self.content@
    }

    pub closed spec fn headers_view(&self) -> Seq<(String, String)> {
        self.warc_headers@
    }

    pub closed spec fn metadata_view(&self) -> Metadata {
        self.metadata
    }

    pub fn new(content: String, warc_headers: Vec<(String, String)>, metadata: Metadata) -> (r: Self)
        ensures
            r.content_view() == content@,
            r.headers_view() == warc_headers@,
            r.metadata_view() == metadata,
    {
        Document { content, warc_headers, metadata }
    }

    pub fn content(&self) -> (r: &str)
        ensures
            r@ == self.content_view(),
    {
        self.content.as_str()
    }

    pub fn warc_headers(&self) -> (r: &Vec<(String, String)>)
        ensures
            r@ == self.headers_view(),
    {
        &self.warc_headers
    }

    pub fn metadata(&self) -> (r: &Metadata)
        ensures
            *r == self.metadata_view(),
    {
        &self.metadata
    }

    /// Appends one label to the document's annotations.
    pub fn set_annotation(&mut self, label: String)
        ensures
            final(self).content_view() == old(self).content_view(),
            final(self).headers_view() == old(self).headers_view(),
            final(self).metadata_view().annotation_view() == with_labels(
                old(self).metadata_view().annotation_view(),
                seq![label@],
            ),
            final(self).metadata_view().language == old(self).metadata_view().language,
    {
        self.metadata.set_annotation(label);
    }

    /// Sets a key/value field of the document's metadata.
    pub fn set_field(&mut self, key: String, value: String)
        ensures
            final(self).content_view() == old(self).content_view(),
            final(self).headers_view() == old(self).headers_view(),
            forall|k: Seq<char>|
                #![auto]
                lookup(pairs_view(final(self).metadata_view().fields@), k) == if k == key@ {
                    Some(value@)
                } else {
                    lookup(pairs_view(old(self).metadata_view().fields@), k)
                },
            final(self).metadata_view().annotation == old(self).metadata_view().annotation,
            final(self).metadata_view().language == old(self).metadata_view().language,
    {
        self.metadata.set_field(key, value);
    }

    /// Records the document's language.
    pub fn set_language(&mut self, verdict: Option<LanguageVerdict>)
        ensures
            final(self).content_view() == old(self).content_view(),
            final(self).headers_view() == old(self).headers_view(),
            final(self).metadata_view().language == verdict,
            final(self).metadata_view().annotation == old(self).metadata_view().annotation,
    {
        self.metadata.set_language(verdict);
    }
}

} // verus!
