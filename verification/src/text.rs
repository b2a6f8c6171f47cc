//! Character sequences: conversion to and from strings, and splitting on a
//! separator.
//!
//! The file format is defined over sequences of characters. Executable code
//! holds the characters of a file in one `Vec<char>` and refers to parts of it
//! by [`Span`], so that cutting a file into lines copies nothing.
use vstd::prelude::*;
use vstd::utf8::*;

verus! {

/// `String::push` appends one character.
pub assume_specification[ std::string::String::push ](s: &mut std::string::String, c: char)
    ensures
        final(s)@ == old(s)@.push(c),
;

/// `String::push_str` appends a text.
pub assume_specification[ std::string::String::push_str ](
    s: &mut std::string::String,
    text: &str,
)
    ensures
        final(s)@ == old(s)@ + text@,
;

/// `std::str::from_utf8`, with the error dropped: the bytes are accepted
/// exactly when they are well-formed UTF-8, and the text is their decoding.
#[verifier::external_body]
pub(crate) fn utf8_text(bytes: &[u8]) -> (r: Option<&str>)
    ensures
        r is Some <==> valid_utf8(bytes@),
        r matches Some(s) ==> s@ == decode_utf8(bytes@),
{
    std::str::from_utf8(bytes).ok()
}

/// `s` as std's `{:?}` writes a text: between double quotes, with the
/// characters that cannot stand there as they are (a quote, a backslash, a
/// line feed and the like) written as escapes.
pub uninterp spec fn quoted(s: Seq<char>) -> Seq<char>;

/// `<str as Debug>::fmt`, through `format!`: the text between double quotes,
/// escaped as std escapes it.
#[verifier::external_body]
pub(crate) fn quote(s: &str) -> (r: String)
    ensures
        r@ == quoted(s@),
{
    format!("{:?}", s)
}

/// A half-open range `start..end` of positions in a character vector.
#[derive(Clone, Copy, Debug, PartialEq, Eq, Structural)]
pub struct Span {
    pub start: usize,
    pub end: usize,
}

impl Span {
    /// The characters of `s` that the span covers.
    pub open spec fn of(self, s: Seq<char>) -> Seq<char> {
        s.subrange(self.start as int, self.end as int)
    }

    /// The span lies inside `from..to`.
    pub open spec fn within(self, from: int, to: int) -> bool {
        from <= self.start <= self.end <= to
    }
}

/// `s` holds the character `c`.
pub open spec fn has_char(s: Seq<char>, c: char) -> bool {
    exists|i: int| 0 <= i < s.len() && s[i] == c
}

/// The pieces of `s` between occurrences of `sep`. There is always at least
/// one piece; `n` separators give `n + 1` pieces, some of them possibly empty.
pub open spec fn split(s: Seq<char>, sep: char) -> Seq<Seq<char>>
    decreases s.len(),
{
    if s.len() == 0 {
        seq![Seq::<char>::empty()]
    } else {
        let pieces = split(s.drop_last(), sep);
        if s.last() == sep {
            pieces.push(Seq::<char>::empty())
        } else {
            pieces.update(pieces.len() - 1, pieces.last().push(s.last()))
        }
    }
}

/// `pieces` put together again, with `sep` between neighbours.
pub open spec fn join(pieces: Seq<Seq<char>>, sep: char) -> Seq<char>
    decreases pieces.len(),
{
    if pieces.len() == 0 {
        Seq::<char>::empty()
    } else if pieces.len() == 1 {
        pieces[0]
    } else {
        join(pieces.drop_last(), sep).push(sep) + pieces.last()
    }
}

/// `s` without any occurrence of `c`.
pub open spec fn without(s: Seq<char>, c: char) -> Seq<char>
    decreases s.len(),
{
    if s.len() == 0 {
        s
    } else if s.last() == c {
        without(s.drop_last(), c)
    } else {
        without(s.drop_last(), c).push(s.last())
    }
}

/// Splitting never yields an empty list of pieces.
pub proof fn lemma_split_nonempty(s: Seq<char>, sep: char)
    ensures
        split(s, sep).len() >= 1,
    decreases s.len(),
{
    if s.len() > 0 {
        lemma_split_nonempty(s.drop_last(), sep);
    }
}

/// Splitting cuts at every separator and nowhere else: no piece holds the
/// separator, and joining the pieces gives the text back.
pub proof fn lemma_split_join(s: Seq<char>, sep: char)
    ensures
        join(split(s, sep), sep) == s,
        forall|k: int| 0 <= k < split(s, sep).len() ==> !has_char(#[trigger] split(s, sep)[k], sep),
    decreases s.len(),
{
    lemma_split_nonempty(s, sep);
    if s.len() == 0 {
        assert(join(split(s, sep), sep) =~= s);
    } else {
        let t = s.drop_last();
        let pieces = split(t, sep);
        lemma_split_join(t, sep);
        lemma_split_nonempty(t, sep);
        if s.last() == sep {
            let out = pieces.push(Seq::<char>::empty());
            assert(out.drop_last() =~= pieces);
            assert(join(out, sep) =~= t.push(sep));
            assert(t.push(sep) =~= s);
        } else {
            let n = pieces.len() - 1;
            let out = pieces.update(n, pieces.last().push(s.last()));
            if pieces.len() == 1 {
                assert(pieces[0] == t);
                assert(join(out, sep) =~= s);
            } else {
                assert(out.drop_last() =~= pieces.drop_last());
                assert(join(out, sep) =~= (join(pieces.drop_last(), sep).push(sep) + pieces.last()).push(
                    s.last(),
                ));
                assert(t.push(s.last()) =~= s);
            }
            assert forall|k: int| 0 <= k < out.len() implies !has_char(#[trigger] out[k], sep) by {
                if k == n {
                    assert(!has_char(pieces[n], sep));
                    if has_char(out[k], sep) {
                        let i = choose|i: int| 0 <= i < out[k].len() && out[k][i] == sep;
                        assert(i < pieces[n].len());
                        assert(pieces[n][i] == sep);
                    }
                } else {
                    assert(out[k] == pieces[k]);
                }
            }
        }
    }
}

/// A text without the separator is a single piece.
pub proof fn lemma_split_one(s: Seq<char>, sep: char)
    requires
        !has_char(s, sep),
    ensures
        split(s, sep) == seq![s],
    decreases s.len(),
{
    if s.len() == 0 {
        assert(s =~= Seq::<char>::empty());
    } else {
        let t = s.drop_last();
        assert(!has_char(t, sep)) by {
            if has_char(t, sep) {
                let i = choose|i: int| 0 <= i < t.len() && t[i] == sep;
                assert(s[i] == sep);
            }
        }
        lemma_split_one(t, sep);
        assert(s.last() != sep) by {
            assert(s[s.len() - 1] == s.last());
        }
        assert(t.push(s.last()) =~= s);
        assert(split(s, sep) =~= seq![s]);
    }
}

/// Splitting a text that continues, after a separator, with a piece `b` free
/// of the separator: the pieces of the first part, then `b`.
pub proof fn lemma_split_push_piece(a: Seq<char>, b: Seq<char>, sep: char)
    requires
        !has_char(b, sep),
    ensures
        split(a.push(sep) + b, sep) == split(a, sep).push(b),
    decreases b.len(),
{
    if b.len() == 0 {
        assert(a.push(sep) + b =~= a.push(sep));
        assert(a.push(sep).drop_last() =~= a);
        assert(b =~= Seq::<char>::empty());
    } else {
        let t = b.drop_last();
        assert(!has_char(t, sep)) by {
            if has_char(t, sep) {
                let i = choose|i: int| 0 <= i < t.len() && t[i] == sep;
                assert(b[i] == sep);
            }
        }
        lemma_split_push_piece(a, t, sep);
        let whole = a.push(sep) + b;
        assert(whole.drop_last() =~= a.push(sep) + t);
        assert(whole.last() == b.last());
        assert(b.last() != sep) by {
            assert(b[b.len() - 1] == b.last());
        }
        assert(t.push(b.last()) =~= b);
        lemma_split_nonempty(a, sep);
        assert(split(whole, sep) =~= split(a, sep).push(b));
    }
}

/// Where `name` first stands in `names`, if it is there.
pub open spec fn first_index(names: Seq<Seq<char>>, name: Seq<char>) -> Option<int>
    decreases names.len(),
{
    if names.len() == 0 {
        None
    } else {
        match first_index(names.drop_last(), name) {
            Some(i) => Some(i),
            None => if names.last() == name {
                Some(names.len() - 1)
            } else {
                None
            },
        }
    }
}

/// `first_index` finds the first place of the name and misses none.
pub proof fn lemma_first_index(names: Seq<Seq<char>>, name: Seq<char>)
    ensures
        match first_index(names, name) {
            Some(i) => 0 <= i < names.len() && names[i] == name && forall|j: int|
                0 <= j < i ==> #[trigger] names[j] != name,
            None => forall|j: int| 0 <= j < names.len() ==> #[trigger] names[j] != name,
        },
    decreases names.len(),
{
    if names.len() > 0 {
        lemma_first_index(names.drop_last(), name);
        match first_index(names.drop_last(), name) {
            Some(i) => {
                assert(names.drop_last()[i] == names[i]);
                assert forall|j: int| 0 <= j < i implies #[trigger] names[j] != name by {
                    assert(names.drop_last()[j] == names[j]);
                }
            },
            None => {
                assert forall|j: int| 0 <= j < names.len() - 1 implies #[trigger] names[j]
                    != name by {
                    assert(names.drop_last()[j] == names[j]);
                }
            },
        }
    }
}

/// The first place of a name is the one place that holds it and has no
/// earlier place holding it.
pub proof fn lemma_first_index_is(names: Seq<Seq<char>>, name: Seq<char>, i: int)
    requires
        0 <= i < names.len(),
        names[i] == name,
        forall|j: int| 0 <= j < i ==> #[trigger] names[j] != name,
    ensures
        first_index(names, name) == Some(i),
{
    lemma_first_index(names, name);
}

/// A name that stands nowhere has no first place.
pub proof fn lemma_first_index_none(names: Seq<Seq<char>>, name: Seq<char>)
    requires
        forall|j: int| 0 <= j < names.len() ==> #[trigger] names[j] != name,
    ensures
        first_index(names, name) is None,
{
    lemma_first_index(names, name);
}

/// The characters of `s`, in order.
pub fn to_chars(s: &str) -> (v: Vec<char>)
    ensures
        v@ == s@,
{
    let mut v: Vec<char> = Vec::new();
    for c in it: s.chars()
        invariant
            v@ == it.history(),
            it.seq() == s@,
    {
        v.push(c);
    }
    assert(v@ =~= s@);
    v
}

/// The string made of the characters that `span` covers.
pub fn to_text(v: &Vec<char>, span: Span) -> (s: String)
    requires
        span.within(0, v.len() as int),
    ensures
        s@ == span.of(v@),
{
    let mut s = String::new();
    let mut i: usize = span.start;
    while i < span.end
        invariant
            span.start <= i <= span.end <= v.len(),
            s@ == v@.subrange(span.start as int, i as int),
        decreases span.end - i,
    {
        s.push(v[i]);
        i += 1;
        assert(v@.subrange(span.start as int, i as int) =~= v@.subrange(
            span.start as int,
            i - 1,
        ).push(v@[i - 1]));
    }
    s
}

/// Cuts the part `from..to` of `v` at every `sep`.
pub fn split_spans(v: &Vec<char>, from: usize, to: usize, sep: char) -> (spans: Vec<Span>)
    requires
        from <= to <= v.len(),
    ensures
        spans.len() == split(v@.subrange(from as int, to as int), sep).len(),
        forall|k: int|
            0 <= k < spans.len() ==> (#[trigger] spans[k]).within(from as int, to as int)
                && spans[k].of(v@) == split(v@.subrange(from as int, to as int), sep)[k],
        spans[0].start == from,
        spans[spans.len() - 1].end == to,
        forall|k: int| 0 <= k < spans.len() - 1 ==> (#[trigger] spans[k]).end + 1 == spans[k + 1].start,
{
    let mut spans: Vec<Span> = Vec::new();
    let mut start: usize = from;
    let mut i: usize = from;
    proof {
        lemma_split_nonempty(v@.subrange(from as int, i as int), sep);
        assert(v@.subrange(from as int, i as int) =~= Seq::<char>::empty());
        assert(v@.subrange(start as int, i as int) =~= Seq::<char>::empty());
    }
    while i < to
        invariant
            from <= start <= i <= to <= v.len(),
            spans.len() + 1 == split(v@.subrange(from as int, i as int), sep).len(),
            forall|k: int|
                0 <= k < spans.len() ==> (#[trigger] spans[k]).within(from as int, to as int)
                    && spans[k].of(v@) == split(v@.subrange(from as int, i as int), sep)[k],
            v@.subrange(start as int, i as int) == split(
                v@.subrange(from as int, i as int),
                sep,
            ).last(),
            spans.len() == 0 ==> start == from,
            spans.len() > 0 ==> spans[0].start == from && spans[spans.len() - 1].end + 1 == start,
            forall|k: int|
                0 <= k < spans.len() - 1 ==> (#[trigger] spans[k]).end + 1 == spans[k + 1].start,
        decreases to - i,
    {
        let ghost before = v@.subrange(from as int, i as int);
        let ghost after = v@.subrange(from as int, i + 1);
        proof {
            assert(after.drop_last() =~= before);
            assert(after.last() == v@[i as int]);
            lemma_split_nonempty(before, sep);
        }
        if v[i] == sep {
            spans.push(Span { start, end: i });
            start = i + 1;
            proof {
                assert(v@.subrange(start as int, i + 1) =~= Seq::<char>::empty());
            }
        } else {
            proof {
                assert(v@.subrange(start as int, i + 1) =~= v@.subrange(start as int, i as int).push(
                    v@[i as int],
                ));
            }
        }
        i += 1;
    }
    spans.push(Span { start, end: to });
    spans
}

/// The characters that `span` covers, except every `c`.
pub fn chars_without(v: &Vec<char>, span: Span, c: char) -> (r: Vec<char>)
    requires
        span.within(0, v.len() as int),
    ensures
        r@ == without(span.of(v@), c),
{
    let mut r: Vec<char> = Vec::new();
    let mut i: usize = span.start;
    proof {
        assert(v@.subrange(span.start as int, i as int) =~= Seq::<char>::empty());
    }
    while i < span.end
        invariant
            span.start <= i <= span.end <= v.len(),
            r@ == without(v@.subrange(span.start as int, i as int), c),
        decreases span.end - i,
    {
        proof {
            let next = v@.subrange(span.start as int, i + 1);
            assert(next.drop_last() =~= v@.subrange(span.start as int, i as int));
            assert(next.last() == v@[i as int]);
        }
        if v[i] != c {
            r.push(v[i]);
        }
        i += 1;
    }
    r
}

/// Whether `s` holds the character `c`.
pub fn contains_char(s: &str, c: char) -> (b: bool)
    ensures
        b == has_char(s@, c),
{
    let mut found = false;
    let ghost mut seen: Seq<char> = Seq::empty();
    for x in it: s.chars()
        invariant
            it.seq() == s@,
            seen == it.history(),
            found == has_char(seen, c),
    {
        let ghost before = seen;
        if x == c {
            found = true;
        }
        proof {
            seen = seen.push(x);
            if has_char(before, c) {
                let i = choose|i: int| 0 <= i < before.len() && before[i] == c;
                assert(seen[i] == c);
            }
            if x == c {
                assert(seen[before.len() as int] == c);
            }
            if has_char(seen, c) && x != c {
                let i = choose|i: int| 0 <= i < seen.len() && seen[i] == c;
                assert(before[i] == c);
            }
        }
    }
    assert(seen =~= s@);
    found
}

/// Whether the characters that `span` covers are those of `text`.
pub fn span_is(v: &Vec<char>, span: Span, text: &Vec<char>) -> (b: bool)
    requires
        span.within(0, v.len() as int),
    ensures
        b == (span.of(v@) == text@),
{
    if span.end - span.start != text.len() {
        return false;
    }
    let mut i: usize = 0;
    while i < text.len()
        invariant
            span.within(0, v.len() as int),
            span.end - span.start == text.len(),
            i <= text.len(),
            forall|k: int| 0 <= k < i ==> span.of(v@)[k] == text@[k],
        decreases text.len() - i,
    {
        if v[span.start + i] != text[i] {
            assert(span.of(v@)[i as int] != text@[i as int]);
            return false;
        }
        i += 1;
    }
    assert(span.of(v@) =~= text@);
    true
}

} // verus!
