//! Text as a sequence of characters: reading a string's characters, trimming
//! white space, and splitting at a separator.

use vstd::prelude::*;
use vstd::std_specs::iter::IteratorSpec;

verus! {

/// A span of a text: the index of its first character and the index behind
/// its last one.
#[derive(Clone, Copy, Debug, PartialEq, Eq, Structural)]
pub struct Span {
    pub start: usize,
    pub end: usize,
}

impl Span {
    /// Whether the span lies inside a text of `len` characters.
    pub open spec fn fits(self, len: nat) -> bool {
        self.start <= self.end <= len
    }

    /// The characters of `s` that the span covers.
    pub open spec fn of(self, s: Seq<char>) -> Seq<char> {
        s.subrange(self.start as int, self.end as int)
    }
}

/// Whether a character is white space: one of the code points that Unicode
/// gives the property `White_Space`.
pub open spec fn is_whitespace(c: char) -> bool {
    let n = c as u32;
    ||| 0x09 <= n <= 0x0D
    ||| n == 0x20
    ||| n == 0x85
    ||| n == 0xA0
    ||| n == 0x1680
    ||| 0x2000 <= n <= 0x200A
    ||| n == 0x2028
    ||| n == 0x2029
    ||| n == 0x202F
    ||| n == 0x205F
    ||| n == 0x3000
}

/// How many white-space characters `s` begins with.
pub open spec fn leading_whitespace(s: Seq<char>) -> nat
    decreases s.len(),
{
    if s.len() > 0 && is_whitespace(s[0]) {
        1 + leading_whitespace(s.drop_first())
    } else {
        0
    }
}

/// How many white-space characters `s` ends with.
pub open spec fn trailing_whitespace(s: Seq<char>) -> nat
    decreases s.len(),
{
    if s.len() > 0 && is_whitespace(s.last()) {
        1 + trailing_whitespace(s.drop_last())
    } else {
        0
    }
}

/// `s` without the white space at its start.
pub open spec fn trim_start(s: Seq<char>) -> Seq<char> {
    s.skip(leading_whitespace(s) as int)
}

/// `s` without the white space at its end.
pub open spec fn trim_end(s: Seq<char>) -> Seq<char> {
    s.take(s.len() - trailing_whitespace(s))
}

/// `s` without the white space at its start and at its end.
pub open spec fn trim(s: Seq<char>) -> Seq<char> {
    trim_end(trim_start(s))
}

/// The index of the first `sep` in `s`, or the length of `s` if there is
/// none.
pub open spec fn first_index(s: Seq<char>, sep: char) -> nat
    decreases s.len(),
{
    if s.len() == 0 || s[0] == sep {
        0
    } else {
        1 + first_index(s.drop_first(), sep)
    }
}

/// The fields of `s` between the occurrences of `sep`, in order. A text
/// without `sep` is one field, the empty text too; two separators side by
/// side have an empty field between them.
pub open spec fn split(s: Seq<char>, sep: char) -> Seq<Seq<char>>
    decreases s.len(),
{
    let k = first_index(s, sep) as int;
    if k >= s.len() {
        seq![s]
    } else {
        seq![s.take(k)] + split(s.skip(k + 1), sep)
    }
}

/// Whether `spans` mark in `s`, one for one, the texts `fields`.
pub open spec fn spans_cover(s: Seq<char>, spans: Seq<Span>, fields: Seq<Seq<char>>) -> bool {
    &&& spans.len() == fields.len()
    &&& forall|k: int|
        0 <= k < spans.len() ==> (#[trigger] spans[k]).fits(s.len()) && spans[k].of(s)
            == fields[k]
}

/// What [`trim`] does: it takes exactly the white space at the start of
/// `s` and at the end of what is left, and nothing from between.
pub proof fn lemma_trim_strips(s: Seq<char>)
    ensures
        leading_whitespace(s) <= s.len(),
        trailing_whitespace(trim_start(s)) <= s.len() - leading_whitespace(s),
        trim(s) == s.subrange(
            leading_whitespace(s) as int,
            s.len() - trailing_whitespace(trim_start(s)),
        ),
        forall|i: int| 0 <= i < leading_whitespace(s) ==> is_whitespace(s[i]),
        forall|i: int|
            s.len() - trailing_whitespace(trim_start(s)) <= i < s.len() ==> is_whitespace(s[i]),
        trim(s).len() > 0 ==> !is_whitespace(trim(s)[0]) && !is_whitespace(trim(s).last()),
        trim(trim(s)) == trim(s),
{
    let start = trim_start(s);
    let t = trim(s);
    lemma_leading_whitespace(s);
    lemma_trailing_whitespace(start);
    assert(t =~= s.subrange(
        leading_whitespace(s) as int,
        s.len() - trailing_whitespace(start),
    ));
    assert forall|i: int| s.len() - trailing_whitespace(start) <= i < s.len() implies is_whitespace(
        s[i],
    ) by {
        assert(s[i] == start[i - leading_whitespace(s)]);
    }
    if t.len() > 0 {
        assert(t[0] == start[0]);
        assert(t.last() == start[start.len() - trailing_whitespace(start) - 1]);
        lemma_leading_whitespace_is(t, 0);
        lemma_trailing_whitespace_is(t, 0);
        assert(trim_start(t) =~= t);
        assert(trim_end(t) =~= t);
    } else {
        assert(trim_start(t) =~= t);
        assert(trim_end(t) =~= t);
    }
}

/// The white space counted at the start of `s` is white space, and the
/// character behind it is none.
pub proof fn lemma_leading_whitespace(s: Seq<char>)
    ensures
        leading_whitespace(s) <= s.len(),
        forall|i: int| 0 <= i < leading_whitespace(s) ==> is_whitespace(s[i]),
        leading_whitespace(s) < s.len() ==> !is_whitespace(s[leading_whitespace(s) as int]),
    decreases s.len(),
{
    if s.len() > 0 && is_whitespace(s[0]) {
        let rest = s.drop_first();
        lemma_leading_whitespace(rest);
        assert forall|i: int| 0 <= i < leading_whitespace(s) implies is_whitespace(s[i]) by {
            if i > 0 {
                assert(s[i] == rest[i - 1]);
            }
        }
        if leading_whitespace(s) < s.len() {
            assert(s[leading_whitespace(s) as int] == rest[leading_whitespace(rest) as int]);
        }
    }
}

/// The white space counted at the end of `s` is white space, and the
/// character before it is none.
pub proof fn lemma_trailing_whitespace(s: Seq<char>)
    ensures
        trailing_whitespace(s) <= s.len(),
        forall|i: int| s.len() - trailing_whitespace(s) <= i < s.len() ==> is_whitespace(s[i]),
        trailing_whitespace(s) < s.len() ==> !is_whitespace(
            s[s.len() - trailing_whitespace(s) - 1],
        ),
    decreases s.len(),
{
    if s.len() > 0 && is_whitespace(s.last()) {
        let rest = s.drop_last();
        lemma_trailing_whitespace(rest);
        assert forall|i: int| s.len() - trailing_whitespace(s) <= i < s.len() implies is_whitespace(
            s[i],
        ) by {
            if i < s.len() - 1 {
                assert(s[i] == rest[i]);
            }
        }
        if trailing_whitespace(s) < s.len() {
            assert(s[s.len() - trailing_whitespace(s) - 1] == rest[rest.len() - trailing_whitespace(
                rest,
            ) - 1]);
        }
    }
}

/// The white space at the start of `s` ends at the first character that is
/// none.
pub proof fn lemma_leading_whitespace_is(s: Seq<char>, k: int)
    requires
        0 <= k <= s.len(),
        forall|i: int| 0 <= i < k ==> is_whitespace(s[i]),
        k == s.len() || !is_whitespace(s[k]),
    ensures
        leading_whitespace(s) == k,
    decreases k,
{
    if k > 0 {
        let rest = s.drop_first();
        assert forall|i: int| 0 <= i < k - 1 implies is_whitespace(rest[i]) by {
            assert(rest[i] == s[i + 1]);
        }
        lemma_leading_whitespace_is(rest, k - 1);
    }
}

/// The white space at the end of `s` begins behind the last character that
/// is none.
pub proof fn lemma_trailing_whitespace_is(s: Seq<char>, k: int)
    requires
        0 <= k <= s.len(),
        forall|i: int| s.len() - k <= i < s.len() ==> is_whitespace(s[i]),
        k == s.len() || !is_whitespace(s[s.len() - k - 1]),
    ensures
        trailing_whitespace(s) == k,
    decreases k,
{
    if k > 0 {
        let rest = s.drop_last();
        assert forall|i: int| rest.len() - (k - 1) <= i < rest.len() implies is_whitespace(
            rest[i],
        ) by {
            assert(rest[i] == s[i]);
        }
        lemma_trailing_whitespace_is(rest, k - 1);
    }
}

/// The first separator stands where no earlier character is one.
pub proof fn lemma_first_index_is(s: Seq<char>, sep: char, k: int)
    requires
        0 <= k <= s.len(),
        forall|i: int| 0 <= i < k ==> s[i] != sep,
        k == s.len() || s[k] == sep,
    ensures
        first_index(s, sep) == k,
    decreases k,
{
    if k > 0 {
        let rest = s.drop_first();
        assert forall|i: int| 0 <= i < k - 1 implies rest[i] != sep by {
            assert(rest[i] == s[i + 1]);
        }
        lemma_first_index_is(rest, sep, k - 1);
    }
}

/// A text has at least one field, and no field holds the separator.
pub proof fn lemma_split_fields(s: Seq<char>, sep: char)
    ensures
        split(s, sep).len() >= 1,
        forall|k: int, i: int|
            0 <= k < split(s, sep).len() && 0 <= i < split(s, sep)[k].len() ==> split(
                s,
                sep,
            )[k][i] != sep,
    decreases s.len(),
{
    let k = first_index(s, sep) as int;
    lemma_first_index_free(s, sep);
    if k < s.len() {
        lemma_split_fields(s.skip(k + 1), sep);
    }
}

/// No separator stands before the first one, which lies inside the text or
/// at its end.
pub proof fn lemma_first_index_free(s: Seq<char>, sep: char)
    ensures
        first_index(s, sep) <= s.len(),
        forall|i: int| 0 <= i < first_index(s, sep) ==> s[i] != sep,
        first_index(s, sep) < s.len() ==> s[first_index(s, sep) as int] == sep,
    decreases s.len(),
{
    if !(s.len() == 0 || s[0] == sep) {
        let rest = s.drop_first();
        lemma_first_index_free(rest, sep);
        assert forall|i: int| 0 <= i < first_index(s, sep) implies s[i] != sep by {
            if i > 0 {
                assert(rest[i - 1] == s[i]);
            }
        }
    }
}

/// Decides [`is_whitespace`].
pub fn char_is_whitespace(c: char) -> (r: bool)
    ensures
        r == is_whitespace(c),
{
    let n: u32 = c as u32;
    (0x09 <= n && n <= 0x0D) || n == 0x20 || n == 0x85 || n == 0xA0 || n == 0x1680 || (0x2000
        <= n && n <= 0x200A) || n == 0x2028 || n == 0x2029 || n == 0x202F || n == 0x205F || n
        == 0x3000
}

/// The characters of a string, in order.
pub fn chars_of(s: &str) -> (v: Vec<char>)
    ensures
        v@ == s@,
{
    broadcast use vstd::string::group_string_axioms;

    let mut v: Vec<char> = Vec::new();
    let mut it = s.chars();
    loop
        invariant
            it.obeys_prophetic_iter_laws(),
            it.decrease() is Some,
            v@ + it.remaining() == s@,
        decreases it.decrease()->0,
    {
        match it.next() {
            Some(c) => {
                v.push(c);
                assert(v@ + it.remaining() =~= s@);
            },
            None => {
                assert(v@ =~= s@);
                return v;
            },
        }
    }
}

/// Trims the part of `s` that `span` covers: the result covers what
/// [`trim`] leaves of it.
pub fn trim_span(s: &Vec<char>, span: Span) -> (r: Span)
    requires
        span.fits(s@.len()),
    ensures
        r.fits(s@.len()),
        span.start <= r.start,
        r.end <= span.end,
        r.of(s@) == trim(span.of(s@)),
{
    let ghost whole = span.of(s@);
    let mut start: usize = span.start;
    while start < span.end && char_is_whitespace(s[start])
        invariant
            span.fits(s@.len()),
            span.start <= start <= span.end,
            forall|i: int| span.start <= i < start ==> is_whitespace(s@[i]),
        decreases span.end - start,
    {
        start += 1;
    }
    proof {
        assert forall|i: int| 0 <= i < start - span.start implies is_whitespace(whole[i]) by {
            assert(whole[i] == s@[span.start + i]);
        }
        lemma_leading_whitespace_is(whole, start - span.start);
    }
    let ghost rest = trim_start(whole);
    assert(rest =~= s@.subrange(start as int, span.end as int));
    let mut end: usize = span.end;
    while start < end && char_is_whitespace(s[end - 1])
        invariant
            span.fits(s@.len()),
            start <= end <= span.end,
            forall|i: int| end <= i < span.end ==> is_whitespace(s@[i]),
        decreases end - start,
    {
        end -= 1;
    }
    proof {
        assert forall|i: int| rest.len() - (span.end - end) <= i < rest.len() implies is_whitespace(
            rest[i],
        ) by {
            assert(rest[i] == s@[start + i]);
        }
        lemma_trailing_whitespace_is(rest, span.end - end);
        assert(trim_end(rest) =~= s@.subrange(start as int, end as int));
    }
    Span { start, end }
}

/// Splits the part of `s` that `span` covers at each `sep`: the result
/// marks, in order, the fields that [`split`] gives.
pub fn split_span(s: &Vec<char>, span: Span, sep: char) -> (r: Vec<Span>)
    requires
        span.fits(s@.len()),
    ensures
        spans_cover(s@, r@, split(span.of(s@), sep)),
        r@.len() >= 1,
        forall|k: int|
            0 <= k < r@.len() ==> span.start <= (#[trigger] r@[k]).start && r@[k].end
                <= span.end,
{
    let ghost whole = span.of(s@);
    let mut out: Vec<Span> = Vec::new();
    let ghost mut done: Seq<Seq<char>> = Seq::empty();
    let mut start: usize = span.start;
    let mut i: usize = span.start;
    while i < span.end
        invariant
            span.fits(s@.len()),
            whole == span.of(s@),
            span.start <= start <= i <= span.end,
            forall|j: int| start <= j < i ==> s@[j] != sep,
            spans_cover(s@, out@, done),
            forall|k: int|
                0 <= k < out@.len() ==> span.start <= (#[trigger] out@[k]).start && out@[k].end
                    <= span.end,
            split(whole, sep) == done + split(s@.subrange(start as int, span.end as int), sep),
        decreases span.end - i,
    {
        if s[i] == sep {
            let ghost rest = s@.subrange(start as int, span.end as int);
            proof {
                assert forall|j: int| 0 <= j < i - start implies rest[j] != sep by {
                    assert(rest[j] == s@[start + j]);
                }
                lemma_first_index_is(rest, sep, i - start);
                assert(rest.take(i - start) =~= s@.subrange(start as int, i as int));
                assert(rest.skip(i - start + 1) =~= s@.subrange(i + 1, span.end as int));
                assert(done + (seq![rest.take(i - start)] + split(rest.skip(i - start + 1), sep))
                    =~= done.push(rest.take(i - start)) + split(rest.skip(i - start + 1), sep));
                done = done.push(rest.take(i - start));
            }
            out.push(Span { start, end: i });
            start = i + 1;
        }
        i += 1;
    }
    proof {
        let rest = s@.subrange(start as int, span.end as int);
        assert forall|j: int| 0 <= j < rest.len() implies rest[j] != sep by {
            assert(rest[j] == s@[start + j]);
        }
        lemma_first_index_is(rest, sep, rest.len() as int);
        assert(done + seq![rest] =~= done.push(rest));
        done = done.push(rest);
    }
    out.push(Span { start, end: span.end });
    out
}

/// Finds the first field of the part of `s` that `span` covers: what stands
/// before the first `sep`, or the whole part if it holds none.
pub fn first_field_span(s: &Vec<char>, span: Span, sep: char) -> (r: Span)
    requires
        span.fits(s@.len()),
    ensures
        r.fits(s@.len()),
        r.start == span.start,
        r.end <= span.end,
        r.of(s@) == split(span.of(s@), sep)[0],
{
    let ghost whole = span.of(s@);
    let mut i: usize = span.start;
    while i < span.end && s[i] != sep
        invariant
            span.fits(s@.len()),
            span.start <= i <= span.end,
            forall|j: int| span.start <= j < i ==> s@[j] != sep,
        decreases span.end - i,
    {
        i += 1;
    }
    proof {
        assert forall|j: int| 0 <= j < i - span.start implies whole[j] != sep by {
            assert(whole[j] == s@[span.start + j]);
        }
        if i < span.end {
            assert(whole[i - span.start] == s@[i as int]);
        }
        lemma_first_index_is(whole, sep, i - span.start);
        assert(whole.take(i - span.start) =~= s@.subrange(span.start as int, i as int));
        assert(whole.take(whole.len() as int) =~= whole);
    }
    Span { start: span.start, end: i }
}

} // verus!
