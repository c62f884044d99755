//! Character-level helpers shared by the parsers: scanning, splitting,
//! whitespace and decimal numbers, each with its mathematical model.

use vstd::prelude::*;
use vstd::std_specs::iter::IteratorSpec;
use vstd::string::StringExecFns;

verus! {

/// The position of the first `c` in `s`, or `s.len()` where `s` holds none.
pub open spec fn first_index(s: Seq<char>, c: char) -> int
    decreases s.len(),
{
    if s.len() == 0 {
        0
    } else if s[0] == c {
        0
    } else {
        1 + first_index(s.drop_first(), c)
    }
}

/// `first_index` is the least position that holds `c`, and is within bounds.
pub proof fn lemma_first_index(s: Seq<char>, c: char)
    ensures
        0 <= first_index(s, c) <= s.len(),
        first_index(s, c) < s.len() ==> s[first_index(s, c)] == c,
        forall|k: int| 0 <= k < first_index(s, c) ==> s[k] != c,
    decreases s.len(),
{
    if s.len() != 0 && s[0] != c {
        let rest = s.drop_first();
        lemma_first_index(rest, c);
        assert forall|k: int| 0 <= k < first_index(s, c) implies s[k] != c by {
            if k > 0 {
                assert(s[k] == rest[k - 1]);
            }
        }
    }
}

/// A position that holds the first `c`, or the end where there is none, is
/// `first_index`.
pub proof fn lemma_first_index_is(s: Seq<char>, c: char, i: int)
    requires
        0 <= i <= s.len(),
        forall|k: int| 0 <= k < i ==> s[k] != c,
        i < s.len() ==> s[i] == c,
    ensures
        first_index(s, c) == i,
{
    lemma_first_index(s, c);
    let f = first_index(s, c);
    if f < i {
        assert(s[f] != c);
    } else if f > i {
        assert(s[i] != c);
    }
}

/// The pieces of `s` between occurrences of `sep`. A text without `sep`
/// is one piece, and so is the empty text.
pub open spec fn split_on(s: Seq<char>, sep: char) -> Seq<Seq<char>>
    decreases s.len(),
{
    let i = first_index(s, sep);
    if 0 <= i < s.len() {
        seq![s.subrange(0, i)] + split_on(s.subrange(i + 1, s.len() as int), sep)
    } else {
        seq![s]
    }
}

/// Half-open character ranges that lie inside `lo..hi`.
pub open spec fn spans_within(spans: Seq<(usize, usize)>, lo: int, hi: int) -> bool {
    forall|k: int|
        0 <= k < spans.len() ==> lo <= (#[trigger] spans[k]).0 <= spans[k].1 <= hi
}

/// The texts that `spans` cut out of `s`.
pub open spec fn pieces_of(s: Seq<char>, spans: Seq<(usize, usize)>) -> Seq<Seq<char>> {
    Seq::new(spans.len(), |k: int| s.subrange(spans[k].0 as int, spans[k].1 as int))
}

/// The characters of `s`, in order.
pub fn chars_of(s: &str) -> (out: Vec<char>)
    ensures
        out@ == s@,
{
    broadcast use vstd::string::group_string_axioms;

    let mut out: Vec<char> = Vec::new();
    for c in it: s.chars()
        invariant
            it.seq() == s@,
            out@ == s@.subrange(0, it.index() as int),
    {
        out.push(c);
        assert(out@ =~= s@.subrange(0, it.index() + 1));
    }
    assert(out@ =~= s@);
    out
}

/// An owned copy of the characters `from..to` of `s`.
pub fn text_between(s: &str, from: usize, to: usize) -> (out: String)
    requires
        from <= to <= s@.len(),
    ensures
        out@ == s@.subrange(from as int, to as int),
{
    String::from_str(s.substring_char(from, to))
}

/// Whether the ranges `a_from..a_to` of `a` and `b_from..b_to` of `b` hold
/// the same characters.
pub fn same_range(
    a: &Vec<char>,
    a_from: usize,
    a_to: usize,
    b: &Vec<char>,
    b_from: usize,
    b_to: usize,
) -> (same: bool)
    requires
        a_from <= a_to <= a.len(),
        b_from <= b_to <= b.len(),
    ensures
        same == (a@.subrange(a_from as int, a_to as int) == b@.subrange(
            b_from as int,
            b_to as int,
        )),
{
    let ghost x = a@.subrange(a_from as int, a_to as int);
    let ghost y = b@.subrange(b_from as int, b_to as int);
    let n: usize = a_to - a_from;
    if n != b_to - b_from {
        assert(x.len() != y.len());
        return false;
    }
    let mut i: usize = 0;
    while i < n
        invariant
            n == a_to - a_from,
            n == b_to - b_from,
            a_from <= a_to <= a.len(),
            b_from <= b_to <= b.len(),
            x == a@.subrange(a_from as int, a_to as int),
            y == b@.subrange(b_from as int, b_to as int),
            i <= n,
            forall|k: int| 0 <= k < i ==> x[k] == y[k],
        decreases n - i,
    {
        if a[a_from + i] != b[b_from + i] {
            assert(x[i as int] != y[i as int]);
            return false;
        }
        i += 1;
    }
    assert(x =~= y);
    true
}

/// Whether two character vectors are equal.
pub fn same_chars(a: &Vec<char>, b: &Vec<char>) -> (same: bool)
    ensures
        same == (a@ == b@),
{
    assert(a@.subrange(0, a@.len() as int) =~= a@);
    assert(b@.subrange(0, b@.len() as int) =~= b@);
    same_range(a, 0, a.len(), b, 0, b.len())
}

/// Whether two string slices hold the same characters.
pub fn same_text(a: &str, b: &str) -> (same: bool)
    ensures
        same == (a@ == b@),
{
    let x = chars_of(a);
    let y = chars_of(b);
    same_chars(&x, &y)
}

/// The position of the first `c` in the range `from..to` of `chars`, or `to`
/// where the range holds none.
pub fn find_char(chars: &Vec<char>, from: usize, to: usize, c: char) -> (at: usize)
    requires
        from <= to <= chars.len(),
    ensures
        from <= at <= to,
        at - from == first_index(chars@.subrange(from as int, to as int), c),
        at < to ==> chars@[at as int] == c,
        forall|k: int| from <= k < at ==> chars@[k] != c,
{
    let ghost sub = chars@.subrange(from as int, to as int);
    let mut at: usize = from;
    while at < to && chars[at] != c
        invariant
            from <= at <= to <= chars.len(),
            sub == chars@.subrange(from as int, to as int),
            forall|k: int| from <= k < at ==> chars@[k] != c,
        decreases to - at,
    {
        at += 1;
    }
    proof {
        assert forall|k: int| 0 <= k < at - from implies sub[k] != c by {
            assert(sub[k] == chars@[from + k]);
        }
        lemma_first_index_is(sub, c, at - from);
    }
    at
}

/// Splits the range `from..to` of `chars` on `sep`, giving each piece as a
/// half-open range of positions.
pub fn split_spans(chars: &Vec<char>, from: usize, to: usize, sep: char) -> (spans: Vec<
    (usize, usize),
>)
    requires
        from <= to <= chars.len(),
    ensures
        spans_within(spans@, from as int, to as int),
        pieces_of(chars@, spans@) == split_on(chars@.subrange(from as int, to as int), sep),
{
    let ghost whole = split_on(chars@.subrange(from as int, to as int), sep);
    let mut spans: Vec<(usize, usize)> = Vec::new();
    let mut pos: usize = from;
    assert(pieces_of(chars@, spans@) + whole =~= whole);
    loop
        invariant_except_break
            pieces_of(chars@, spans@) + split_on(chars@.subrange(pos as int, to as int), sep)
                == whole,
        invariant
            from <= pos <= to <= chars.len(),
            spans_within(spans@, from as int, to as int),
            whole == split_on(chars@.subrange(from as int, to as int), sep),
        ensures
            pieces_of(chars@, spans@) == whole,
        decreases to - pos,
    {
        let ghost rest = chars@.subrange(pos as int, to as int);
        let ghost before = spans@;
        let at = find_char(chars, pos, to, sep);
        spans.push((pos, at));
        assert(spans_within(spans@, from as int, to as int)) by {
            assert forall|k: int| 0 <= k < spans@.len() implies from <= (#[trigger] spans@[k]).0
                <= spans@[k].1 <= to by {
                if k < before.len() {
                    assert(spans@[k] == before[k]);
                }
            }
        }
        assert(pieces_of(chars@, spans@) =~= pieces_of(chars@, before) + seq![
            chars@.subrange(pos as int, at as int),
        ]);
        if at == to {
            assert(rest.subrange(0, rest.len() as int) =~= rest);
            assert(chars@.subrange(pos as int, at as int) =~= rest);
            assert(split_on(rest, sep) =~= seq![rest]);
            assert(pieces_of(chars@, spans@) =~= whole);
            break ;
        }
        assert(rest.subrange(0, at - pos) =~= chars@.subrange(pos as int, at as int));
        assert(rest.subrange(at - pos + 1, rest.len() as int) =~= chars@.subrange(
            at + 1,
            to as int,
        ));
        assert(pieces_of(chars@, spans@) + split_on(chars@.subrange(at + 1, to as int), sep)
            =~= whole);
        pos = at + 1;
    }
    spans
}

/// Whether `c` is white space: the characters with Unicode's White_Space
/// property.
pub open spec fn is_whitespace(c: char) -> bool {
    ||| '\u{9}' <= c <= '\u{d}'
    ||| c == ' '
    ||| c == '\u{85}'
    ||| c == '\u{a0}'
    ||| c == '\u{1680}'
    ||| '\u{2000}' <= c <= '\u{200a}'
    ||| c == '\u{2028}'
    ||| c == '\u{2029}'
    ||| c == '\u{202f}'
    ||| c == '\u{205f}'
    ||| c == '\u{3000}'
}

/// Whether `c` is white space.
pub fn whitespace(c: char) -> (yes: bool)
    ensures
        yes == is_whitespace(c),
{
    ('\u{9}' <= c && c <= '\u{d}') || c == ' ' || c == '\u{85}' || c == '\u{a0}' || c
        == '\u{1680}' || ('\u{2000}' <= c && c <= '\u{200a}') || c == '\u{2028}' || c
        == '\u{2029}' || c == '\u{202f}' || c == '\u{205f}' || c == '\u{3000}'
}

/// The number of white-space characters at the start of `s`.
pub open spec fn leading_space(s: Seq<char>) -> int
    decreases s.len(),
{
    if s.len() > 0 && is_whitespace(s[0]) {
        1 + leading_space(s.drop_first())
    } else {
        0
    }
}

/// The number of characters at the start of `s` that are not white space.
pub open spec fn leading_word(s: Seq<char>) -> int
    decreases s.len(),
{
    if s.len() > 0 && !is_whitespace(s[0]) {
        1 + leading_word(s.drop_first())
    } else {
        0
    }
}

/// The number of white-space characters at the end of `s`.
pub open spec fn trailing_space(s: Seq<char>) -> int
    decreases s.len(),
{
    if s.len() > 0 && is_whitespace(s.last()) {
        1 + trailing_space(s.drop_last())
    } else {
        0
    }
}

/// A run of `n` white-space characters followed by the end or by another
/// character is the leading space.
pub proof fn lemma_leading_space_is(s: Seq<char>, n: int)
    requires
        0 <= n <= s.len(),
        forall|k: int| 0 <= k < n ==> is_whitespace(s[k]),
        n < s.len() ==> !is_whitespace(s[n]),
    ensures
        leading_space(s) == n,
    decreases n,
{
    if n > 0 {
        let rest = s.drop_first();
        assert forall|k: int| 0 <= k < n - 1 implies is_whitespace(rest[k]) by {
            assert(rest[k] == s[k + 1]);
        }
        lemma_leading_space_is(rest, n - 1);
    }
}

/// A run of `n` characters that are not white space, followed by the end or
/// by white space, is the leading word.
pub proof fn lemma_leading_word_is(s: Seq<char>, n: int)
    requires
        0 <= n <= s.len(),
        forall|k: int| 0 <= k < n ==> !is_whitespace(s[k]),
        n < s.len() ==> is_whitespace(s[n]),
    ensures
        leading_word(s) == n,
    decreases n,
{
    if n > 0 {
        let rest = s.drop_first();
        assert forall|k: int| 0 <= k < n - 1 implies !is_whitespace(rest[k]) by {
            assert(rest[k] == s[k + 1]);
        }
        lemma_leading_word_is(rest, n - 1);
    }
}

/// A run of `n` white-space characters at the end, preceded by the start or
/// by another character, is the trailing space.
pub proof fn lemma_trailing_space_is(s: Seq<char>, n: int)
    requires
        0 <= n <= s.len(),
        forall|k: int| s.len() - n <= k < s.len() ==> is_whitespace(s[k]),
        n < s.len() ==> !is_whitespace(s[s.len() - n - 1]),
    ensures
        trailing_space(s) == n,
    decreases n,
{
    if n > 0 {
        let rest = s.drop_last();
        assert forall|k: int| rest.len() - (n - 1) <= k < rest.len() implies is_whitespace(
            rest[k],
        ) by {
            assert(rest[k] == s[k]);
        }
        lemma_trailing_space_is(rest, n - 1);
    }
}

/// `s` without the white space at its start.
pub open spec fn trim_start(s: Seq<char>) -> Seq<char> {
    s.subrange(leading_space(s), s.len() as int)
}

/// `s` without the white space at its start and at its end.
pub open spec fn trim(s: Seq<char>) -> Seq<char> {
    let rest = trim_start(s);
    rest.subrange(0, rest.len() - trailing_space(rest))
}

/// The end of the white space that starts at `from`, within `from..to`.
pub fn skip_space(chars: &Vec<char>, from: usize, to: usize) -> (at: usize)
    requires
        from <= to <= chars.len(),
    ensures
        from <= at <= to,
        at - from == leading_space(chars@.subrange(from as int, to as int)),
{
    let ghost sub = chars@.subrange(from as int, to as int);
    let mut at: usize = from;
    while at < to && whitespace(chars[at])
        invariant
            from <= at <= to <= chars.len(),
            forall|k: int| from <= k < at ==> is_whitespace(chars@[k]),
        decreases to - at,
    {
        at += 1;
    }
    proof {
        assert forall|k: int| 0 <= k < at - from implies is_whitespace(sub[k]) by {
            assert(sub[k] == chars@[from + k]);
        }
        lemma_leading_space_is(sub, at - from);
    }
    at
}

/// The end of the word that starts at `from`, within `from..to`.
pub fn skip_word(chars: &Vec<char>, from: usize, to: usize) -> (at: usize)
    requires
        from <= to <= chars.len(),
    ensures
        from <= at <= to,
        at - from == leading_word(chars@.subrange(from as int, to as int)),
{
    let ghost sub = chars@.subrange(from as int, to as int);
    let mut at: usize = from;
    while at < to && !whitespace(chars[at])
        invariant
            from <= at <= to <= chars.len(),
            forall|k: int| from <= k < at ==> !is_whitespace(chars@[k]),
        decreases to - at,
    {
        at += 1;
    }
    proof {
        assert forall|k: int| 0 <= k < at - from implies !is_whitespace(sub[k]) by {
            assert(sub[k] == chars@[from + k]);
        }
        lemma_leading_word_is(sub, at - from);
    }
    at
}

/// The range of `from..to` that is left when the white space at both ends
/// is taken away.
pub fn trim_span(chars: &Vec<char>, from: usize, to: usize) -> (span: (usize, usize))
    requires
        from <= to <= chars.len(),
    ensures
        from <= span.0 <= span.1 <= to,
        chars@.subrange(span.0 as int, span.1 as int) == trim(
            chars@.subrange(from as int, to as int),
        ),
{
    let ghost sub = chars@.subrange(from as int, to as int);
    let start = skip_space(chars, from, to);
    let ghost rest = chars@.subrange(start as int, to as int);
    assert(trim_start(sub) =~= rest);
    let mut end: usize = to;
    while end > start && whitespace(chars[end - 1])
        invariant
            start <= end <= to <= chars.len(),
            forall|k: int| end <= k < to ==> is_whitespace(chars@[k]),
        decreases end - start,
    {
        end -= 1;
    }
    proof {
        assert forall|k: int| rest.len() - (to - end) <= k < rest.len() implies is_whitespace(
            rest[k],
        ) by {
            assert(rest[k] == chars@[start + k]);
        }
        if to - end < rest.len() {
            assert(rest[rest.len() - (to - end) - 1] == chars@[end - 1]);
        }
        lemma_trailing_space_is(rest, to - end);
        assert(chars@.subrange(start as int, end as int) =~= rest.subrange(
            0,
            rest.len() - trailing_space(rest),
        ));
    }
    (start, end)
}

/// `c` with an upper-case ASCII letter turned into its lower-case form.
pub open spec fn ascii_lower(c: char) -> char {
    if 'A' <= c <= 'Z' {
        ((c as u8 + 32) as u8) as char
    } else {
        c
    }
}

/// `s` with each upper-case ASCII letter turned into its lower-case form.
pub open spec fn lowered(s: Seq<char>) -> Seq<char> {
    s.map_values(|c: char| ascii_lower(c))
}

/// Whether `needle` stands in `hay` at position `at`.
pub open spec fn occurs_at(hay: Seq<char>, needle: Seq<char>, at: int) -> bool {
    &&& 0 <= at
    &&& at + needle.len() <= hay.len()
    &&& hay.subrange(at, at + needle.len()) == needle
}

/// The first position at or after `from` where `needle` stands in `hay`.
pub open spec fn find_text(hay: Seq<char>, needle: Seq<char>, from: int) -> Option<int>
    decreases hay.len() - from + 1,
{
    if from < 0 || from + needle.len() > hay.len() {
        None
    } else if occurs_at(hay, needle, from) {
        Some(from)
    } else {
        find_text(hay, needle, from + 1)
    }
}

/// What `find_text` finds is the first occurrence at or after `from`; where
/// it finds nothing there is none.
pub proof fn lemma_find_text(hay: Seq<char>, needle: Seq<char>, from: int)
    requires
        0 <= from,
    ensures
        match find_text(hay, needle, from) {
            Some(at) => {
                &&& from <= at
                &&& occurs_at(hay, needle, at)
                &&& forall|k: int| from <= k < at ==> !occurs_at(hay, needle, k)
            },
            None => forall|k: int| from <= k ==> !occurs_at(hay, needle, k),
        },
    decreases hay.len() - from + 1,
{
    if from + needle.len() <= hay.len() && !occurs_at(hay, needle, from) {
        lemma_find_text(hay, needle, from + 1);
    }
}

/// The lower-case form of `c`, for ASCII letters; `c` itself otherwise.
pub fn to_ascii_lower(c: char) -> (lower: char)
    ensures
        lower == ascii_lower(c),
{
    if 'A' <= c && c <= 'Z' {
        ((c as u8) + 32) as char
    } else {
        c
    }
}

/// Whether `needle` stands at position `at` of `chars`, letter case of
/// `chars` aside.
pub fn lowered_occurs_at(chars: &Vec<char>, needle: &Vec<char>, at: usize) -> (yes: bool)
    requires
        at + needle.len() <= chars.len(),
    ensures
        yes == occurs_at(lowered(chars@), needle@, at as int),
{
    let ghost window = lowered(chars@).subrange(at as int, at + needle.len());
    let mut k: usize = 0;
    while k < needle.len()
        invariant
            k <= needle.len(),
            at + needle.len() <= chars.len(),
            window == lowered(chars@).subrange(at as int, at + needle.len()),
            forall|j: int| 0 <= j < k ==> window[j] == needle@[j],
        decreases needle.len() - k,
    {
        if to_ascii_lower(chars[at + k]) != needle[k] {
            assert(window[k as int] != needle@[k as int]);
            return false;
        }
        k += 1;
    }
    assert(window =~= needle@);
    true
}

/// The first position where `needle` stands in `chars`, letter case of
/// `chars` aside.
pub fn find_lowered(chars: &Vec<char>, needle: &Vec<char>) -> (found: Option<usize>)
    ensures
        match found {
            Some(at) => find_text(lowered(chars@), needle@, 0) == Some(at as int) && at
                + needle.len() <= chars.len(),
            None => find_text(lowered(chars@), needle@, 0).is_none(),
        },
{
    if needle.len() > chars.len() {
        return None;
    }
    let last: usize = chars.len() - needle.len();
    let mut at: usize = 0;
    loop
        invariant
            at <= last,
            last == chars.len() - needle.len(),
            needle.len() <= chars.len(),
            find_text(lowered(chars@), needle@, 0) == find_text(
                lowered(chars@),
                needle@,
                at as int,
            ),
        decreases last - at,
    {
        if lowered_occurs_at(chars, needle, at) {
            return Some(at);
        }
        if at == last {
            assert(find_text(lowered(chars@), needle@, at + 1).is_none());
            return None;
        }
        at += 1;
    }
}

} // verus!
