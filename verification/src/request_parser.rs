//! Decomposing a request URI: the query string and the route it matches.

use vstd::prelude::*;
use crate::decimal::{digits_value, is_digit, lemma_number_holds_digits, parse_usize,
    spec_parse_usize, unsigned_digits};
use crate::method_verb::{spec_method_of, HttpMethod};
use crate::route_map::RouteMap;
use crate::text::{chars_of, find_char, find_lowered, find_text, first_index, leading_word,
    lemma_find_text, lemma_first_index, lowered, occurs_at, pieces_of, same_range, skip_space,
    skip_word, split_on, split_spans, spans_within, text_between, trim, trim_span, trim_start};
use crate::uri_params::{Query, Route};

verus! {

/// The key of a `key=value` piece: what stands before its first `=`.
pub open spec fn pair_key(piece: Seq<char>) -> Seq<char> {
    piece.subrange(0, first_index(piece, '='))
}

/// The value of a `key=value` piece: what stands after its first `=`, and
/// nothing where the piece holds no `=`.
pub open spec fn pair_value(piece: Seq<char>) -> Seq<char> {
    let i = first_index(piece, '=');
    if 0 <= i < piece.len() {
        piece.subrange(i + 1, piece.len() as int)
    } else {
        Seq::empty()
    }
}

/// The mapping `m` after the pieces were added in order. A piece whose key
/// or value is empty adds nothing; a later key replaces an equal earlier one.
pub open spec fn add_pairs(m: Map<Seq<char>, Seq<char>>, pieces: Seq<Seq<char>>) -> Map<
    Seq<char>,
    Seq<char>,
>
    decreases pieces.len(),
{
    if pieces.len() == 0 {
        m
    } else {
        let before = add_pairs(m, pieces.drop_last());
        let piece = pieces.last();
        if pair_key(piece).len() > 0 && pair_value(piece).len() > 0 {
            before.insert(pair_key(piece), pair_value(piece))
        } else {
            before
        }
    }
}

/// Whether the URI carries a query string, that is, holds a `?`.
pub open spec fn has_query(uri: Seq<char>) -> bool {
    0 <= first_index(uri, '?') < uri.len()
}

/// The query parameters of a URI: empty where it has no `?`, else the pairs
/// of what follows the first `?`, split on `&`.
pub open spec fn spec_parse_query(uri: Seq<char>) -> Map<Seq<char>, Seq<char>> {
    if has_query(uri) {
        add_pairs(
            Map::empty(),
            split_on(uri.subrange(first_index(uri, '?') + 1, uri.len() as int), '&'),
        )
    } else {
        Map::empty()
    }
}

/// The query parameters of `uri`. Nothing is decoded: keys and values are
/// kept as they stand in the URI.
pub fn parse_query(uri: &str) -> (query: Query)
    ensures
        query@ == spec_parse_query(uri@),
        !has_query(uri@) ==> query@ == Map::<Seq<char>, Seq<char>>::empty(),
{
    let chars = chars_of(uri);
    let n: usize = chars.len();
    assert(chars@.subrange(0, n as int) =~= uri@);
    let mark = find_char(&chars, 0, n, '?');
    let mut query = Query::new();
    if mark == n {
        return query;
    }
    let spans = split_spans(&chars, mark + 1, n, '&');
    let ghost pieces = split_on(uri@.subrange(mark + 1, n as int), '&');
    let mut k: usize = 0;
    assert(pieces.take(0) =~= Seq::<Seq<char>>::empty());
    while k < spans.len()
        invariant
            k <= spans.len(),
            chars@ == uri@,
            n == chars.len(),
            spans_within(spans@, mark + 1, n as int),
            pieces_of(chars@, spans@) == pieces,
            query@ == add_pairs(Map::empty(), pieces.take(k as int)),
        decreases spans.len() - k,
    {
        let (from, to) = spans[k];
        assert(spans@[k as int] == (from, to));
        let ghost piece = pieces[k as int];
        assert(piece == chars@.subrange(from as int, to as int));
        let eq = find_char(&chars, from, to, '=');
        proof {
            assert(pieces.take(k + 1).drop_last() =~= pieces.take(k as int));
            assert(pieces.take(k + 1).last() == piece);
            assert(pair_key(piece) =~= uri@.subrange(from as int, eq as int));
            if eq < to {
                assert(pair_value(piece) =~= uri@.subrange(eq + 1, to as int));
            }
        }
        if from < eq && eq < to && eq + 1 < to {
            let key = text_between(uri, from, eq);
            let value = text_between(uri, eq + 1, to);
            query.insert(key, value);
        }
        k += 1;
    }
    assert(pieces.take(k as int) =~= pieces);
    query
}

/// The path of a URI: what stands before its first `?`.
pub open spec fn route_path(uri: Seq<char>) -> Seq<char> {
    uri.subrange(0, first_index(uri, '?'))
}

/// Whether a pattern segment is a placeholder: wrapped in `{` and `}`.
pub open spec fn is_placeholder(segment: Seq<char>) -> bool {
    segment.len() >= 2 && segment.first() == '{' && segment.last() == '}'
}

/// The name that a placeholder segment holds between its braces.
pub open spec fn placeholder_name(segment: Seq<char>) -> Seq<char> {
    segment.subrange(1, segment.len() - 1)
}

/// Whether the segments of a pattern match those of a request path: as many
/// on both sides, and at each position the same text or a placeholder.
pub open spec fn segments_match(pattern: Seq<Seq<char>>, request: Seq<Seq<char>>) -> bool {
    &&& pattern.len() == request.len()
    &&& forall|k: int|
        0 <= k < pattern.len() ==> #[trigger] pattern[k] == request[k] || is_placeholder(
            pattern[k],
        )
}

/// Whether a pattern matches a request path, segment by segment.
pub open spec fn pattern_matches(pattern: Seq<char>, path: Seq<char>) -> bool {
    segments_match(split_on(pattern, '/'), split_on(path, '/'))
}

/// What the first `n` positions capture: at each position where the pattern
/// segment differs from that of the request, the request segment under the
/// placeholder's name. A later position replaces an earlier one of the same
/// name.
pub open spec fn captures(pattern: Seq<Seq<char>>, request: Seq<Seq<char>>, n: int) -> Map<
    Seq<char>,
    Seq<char>,
>
    decreases n,
{
    if n <= 0 {
        Map::empty()
    } else {
        let before = captures(pattern, request, n - 1);
        if pattern[n - 1] == request[n - 1] {
            before
        } else {
            before.insert(placeholder_name(pattern[n - 1]), request[n - 1])
        }
    }
}

/// The path parameters that a matching pattern captures from a path.
pub open spec fn captures_of(pattern: Seq<char>, path: Seq<char>) -> Map<Seq<char>, Seq<char>> {
    captures(split_on(pattern, '/'), split_on(path, '/'), split_on(pattern, '/').len() as int)
}

/// The last among the first `n` patterns that matches `path`, if any.
pub open spec fn last_match(patterns: Seq<Seq<char>>, path: Seq<char>, n: int) -> Option<int>
    decreases n,
{
    if n <= 0 {
        None
    } else if pattern_matches(patterns[n - 1], path) {
        Some(n - 1)
    } else {
        last_match(patterns, path, n - 1)
    }
}

/// The position of the pattern that a URI is routed to: the pattern equal
/// to its path where there is one, else the last pattern that matches it
/// segment by segment.
pub open spec fn spec_route_index(patterns: Seq<Seq<char>>, uri: Seq<char>) -> Option<int> {
    let path = route_path(uri);
    if patterns.contains(path) {
        Some(patterns.index_of(path))
    } else {
        last_match(patterns, path, patterns.len() as int)
    }
}

/// The path parameters of a routed URI: none where its path is a registered
/// pattern or nothing matches, else those that the chosen pattern captures.
pub open spec fn spec_route_params(patterns: Seq<Seq<char>>, uri: Seq<char>) -> Map<
    Seq<char>,
    Seq<char>,
> {
    let path = route_path(uri);
    if patterns.contains(path) {
        Map::empty()
    } else {
        match last_match(patterns, path, patterns.len() as int) {
            Some(i) => captures_of(patterns[i], path),
            None => Map::empty(),
        }
    }
}

/// Whether the range `from..to` of `chars` is a placeholder segment.
fn placeholder_at(chars: &Vec<char>, from: usize, to: usize) -> (yes: bool)
    requires
        from <= to <= chars.len(),
    ensures
        yes == is_placeholder(chars@.subrange(from as int, to as int)),
{
    to - from >= 2 && chars[from] == '{' && chars[to - 1] == '}'
}

/// Whether the pattern cut by `pattern_spans` matches the request path cut
/// by `request_spans`.
fn spans_match(
    pattern: &Vec<char>,
    pattern_spans: &Vec<(usize, usize)>,
    request: &Vec<char>,
    request_spans: &Vec<(usize, usize)>,
) -> (yes: bool)
    requires
        spans_within(pattern_spans@, 0, pattern.len() as int),
        spans_within(request_spans@, 0, request.len() as int),
    ensures
        yes == segments_match(
            pieces_of(pattern@, pattern_spans@),
            pieces_of(request@, request_spans@),
        ),
{
    let ghost ps = pieces_of(pattern@, pattern_spans@);
    let ghost rs = pieces_of(request@, request_spans@);
    if pattern_spans.len() != request_spans.len() {
        return false;
    }
    let mut k: usize = 0;
    while k < pattern_spans.len()
        invariant
            k <= pattern_spans.len(),
            pattern_spans.len() == request_spans.len(),
            spans_within(pattern_spans@, 0, pattern.len() as int),
            spans_within(request_spans@, 0, request.len() as int),
            ps == pieces_of(pattern@, pattern_spans@),
            rs == pieces_of(request@, request_spans@),
            forall|j: int| 0 <= j < k ==> #[trigger] ps[j] == rs[j] || is_placeholder(ps[j]),
        decreases pattern_spans.len() - k,
    {
        let (p_from, p_to) = pattern_spans[k];
        let (r_from, r_to) = request_spans[k];
        assert(pattern_spans@[k as int] == (p_from, p_to));
        assert(request_spans@[k as int] == (r_from, r_to));
        if !same_range(pattern, p_from, p_to, request, r_from, r_to) && !placeholder_at(
            pattern,
            p_from,
            p_to,
        ) {
            assert(!(ps[k as int] == rs[k as int] || is_placeholder(ps[k as int])));
            return false;
        }
        k += 1;
    }
    true
}

/// The path parameters that a matching pattern captures.
fn capture(
    pattern_text: &str,
    pattern: &Vec<char>,
    pattern_spans: &Vec<(usize, usize)>,
    request_text: &str,
    request: &Vec<char>,
    request_spans: &Vec<(usize, usize)>,
) -> (route: Route)
    requires
        pattern@ == pattern_text@,
        request@ == request_text@,
        spans_within(pattern_spans@, 0, pattern.len() as int),
        spans_within(request_spans@, 0, request.len() as int),
        segments_match(pieces_of(pattern@, pattern_spans@), pieces_of(request@, request_spans@)),
    ensures
        route@ == captures(
            pieces_of(pattern@, pattern_spans@),
            pieces_of(request@, request_spans@),
            pattern_spans.len() as int,
        ),
{
    let ghost ps = pieces_of(pattern@, pattern_spans@);
    let ghost rs = pieces_of(request@, request_spans@);
    let mut route = Route::new();
    let mut k: usize = 0;
    while k < pattern_spans.len()
        invariant
            k <= pattern_spans.len(),
            pattern_spans.len() == request_spans.len(),
            pattern@ == pattern_text@,
            request@ == request_text@,
            spans_within(pattern_spans@, 0, pattern.len() as int),
            spans_within(request_spans@, 0, request.len() as int),
            ps == pieces_of(pattern@, pattern_spans@),
            rs == pieces_of(request@, request_spans@),
            segments_match(ps, rs),
            route@ == captures(ps, rs, k as int),
        decreases pattern_spans.len() - k,
    {
        let (p_from, p_to) = pattern_spans[k];
        let (r_from, r_to) = request_spans[k];
        assert(pattern_spans@[k as int] == (p_from, p_to));
        assert(request_spans@[k as int] == (r_from, r_to));
        if !same_range(pattern, p_from, p_to, request, r_from, r_to) {
            assert(ps[k as int] != rs[k as int]);
            assert(is_placeholder(ps[k as int]));
            let name = text_between(pattern_text, p_from + 1, p_to - 1);
            let value = text_between(request_text, r_from, r_to);
            assert(name@ =~= placeholder_name(ps[k as int]));
            route.insert(name, value);
        }
        k += 1;
    }
    route
}

/// Routes a request URI through a table. The query string is left out of
/// the match. A pattern equal to the path wins, with no parameters; else the
/// last pattern in table order that matches the path segment by segment
/// wins, with the parameters it captures; else there is no handler.
pub fn parse_route<'a, H>(endpoints: &'a RouteMap<H>, request_uri: &str) -> (found: (
    Option<&'a H>,
    Route,
))
    requires
        endpoints.well_formed(),
    ensures
        found.1@ == spec_route_params(endpoints.patterns(), request_uri@),
        match spec_route_index(endpoints.patterns(), request_uri@) {
            Some(i) => 0 <= i < endpoints.handlers().len() && found.0 == Some(
                &endpoints.handlers()[i],
            ),
            None => found.0.is_none(),
        },
{
    let ghost patterns = endpoints.patterns();
    let ghost path = route_path(request_uri@);
    let request = chars_of(request_uri);
    let n: usize = request.len();
    assert(request@.subrange(0, n as int) =~= request_uri@);
    let mark = find_char(&request, 0, n, '?');
    assert(request@.subrange(0, mark as int) == path);
    let count: usize = endpoints.len();

    let mut i: usize = 0;
    while i < count
        invariant
            i <= count,
            count == patterns.len(),
            patterns == endpoints.patterns(),
            endpoints.well_formed(),
            mark <= request.len(),
            request@.subrange(0, mark as int) == path,
            path == route_path(request_uri@),
            forall|k: int| 0 <= k < i ==> patterns[k] != path,
        decreases count - i,
    {
        let pattern = chars_of(endpoints.pattern(i).as_str());
        assert(pattern@.subrange(0, pattern@.len() as int) =~= pattern@);
        if same_range(&pattern, 0, pattern.len(), &request, 0, mark) {
            let handler = endpoints.handler(i);
            let route = Route::new();
            proof {
                assert(patterns[i as int] == path);
                assert(patterns.contains(path));
                let j = patterns.index_of(path);
                assert(0 <= j < patterns.len() && patterns[j] == path);
                assert(j == i);
            }
            return (Some(handler), route);
        }
        i += 1;
    }
    assert(!patterns.contains(path));

    let request_spans = split_spans(&request, 0, mark, '/');
    let mut best: Option<usize> = None;
    let mut i: usize = 0;
    while i < count
        invariant
            i <= count,
            count == patterns.len(),
            patterns == endpoints.patterns(),
            mark <= request.len(),
            spans_within(request_spans@, 0, mark as int),
            pieces_of(request@, request_spans@) == split_on(path, '/'),
            match best {
                Some(b) => last_match(patterns, path, i as int) == Some(b as int) && b < i,
                None => last_match(patterns, path, i as int).is_none(),
            },
        decreases count - i,
    {
        let pattern = chars_of(endpoints.pattern(i).as_str());
        assert(pattern@.subrange(0, pattern@.len() as int) =~= pattern@);
        let pattern_spans = split_spans(&pattern, 0, pattern.len(), '/');
        if spans_match(&pattern, &pattern_spans, &request, &request_spans) {
            best = Some(i);
        }
        i += 1;
    }

    match best {
        Some(b) => {
            let text = endpoints.pattern(b).as_str();
            let pattern = chars_of(text);
            assert(pattern@.subrange(0, pattern@.len() as int) =~= pattern@);
            let pattern_spans = split_spans(&pattern, 0, pattern.len(), '/');
            proof {
                lemma_last_match(patterns, path, count as int);
            }
            let route = capture(
                text,
                &pattern,
                &pattern_spans,
                request_uri,
                &request,
                &request_spans,
            );
            (Some(endpoints.handler(b)), route)
        },
        None => (None, Route::new()),
    }
}

/// The pattern that `last_match` names lies among the first `n` and matches
/// the path; where it names none, none of them matches.
pub proof fn lemma_last_match(patterns: Seq<Seq<char>>, path: Seq<char>, n: int)
    requires
        0 <= n <= patterns.len(),
    ensures
        match last_match(patterns, path, n) {
            Some(i) => {
                &&& 0 <= i < n
                &&& pattern_matches(patterns[i], path)
                &&& forall|k: int| i < k < n ==> !pattern_matches(patterns[k], path)
            },
            None => forall|k: int| 0 <= k < n ==> !pattern_matches(patterns[k], path),
        },
    decreases n,
{
    if n > 0 && !pattern_matches(patterns[n - 1], path) {
        lemma_last_match(patterns, path, n - 1);
    }
}

/// Whether a request of this method may carry a body.
pub open spec fn spec_could_have_body(method: HttpMethod) -> bool {
    method == HttpMethod::Post || method == HttpMethod::Put
}

/// Whether a request of this method may carry a body: `Post` and `Put` may,
/// `Get` and `Delete` never do.
pub fn could_have_body(method: &HttpMethod) -> (yes: bool)
    ensures
        yes == spec_could_have_body(*method),
{
    match method {
        HttpMethod::Get | HttpMethod::Delete => false,
        HttpMethod::Post | HttpMethod::Put => true,
    }
}

/// The first word of `s`: what stands between the white space at its start
/// and the next white space.
pub open spec fn first_word(s: Seq<char>) -> Seq<char> {
    let rest = trim_start(s);
    rest.subrange(0, leading_word(rest))
}

/// What follows the first word of `s`.
pub open spec fn after_first_word(s: Seq<char>) -> Seq<char> {
    let rest = trim_start(s);
    rest.subrange(leading_word(rest), rest.len() as int)
}

/// The method and the URI that a request line names: its first two words,
/// where the first is a method and the second is not missing.
pub open spec fn spec_request_line(line: Seq<char>) -> Option<(HttpMethod, Seq<char>)> {
    let uri = first_word(after_first_word(line));
    match spec_method_of(first_word(line)) {
        Some(method) => if uri.len() > 0 {
            Some((method, uri))
        } else {
            None
        },
        None => None,
    }
}

/// Reads a request line: the method, then the URI, separated by white
/// space. What follows the URI is not looked at.
pub fn parse_request_line(line: &str) -> (parsed: Option<(HttpMethod, String)>)
    ensures
        match spec_request_line(line@) {
            Some((method, uri)) => parsed.is_some() && parsed.unwrap().0 == method
                && parsed.unwrap().1@ == uri,
            None => parsed.is_none(),
        },
{
    let chars = chars_of(line);
    let n: usize = chars.len();
    assert(chars@.subrange(0, n as int) =~= line@);
    let verb_from = skip_space(&chars, 0, n);
    assert(chars@.subrange(verb_from as int, n as int) =~= trim_start(line@));
    let verb_to = skip_word(&chars, verb_from, n);
    assert(chars@.subrange(verb_from as int, verb_to as int) =~= first_word(line@));
    assert(chars@.subrange(verb_to as int, n as int) =~= after_first_word(line@));
    let uri_from = skip_space(&chars, verb_to, n);
    assert(chars@.subrange(uri_from as int, n as int) =~= trim_start(after_first_word(line@)));
    let uri_to = skip_word(&chars, uri_from, n);
    assert(chars@.subrange(uri_from as int, uri_to as int) =~= first_word(
        after_first_word(line@),
    ));
    let verb = text_between(line, verb_from, verb_to);
    match HttpMethod::from_str(verb.as_str()) {
        Ok(method) => {
            if uri_from == uri_to {
                None
            } else {
                Some((method, text_between(line, uri_from, uri_to)))
            }
        },
        Err(_) => None,
    }
}

/// The length that a header blob announces: the number that follows the
/// name `content-length:` on the line in which the name first occurs, letter
/// case aside, with the white space around the number left out. There is no
/// length where the name does not occur, or where what follows it on its
/// line is not a number that fits.
pub open spec fn spec_content_length(headers: Seq<char>) -> Option<usize> {
    let name = "content-length:"@;
    match find_text(lowered(headers), name, 0) {
        Some(start) => {
            let tail = headers.subrange(start, headers.len() as int);
            let line = tail.subrange(0, first_index(tail, '\n'));
            spec_parse_usize(trim(line.subrange(name.len() as int, line.len() as int)))
        },
        None => None,
    }
}

/// The name holds no line feed: where it stands in the headers, letter case
/// aside, the line that it starts holds all of it.
pub proof fn lemma_name_within_line(headers: Seq<char>, start: int)
    requires
        occurs_at(lowered(headers), "content-length:"@, start),
    ensures
        "content-length:"@.len() <= first_index(
            headers.subrange(start, headers.len() as int),
            '\n',
        ),
{
    let name = "content-length:"@;
    let tail = headers.subrange(start, headers.len() as int);
    let at = first_index(tail, '\n');
    reveal_strlit("content-length:");
    lemma_first_index(tail, '\n');
    if at < name.len() {
        assert(tail[at] == '\n');
        assert(headers[start + at] == '\n');
        assert(lowered(headers)[start + at] == '\n');
        assert(lowered(headers).subrange(start, start + name.len())[at] == name[at]);
        assert(name[0] != '\n' && name[1] != '\n' && name[2] != '\n' && name[3] != '\n'
            && name[4] != '\n' && name[5] != '\n' && name[6] != '\n' && name[7] != '\n'
            && name[8] != '\n' && name[9] != '\n' && name[10] != '\n' && name[11] != '\n'
            && name[12] != '\n' && name[13] != '\n' && name[14] != '\n');
        assert(false);
    }
}

/// There is a length only where the name occurs and what follows it on
/// its line, trimmed, is a number: digits only, but for a `+` that may stand
/// first. A value with anything else in it, such as a second colon, a sign
/// or a letter, announces no length.
pub proof fn lemma_content_length_is_number(headers: Seq<char>)
    requires
        spec_content_length(headers).is_some(),
    ensures
        find_text(lowered(headers), "content-length:"@, 0).is_some(),
        ({
            let name = "content-length:"@;
            let start = find_text(lowered(headers), name, 0).unwrap();
            let tail = headers.subrange(start, headers.len() as int);
            let line = tail.subrange(0, first_index(tail, '\n'));
            let value = trim(line.subrange(name.len() as int, line.len() as int));
            &&& value.len() > 0
            &&& forall|k: int| 0 < k < value.len() ==> is_digit(#[trigger] value[k])
            &&& is_digit(value[0]) || (value[0] == '+' && value.len() > 1)
            &&& spec_content_length(headers).unwrap() == digits_value(unsigned_digits(value))
        }),
{
    let name = "content-length:"@;
    let start = find_text(lowered(headers), name, 0).unwrap();
    let tail = headers.subrange(start, headers.len() as int);
    let line = tail.subrange(0, first_index(tail, '\n'));
    lemma_number_holds_digits(trim(line.subrange(name.len() as int, line.len() as int)));
}

/// The body length that the headers announce, if they announce one: the
/// number that follows the name on its line.
pub fn get_content_length_header(headers: &String) -> (length: Option<usize>)
    ensures
        length == spec_content_length(headers@),
{
    let chars = chars_of(headers.as_str());
    let needle = chars_of("content-length:");
    let n: usize = chars.len();
    match find_lowered(&chars, &needle) {
        None => None,
        Some(start) => {
            let ghost tail = headers@.subrange(start as int, n as int);
            let end = find_char(&chars, start, n, '\n');
            let ghost line = tail.subrange(0, first_index(tail, '\n'));
            proof {
                lemma_find_text(lowered(headers@), needle@, 0);
                lemma_name_within_line(headers@, start as int);
                assert(chars@.subrange(start + needle.len(), end as int) =~= line.subrange(
                    needle.len() as int,
                    line.len() as int,
                ));
            }
            let (value_from, value_to) = trim_span(&chars, start + needle.len(), end);
            parse_usize(&chars, value_from, value_to)
        },
    }
}

/// A URI that holds no `?` has no query parameters; so has the empty URI.
pub proof fn lemma_no_mark_no_query(uri: Seq<char>)
    requires
        !uri.contains('?'),
    ensures
        spec_parse_query(uri) == Map::<Seq<char>, Seq<char>>::empty(),
        route_path(uri) == uri,
{
    lemma_first_index(uri, '?');
    let i = first_index(uri, '?');
    if i < uri.len() {
        assert(uri.contains(uri[i]));
    }
    assert(uri.subrange(0, uri.len() as int) =~= uri);
}

/// Every key of the query parameters is bound to a value that is not
/// empty, and no key is empty.
pub proof fn lemma_query_pairs_not_empty(uri: Seq<char>, key: Seq<char>)
    requires
        spec_parse_query(uri).contains_key(key),
    ensures
        key.len() > 0,
        spec_parse_query(uri)[key].len() > 0,
{
    if has_query(uri) {
        lemma_add_pairs_not_empty(
            split_on(uri.subrange(first_index(uri, '?') + 1, uri.len() as int), '&'),
            key,
        );
    }
}

/// What `add_pairs` binds, starting from nothing, is never empty on either
/// side.
pub proof fn lemma_add_pairs_not_empty(pieces: Seq<Seq<char>>, key: Seq<char>)
    requires
        add_pairs(Map::empty(), pieces).contains_key(key),
    ensures
        key.len() > 0,
        add_pairs(Map::empty(), pieces)[key].len() > 0,
    decreases pieces.len(),
{
    if pieces.len() > 0 {
        let piece = pieces.last();
        let before = add_pairs(Map::empty(), pieces.drop_last());
        if pair_key(piece).len() > 0 && pair_value(piece).len() > 0 && key == pair_key(piece) {
        } else {
            assert(before.contains_key(key));
            lemma_add_pairs_not_empty(pieces.drop_last(), key);
        }
    }
}

/// A pattern that is equal to the path wins over every other pattern, and
/// captures nothing.
pub proof fn lemma_exact_pattern_wins(patterns: Seq<Seq<char>>, uri: Seq<char>, i: int)
    requires
        patterns.no_duplicates(),
        0 <= i < patterns.len(),
        patterns[i] == route_path(uri),
    ensures
        spec_route_index(patterns, uri) == Some(i),
        spec_route_params(patterns, uri) == Map::<Seq<char>, Seq<char>>::empty(),
{
    let path = route_path(uri);
    assert(patterns.contains(path));
    let j = patterns.index_of(path);
    assert(0 <= j < patterns.len() && patterns[j] == path);
}

/// A pattern with another number of segments than the path never matches
/// it: the pattern that a URI is routed to is equal to the path or has as
/// many segments as the path.
pub proof fn lemma_segment_count(patterns: Seq<Seq<char>>, uri: Seq<char>)
    ensures
        forall|pattern: Seq<char>, path: Seq<char>|
            split_on(pattern, '/').len() != split_on(path, '/').len() ==> !#[trigger] pattern_matches(
                pattern,
                path,
            ),
        match spec_route_index(patterns, uri) {
            Some(i) => 0 <= i < patterns.len() && (patterns[i] == route_path(uri) || split_on(
                patterns[i],
                '/',
            ).len() == split_on(route_path(uri), '/').len()),
            None => true,
        },
{
    let path = route_path(uri);
    if patterns.contains(path) {
        let j = patterns.index_of(path);
        assert(0 <= j < patterns.len() && patterns[j] == path);
    } else {
        lemma_last_match(patterns, path, patterns.len() as int);
    }
}

/// A URI is routed to no pattern exactly where no pattern is equal to its
/// path and none matches it; a pattern that it is routed to, other than by
/// equality, matches it, and no later pattern does.
pub proof fn lemma_route_index(patterns: Seq<Seq<char>>, uri: Seq<char>)
    ensures
        spec_route_index(patterns, uri).is_none() <==> forall|k: int|
            0 <= k < patterns.len() ==> patterns[k] != route_path(uri) && !pattern_matches(
                #[trigger] patterns[k],
                route_path(uri),
            ),
        spec_route_index(patterns, uri).is_some() && !patterns.contains(route_path(uri)) ==> {
            let i = spec_route_index(patterns, uri).unwrap();
            &&& 0 <= i < patterns.len()
            &&& pattern_matches(patterns[i], route_path(uri))
            &&& forall|k: int|
                i < k < patterns.len() ==> !pattern_matches(
                    #[trigger] patterns[k],
                    route_path(uri),
                )
        },
{
    let path = route_path(uri);
    lemma_last_match(patterns, path, patterns.len() as int);
    if patterns.contains(path) {
        let j = patterns.index_of(path);
        assert(0 <= j < patterns.len() && patterns[j] == path);
    } else {
        assert forall|k: int| 0 <= k < patterns.len() implies patterns[k] != path by {
            if patterns[k] == path {
                assert(patterns.contains(path));
            }
        }
    }
}

/// Where a pattern matches, the request segment at a placeholder that
/// differs from it is captured under the placeholder's name, unless a
/// later capture has the same name.
pub proof fn lemma_capture(pattern: Seq<Seq<char>>, request: Seq<Seq<char>>, n: int, k: int)
    requires
        0 <= k < n <= pattern.len(),
        pattern.len() == request.len(),
        pattern[k] != request[k],
        forall|j: int|
            k < j < n ==> pattern[j] == request[j] || placeholder_name(#[trigger] pattern[j])
                != placeholder_name(pattern[k]),
    ensures
        captures(pattern, request, n).contains_key(placeholder_name(pattern[k])),
        captures(pattern, request, n)[placeholder_name(pattern[k])] == request[k],
    decreases n,
{
    if k < n - 1 {
        lemma_capture(pattern, request, n - 1, k);
    }
}

/// Only placeholders that differ from their request segment capture: every
/// captured name is that of such a position, bound to its segment.
pub proof fn lemma_captures_come_from_placeholders(
    pattern: Seq<Seq<char>>,
    request: Seq<Seq<char>>,
    n: int,
    name: Seq<char>,
)
    requires
        0 <= n <= pattern.len(),
        pattern.len() == request.len(),
        captures(pattern, request, n).contains_key(name),
    ensures
        exists|k: int|
            0 <= k < n && pattern[k] != request[k] && placeholder_name(#[trigger] pattern[k])
                == name && captures(pattern, request, n)[name] == request[k],
    decreases n,
{
    if n > 0 {
        if pattern[n - 1] != request[n - 1] && placeholder_name(pattern[n - 1]) == name {
            assert(placeholder_name(pattern[n - 1]) == name);
        } else {
            lemma_captures_come_from_placeholders(pattern, request, n - 1, name);
            let k = choose|k: int|
                0 <= k < n - 1 && pattern[k] != request[k] && placeholder_name(
                    #[trigger] pattern[k],
                ) == name && captures(pattern, request, n - 1)[name] == request[k];
            assert(placeholder_name(pattern[k]) == name);
        }
    }
}

} // verus!
