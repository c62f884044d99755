//! Reading a request off a connection, as a state machine. The machine
//! decides; whoever owns the connection reads what the machine asks for and
//! hands it over.

use vstd::prelude::*;
use vstd::slice::{slice_subrange, slice_to_vec};
use vstd::string::StringExecFns;
use vstd::utf8::{decode_utf8, valid_utf8};
use crate::http_request::{HttpRequest, RequestModel};
use crate::method_verb::HttpMethod;
use crate::request_parser::{could_have_body, get_content_length_header, parse_request_line,
    spec_content_length, spec_could_have_body, spec_request_line};
use crate::text::same_text;

verus! {

/// How far the reading of a request has come.
pub enum ParseState {
    /// Nothing was read yet.
    RequestLine,
    /// The request line was read; header lines are being collected.
    Headers { method: HttpMethod, uri: String, headers: String },
    /// The headers announced a body of `length` bytes.
    Body { method: HttpMethod, uri: String, length: usize },
}

/// What the connection is asked for next.
#[derive(Debug, Clone, Copy, PartialEq, Eq, Structural)]
pub enum ReadDemand {
    /// One line, with its line end.
    Line,
    /// Exactly this many bytes.
    Bytes(usize),
}

/// What came of a read.
pub enum StreamEvent {
    /// A line, with its line end; empty at the end of the stream.
    Line(String),
    /// The bytes that were read.
    Bytes(Vec<u8>),
    /// The read failed or ran out of time.
    Failed,
}

/// What the machine does with an event.
pub enum ParseStep {
    /// More is to be read.
    Continue(ParseState),
    /// The request is complete.
    Done(HttpRequest),
    /// The request is malformed; it is answered with a bad-request status.
    Rejected,
}

/// A state as a mathematical value.
pub enum StateModel {
    RequestLine,
    Headers { method: HttpMethod, uri: Seq<char>, headers: Seq<char> },
    Body { method: HttpMethod, uri: Seq<char>, length: usize },
}

/// An event as a mathematical value.
pub enum EventModel {
    Line(Seq<char>),
    Bytes(Seq<u8>),
    Failed,
}

/// A step as a mathematical value.
pub enum StepModel {
    Continue(StateModel),
    Done(RequestModel),
    Rejected,
}

impl View for ParseState {
    type V = StateModel;

    open spec fn view(&self) -> StateModel {
        match self {
            ParseState::RequestLine => StateModel::RequestLine,
            ParseState::Headers { method, uri, headers } => StateModel::Headers {
                method: *method,
                uri: uri@,
                headers: headers@,
            },
            ParseState::Body { method, uri, length } => StateModel::Body {
                method: *method,
                uri: uri@,
                length: *length,
            },
        }
    }
}

impl View for StreamEvent {
    type V = EventModel;

    open spec fn view(&self) -> EventModel {
        match self {
            StreamEvent::Line(line) => EventModel::Line(line@),
            StreamEvent::Bytes(bytes) => EventModel::Bytes(bytes@),
            StreamEvent::Failed => EventModel::Failed,
        }
    }
}

impl View for ParseStep {
    type V = StepModel;

    open spec fn view(&self) -> StepModel {
        match self {
            ParseStep::Continue(state) => StepModel::Continue(state@),
            ParseStep::Done(request) => StepModel::Done(request@),
            ParseStep::Rejected => StepModel::Rejected,
        }
    }
}

/// What a state asks the connection for: a line until the headers are
/// through, then the announced number of bytes.
pub open spec fn spec_demand(state: StateModel) -> ReadDemand {
    match state {
        StateModel::RequestLine => ReadDemand::Line,
        StateModel::Headers { .. } => ReadDemand::Line,
        StateModel::Body { length, .. } => ReadDemand::Bytes(length),
    }
}

/// The step taken on a request line.
pub open spec fn spec_on_request_line(line: Seq<char>) -> StepModel {
    match spec_request_line(line) {
        Some((method, uri)) => if spec_could_have_body(method) {
            StepModel::Continue(StateModel::Headers { method, uri, headers: Seq::empty() })
        } else {
            StepModel::Done(RequestModel { method, uri, body: None })
        },
        None => StepModel::Rejected,
    }
}

/// The step taken on a line that follows the request line. The line made
/// of a carriage return and a line feed ends the headers: the request then
/// is complete unless the headers announce a length other than zero. The
/// empty line, which stands for the end of the stream, is a failure. Every
/// other line is added to the headers as it is.
pub open spec fn spec_on_header_line(
    method: HttpMethod,
    uri: Seq<char>,
    headers: Seq<char>,
    line: Seq<char>,
) -> StepModel {
    if line == "\r\n"@ {
        match spec_content_length(headers) {
            Some(length) => if length == 0 {
                StepModel::Done(RequestModel { method, uri, body: None })
            } else {
                StepModel::Continue(StateModel::Body { method, uri, length })
            },
            None => StepModel::Done(RequestModel { method, uri, body: None }),
        }
    } else if line.len() == 0 {
        StepModel::Rejected
    } else {
        StepModel::Continue(StateModel::Headers { method, uri, headers: headers + line })
    }
}

/// The step taken on the bytes of the body: they must be as many as were
/// announced and must be UTF-8 text.
pub open spec fn spec_on_body(method: HttpMethod, uri: Seq<char>, length: usize, bytes: Seq<u8>)
    -> StepModel {
    if bytes.len() == length && valid_utf8(bytes) {
        StepModel::Done(RequestModel { method, uri, body: Some(decode_utf8(bytes)) })
    } else {
        StepModel::Rejected
    }
}

/// The step that a state takes on an event. A failed read, and an event of
/// another kind than the state asked for, reject the request.
pub open spec fn spec_advance(state: StateModel, event: EventModel) -> StepModel {
    match (state, event) {
        (StateModel::RequestLine, EventModel::Line(line)) => spec_on_request_line(line),
        (StateModel::Headers { method, uri, headers }, EventModel::Line(line)) =>
            spec_on_header_line(method, uri, headers, line),
        (StateModel::Body { method, uri, length }, EventModel::Bytes(bytes)) => spec_on_body(
            method,
            uri,
            length,
            bytes,
        ),
        _ => StepModel::Rejected,
    }
}

/// Decodes bytes as UTF-8 text with `String::from_utf8`: the text that the
/// bytes encode where they are valid UTF-8, nothing where they are not.
#[verifier::external_body]
fn decode_text(bytes: Vec<u8>) -> (text: Option<String>)
    ensures
        text.is_some() == valid_utf8(bytes@),
        text.is_some() ==> text.unwrap()@ == decode_utf8(bytes@),
{
    match String::from_utf8(bytes) {
        Ok(text) => Some(text),
        Err(_) => None,
    }
}

impl ParseState {
    /// The state before anything was read.
    pub fn new() -> (state: ParseState)
        ensures
            state@ == StateModel::RequestLine,
    {
        ParseState::RequestLine
    }

    /// What to read next.
    pub fn demand(&self) -> (demand: ReadDemand)
        ensures
            demand == spec_demand(self@),
    {
        match self {
            ParseState::RequestLine => ReadDemand::Line,
            ParseState::Headers { .. } => ReadDemand::Line,
            ParseState::Body { length, .. } => ReadDemand::Bytes(*length),
        }
    }

    /// Takes the outcome of the read that this state asked for and says how
    /// to go on.
    pub fn advance(self, event: StreamEvent) -> (step: ParseStep)
        ensures
            step@ == spec_advance(self@, event@),
    {
        match self {
            ParseState::RequestLine => match event {
                StreamEvent::Line(line) => on_request_line(line.as_str()),
                _ => ParseStep::Rejected,
            },
            ParseState::Headers { method, uri, headers } => match event {
                StreamEvent::Line(line) => on_header_line(method, uri, headers, line.as_str()),
                _ => ParseStep::Rejected,
            },
            ParseState::Body { method, uri, length } => match event {
                StreamEvent::Bytes(bytes) => on_body(method, uri, length, bytes),
                _ => ParseStep::Rejected,
            },
        }
    }
}

/// The step taken on a request line.
pub fn on_request_line(line: &str) -> (step: ParseStep)
    ensures
        step@ == spec_on_request_line(line@),
{
    match parse_request_line(line) {
        Some((method, uri)) => {
            if could_have_body(&method) {
                ParseStep::Continue(ParseState::Headers { method, uri, headers: String::new() })
            } else {
                ParseStep::Done(HttpRequest { method, uri, body: None })
            }
        },
        None => ParseStep::Rejected,
    }
}

/// The step taken on a line that follows the request line.
pub fn on_header_line(method: HttpMethod, uri: String, headers: String, line: &str) -> (step:
    ParseStep)
    ensures
        step@ == spec_on_header_line(method, uri@, headers@, line@),
{
    if same_text(line, "\r\n") {
        match get_content_length_header(&headers) {
            Some(length) => {
                if length == 0 {
                    ParseStep::Done(HttpRequest { method, uri, body: None })
                } else {
                    ParseStep::Continue(ParseState::Body { method, uri, length })
                }
            },
            None => ParseStep::Done(HttpRequest { method, uri, body: None }),
        }
    } else if line.unicode_len() == 0 {
        ParseStep::Rejected
    } else {
        let mut headers = headers;
        headers.append(line);
        ParseStep::Continue(ParseState::Headers { method, uri, headers })
    }
}

/// The step taken on the bytes of the body.
pub fn on_body(method: HttpMethod, uri: String, length: usize, bytes: Vec<u8>) -> (step:
    ParseStep)
    ensures
        step@ == spec_on_body(method, uri@, length, bytes@),
{
    if bytes.len() != length {
        return ParseStep::Rejected;
    }
    match decode_text(bytes) {
        Some(text) => ParseStep::Done(HttpRequest { method, uri, body: Some(text) }),
        None => ParseStep::Rejected,
    }
}

/// The length of the first line of `bytes`: up to and with the first line
/// feed, or all of `bytes` where they hold none.
pub open spec fn line_length(bytes: Seq<u8>) -> int
    decreases bytes.len(),
{
    if bytes.len() == 0 {
        0
    } else if bytes[0] == 10u8 {
        1
    } else {
        1 + line_length(bytes.drop_first())
    }
}

/// A length that ends at the first line feed, or at the end where there
/// is no line feed, is the length of the first line.
pub proof fn lemma_line_length_is(bytes: Seq<u8>, n: int)
    requires
        0 <= n <= bytes.len(),
        forall|k: int| 0 <= k < n - 1 ==> bytes[k] != 10u8,
        n > 0 && bytes[n - 1] == 10u8 || n == bytes.len() && (n == 0 || bytes[n - 1] != 10u8),
    ensures
        line_length(bytes) == n,
    decreases bytes.len(),
{
    if bytes.len() > 0 && bytes[0] != 10u8 {
        let rest = bytes.drop_first();
        assert forall|k: int| 0 <= k < n - 2 implies rest[k] != 10u8 by {
            assert(rest[k] == bytes[k + 1]);
        }
        if n > 1 {
            assert(rest[n - 2] == bytes[n - 1]);
        }
        lemma_line_length_is(rest, n - 1);
    }
}

/// What a read gives on a stream that holds `rest` and then ends: for a
/// line, the first line of `rest` as text, a failure where it is not UTF-8;
/// for a number of bytes, the first so many of `rest`, a failure where
/// there are fewer.
pub open spec fn spec_read(demand: ReadDemand, rest: Seq<u8>) -> EventModel {
    match demand {
        ReadDemand::Line => {
            let line = rest.take(line_length(rest));
            if valid_utf8(line) {
                EventModel::Line(decode_utf8(line))
            } else {
                EventModel::Failed
            }
        },
        ReadDemand::Bytes(n) => if n <= rest.len() {
            EventModel::Bytes(rest.take(n as int))
        } else {
            EventModel::Failed
        },
    }
}

/// How many bytes a successful read takes off the stream.
pub open spec fn spec_consumed(demand: ReadDemand, rest: Seq<u8>) -> int {
    match demand {
        ReadDemand::Line => line_length(rest),
        ReadDemand::Bytes(n) => n as int,
    }
}

/// The request that the machine reads, from `state` on, off a stream that
/// holds `rest` and then ends. What follows the request is not looked at.
pub open spec fn spec_parse_from(state: StateModel, rest: Seq<u8>) -> Option<RequestModel>
    decreases rest.len(),
{
    let demand = spec_demand(state);
    let used = spec_consumed(demand, rest);
    match spec_advance(state, spec_read(demand, rest)) {
        StepModel::Done(request) => Some(request),
        StepModel::Rejected => None,
        StepModel::Continue(next) => if 0 < used <= rest.len() {
            spec_parse_from(next, rest.skip(used))
        } else {
            None
        },
    }
}

/// The request that stands at the start of `input`, if one does.
pub open spec fn spec_parse_request(input: Seq<u8>) -> Option<RequestModel> {
    spec_parse_from(StateModel::RequestLine, input)
}

/// Performs the read that `demand` asks for on `input` from `pos` on, and
/// gives the event and the position after it.
fn read_from(input: &[u8], pos: usize, demand: ReadDemand) -> (read: (StreamEvent, usize))
    requires
        pos <= input@.len(),
    ensures
        read.0@ == spec_read(demand, input@.skip(pos as int)),
        pos <= read.1 <= input@.len(),
        !(read.0 is Failed) ==> read.1 - pos == spec_consumed(demand, input@.skip(pos as int)),
{
    let ghost rest = input@.skip(pos as int);
    let n: usize = input.len();
    match demand {
        ReadDemand::Line => {
            let mut end: usize = pos;
            while end < n && input[end] != 10u8
                invariant
                    pos <= end <= n,
                    n == input@.len(),
                    forall|k: int| pos <= k < end ==> input@[k] != 10u8,
                decreases n - end,
            {
                end += 1;
            }
            if end < n {
                end += 1;
            }
            proof {
                assert forall|k: int| 0 <= k < end - pos - 1 implies rest[k] != 10u8 by {
                    assert(rest[k] == input@[pos + k]);
                }
                if end > pos {
                    assert(rest[end - pos - 1] == input@[end - 1]);
                }
                lemma_line_length_is(rest, end - pos);
                assert(input@.subrange(pos as int, end as int) =~= rest.take(end - pos));
            }
            let line = slice_to_vec(slice_subrange(input, pos, end));
            match decode_text(line) {
                Some(text) => (StreamEvent::Line(text), end),
                None => (StreamEvent::Failed, end),
            }
        },
        ReadDemand::Bytes(length) => {
            if length > n - pos {
                (StreamEvent::Failed, pos)
            } else {
                let end: usize = pos + length;
                assert(input@.subrange(pos as int, end as int) =~= rest.take(length as int));
                let bytes = slice_to_vec(slice_subrange(input, pos, end));
                (StreamEvent::Bytes(bytes), end)
            }
        },
    }
}

/// Reads the request at the start of `input`, the bytes that a connection
/// delivered. A request of a method that carries no body ends with its
/// request line; another ends with the empty line after its headers or,
/// where they announce a length, with that many bytes of body. Bytes after
/// the request are ignored. There is no request where the machine rejects
/// what it reads or `input` ends too early.
pub fn parse_request(input: &[u8]) -> (parsed: Option<HttpRequest>)
    ensures
        match spec_parse_request(input@) {
            Some(request) => parsed.is_some() && parsed.unwrap()@ == request,
            None => parsed.is_none(),
        },
{
    let mut state = ParseState::new();
    let mut pos: usize = 0;
    assert(input@.skip(0) =~= input@);
    loop
        invariant
            pos <= input@.len(),
            spec_parse_from(state@, input@.skip(pos as int)) == spec_parse_request(input@),
        decreases input@.len() - pos,
    {
        let ghost rest = input@.skip(pos as int);
        let demand = state.demand();
        let (event, end) = read_from(input, pos, demand);
        match state.advance(event) {
            ParseStep::Done(request) => {
                return Some(request);
            },
            ParseStep::Rejected => {
                return None;
            },
            ParseStep::Continue(next) => {
                if end == pos {
                    return None;
                }
                assert(rest.skip(end - pos) =~= input@.skip(end as int));
                state = next;
                pos = end;
            },
        }
    }
}

/// Whether a state can be reached from the start: headers and body are
/// read only for a method that may carry a body, and no body of length zero
/// is read.
pub open spec fn reachable(state: StateModel) -> bool {
    match state {
        StateModel::RequestLine => true,
        StateModel::Headers { method, .. } => spec_could_have_body(method),
        StateModel::Body { method, length, .. } => spec_could_have_body(method) && length > 0,
    }
}

/// A step from a reachable state leads to a reachable state, and completes
/// a request with a body only for a method that may carry one.
pub proof fn lemma_advance_keeps_reachable(state: StateModel, event: EventModel)
    requires
        reachable(state),
    ensures
        match spec_advance(state, event) {
            StepModel::Continue(next) => reachable(next),
            StepModel::Done(request) => request.body.is_some() ==> spec_could_have_body(
                request.method,
            ),
            StepModel::Rejected => true,
        },
{
}

/// A request read off a stream has a body only if its method is `Post` or
/// `Put`: requests of the other methods never carry one, whatever their
/// headers say.
pub proof fn lemma_body_only_where_allowed(state: StateModel, rest: Seq<u8>)
    requires
        reachable(state),
    ensures
        match spec_parse_from(state, rest) {
            Some(request) => request.body.is_some() ==> spec_could_have_body(request.method),
            None => true,
        },
    decreases rest.len(),
{
    let demand = spec_demand(state);
    let used = spec_consumed(demand, rest);
    lemma_advance_keeps_reachable(state, spec_read(demand, rest));
    match spec_advance(state, spec_read(demand, rest)) {
        StepModel::Continue(next) => {
            if 0 < used <= rest.len() {
                lemma_body_only_where_allowed(next, rest.skip(used));
            }
        },
        _ => {},
    }
}

/// Where the headers announce no length, or the length zero, the line that
/// ends them completes the request, without a body: nothing more is read.
/// Where they announce another length, that many bytes are read next.
pub proof fn lemma_end_of_headers(method: HttpMethod, uri: Seq<char>, headers: Seq<char>)
    ensures
        spec_content_length(headers).is_none() || spec_content_length(headers) == Some(0usize)
            ==> spec_on_header_line(method, uri, headers, "\r\n"@) == StepModel::Done(
            RequestModel { method, uri, body: None },
        ),
        spec_content_length(headers).is_some() && spec_content_length(headers).unwrap() != 0
            ==> spec_on_header_line(method, uri, headers, "\r\n"@) == StepModel::Continue(
            StateModel::Body { method, uri, length: spec_content_length(headers).unwrap() },
        ),
{
}

/// What stands on the stream after a complete request does not change the
/// request that is read: the bytes of a request, followed by anything, give
/// the same request as those bytes alone, where the request ends with the
/// announced body.
pub proof fn lemma_body_is_framed(
    method: HttpMethod,
    uri: Seq<char>,
    length: usize,
    body: Seq<u8>,
    trailing: Seq<u8>,
)
    requires
        body.len() == length,
    ensures
        spec_parse_from(StateModel::Body { method, uri, length }, body + trailing)
            == spec_parse_from(StateModel::Body { method, uri, length }, body),
{
    assert((body + trailing).take(length as int) =~= body);
    assert(body.take(length as int) =~= body);
}

} // verus!
