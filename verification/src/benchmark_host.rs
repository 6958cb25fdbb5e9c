//! What the host of a benchmark answers: its page, its bundle, and its fixtures.

use std::ops::Range;

use vstd::prelude::*;
use vstd::string::*;
use vstd::utf8::*;

use crate::fixtures;
use crate::fixtures::{FixtureDescriptor, FixtureError, FixtureLockEntry, StreamDelivery};
use crate::text;

verus! {

/// The version of what a host says when it is ready.
pub const PROTOCOL_VERSION: u32 = 2;

/// The largest number that a byte range may name.
pub const MAX_SAFE_INTEGER: u64 = 9_007_199_254_740_991;

// Byte ranges.

/// The number that a bound of a byte range writes.
pub open spec fn bound_of(s: Seq<char>) -> Option<u64> {
    match text::unsigned_64(s) {
        Some(n) => if n <= MAX_SAFE_INTEGER {
            Some(n)
        } else {
            None
        },
        None => None,
    }
}

/// The bytes that a first and a last bound select of `size` bytes: the first is where they start, or
/// where it is missing the last is how many there are at the end.
pub open spec fn selected_bytes(start: Seq<char>, end: Seq<char>, size: int) -> Option<(int, int)> {
    let bounds = if start.len() == 0 {
        match bound_of(end) {
            Some(count) => Some(
                (
                    if count as int <= size {
                        size - count
                    } else {
                        0
                    },
                    size,
                ),
            ),
            None => None,
        }
    } else {
        match bound_of(start) {
            Some(first) => if end.len() == 0 {
                Some((first as int, size))
            } else {
                match bound_of(end) {
                    Some(last) => Some(
                        (
                            first as int,
                            if last < size {
                                last + 1
                            } else {
                                size
                            },
                        ),
                    ),
                    None => None,
                }
            },
            None => None,
        }
    };
    match bounds {
        Some(bounds) => if bounds.0 < size && bounds.0 < bounds.1 {
            Some(bounds)
        } else {
            None
        },
        None => None,
    }
}

/// The bytes that a range header selects of `size` bytes, where it selects any.
pub open spec fn range_of(value: Seq<char>, size: int) -> Option<(int, int)> {
    if !("bytes="@.is_prefix_of(value)) {
        None
    } else {
        match text::divided(value.skip("bytes="@.len() as int), '-') {
            None => None,
            Some((start, end)) => if end.contains('-') || (start.len() == 0 && end.len() == 0)
                || size == 0 {
                None
            } else {
                selected_bytes(start, end, size)
            },
        }
    }
}

fn bound(s: &str) -> (r: Option<usize>)
    ensures
        match r {
            Some(n) => bound_of(s@) == Some(n as u64),
            None => bound_of(s@) is None || bound_of(s@)->0 > usize::MAX,
        },
{
    match text::parse_u64(s) {
        Some(n) => {
            if n > MAX_SAFE_INTEGER || n > usize::MAX as u64 {
                None
            } else {
                Some(n as usize)
            }
        },
        None => None,
    }
}

/// The last bound of a range header is larger than the machine's numbers.
pub open spec fn end_too_large(value: Seq<char>) -> bool {
    match text::divided(value.skip("bytes="@.len() as int), '-') {
        None => false,
        Some((start, end)) => bound_of(end) is Some && bound_of(end)->0 > usize::MAX,
    }
}

/// The bytes that a range header selects of `size` bytes, as far as the machine can count them.
pub open spec fn served_range(value: Seq<char>, size: int) -> Option<(int, int)> {
    if end_too_large(value) {
        None
    } else {
        range_of(value, size)
    }
}

/// The bytes that a range header selects of `size` bytes.
pub fn byte_range(value: &str, size: usize) -> (r: Result<Range<usize>, ()>)
    ensures
        match r {
            Ok(range) => served_range(value@, size as int) == Some(
                (range.start as int, range.end as int),
            ),
            Err(_) => served_range(value@, size as int) is None,
        },
{
    proof {
        reveal_strlit("bytes=");
    }
    if !text::has_prefix(value, "bytes=") {
        return Err(());
    }
    let chars = text::chars_of(value);
    let rest = text::text_of(&chars, 6, chars.len());
    assert(rest@ == value@.skip("bytes="@.len() as int));
    let (start, end) = match text::divide(&rest, '-') {
        None => {
            return Err(());
        },
        Some(parts) => parts,
    };
    if text::contains_char(&end, '-') || (start.as_str().is_empty() && end.as_str().is_empty())
        || size == 0 {
        return Err(());
    }
    let (first, last): (usize, usize) = if start.as_str().is_empty() {
        let count: usize = match bound(&end) {
            Some(count) => count,
            None => {
                return Err(());
            },
        };
        (
            if count <= size {
                size - count
            } else {
                0
            },
            size,
        )
    } else {
        let first: usize = match bound(&start) {
            Some(first) => first,
            None => {
                return Err(());
            },
        };
        if end.as_str().is_empty() {
            (first, size)
        } else {
            let last: usize = match bound(&end) {
                Some(last) => last,
                None => {
                    return Err(());
                },
            };
            (
                first,
                if last < size {
                    last + 1
                } else {
                    size
                },
            )
        }
    };
    if first >= size || last <= first {
        return Err(());
    }
    Ok(Range { start: first, end: last })
}

/// A range that is selected holds some bytes, and none beyond the body.
pub proof fn a_selected_range_lies_in_the_body(value: Seq<char>, size: int)
    requires
        size >= 0,
        range_of(value, size) is Some,
    ensures
        ({
            let range = range_of(value, size)->0;
            0 <= range.0 < range.1 <= size
        }),
{
}

// Routes.

/// What a request asks for.
#[derive(Clone, Debug)]
pub enum Route {
    Page,
    Bundle,
    /// A fixture, by the query of the request.
    Fixture(String),
    NotFound,
}

/// The path and the query of a request.
pub open spec fn request_parts(url: Seq<char>) -> (Seq<char>, Seq<char>) {
    match text::divided(url, '?') {
        Some(parts) => parts,
        None => (url, ""@),
    }
}

/// What a request asks for.
pub fn route(url: &str) -> (r: Route)
    ensures
        ({
            let (path, query) = request_parts(url@);
            match r {
                Route::Page => path == "/"@,
                Route::Bundle => path == "/__bperf/benchmark.js"@,
                Route::Fixture(asked) => path == "/__bperf/fixture"@ && asked@ == query,
                Route::NotFound => path != "/"@ && path != "/__bperf/benchmark.js"@ && path
                    != "/__bperf/fixture"@,
            }
        }),
{
    let (path, query) = match text::divide(url, '?') {
        Some(parts) => parts,
        None => (url.to_owned(), "".to_owned()),
    };
    if text::same(&path, "/") {
        Route::Page
    } else if text::same(&path, "/__bperf/benchmark.js") {
        Route::Bundle
    } else if text::same(&path, "/__bperf/fixture") {
        Route::Fixture(query)
    } else {
        Route::NotFound
    }
}

/// The names and values that `form_urlencoded::parse` finds in a query.
pub uninterp spec fn form_pairs(query: Seq<char>) -> Seq<(Seq<char>, Seq<char>)>;

/// The names and values of some parameters, viewed.
pub open spec fn pair_views(pairs: Seq<(String, String)>) -> Seq<(Seq<char>, Seq<char>)> {
    Seq::new(pairs.len(), |i: int| (pairs[i].0@, pairs[i].1@))
}

/// Calls `form_urlencoded::parse` on the bytes of a query: its pairs of name and value, decoded, in
/// order. They depend on the query alone. Nothing is claimed of how they are decoded.
#[verifier::external_body]
pub(crate) fn parse_query(query: &str) -> (r: Vec<(String, String)>)
    ensures
        pair_views(r@) == form_pairs(query@),
{
    form_urlencoded::parse(query.as_bytes()).into_owned().collect()
}

/// The value of the first parameter with a name.
pub open spec fn parameter(pairs: Seq<(Seq<char>, Seq<char>)>, name: Seq<char>) -> Option<Seq<char>>
    decreases pairs.len(),
{
    if pairs.len() == 0 {
        None
    } else if pairs[0].0 == name {
        Some(pairs[0].1)
    } else {
        parameter(pairs.drop_first(), name)
    }
}

/// The value of the first parameter with a name.
pub fn find_parameter(pairs: &Vec<(String, String)>, name: &str) -> (r: Option<String>)
    ensures
        text::opt(r) == parameter(pair_views(pairs@), name@),
{
    let ghost all = pair_views(pairs@);
    let mut i: usize = 0;
    assert(all.skip(0) == all);
    while i < pairs.len()
        invariant
            i <= pairs@.len(),
            all == pair_views(pairs@),
            parameter(all, name@) == parameter(all.skip(i as int), name@),
        decreases pairs@.len() - i,
    {
        assert(all.skip(i as int)[0] == all[i as int]);
        assert(all.skip(i as int).drop_first() == all.skip(i + 1));
        let pair = &pairs[i];
        if text::same(&pair.0, name) {
            return Some(pair.1.clone());
        }
        i += 1;
    }
    None
}

/// The descriptor that a query asks for.
pub fn requested_descriptor(query: &str) -> (r: Option<String>)
    ensures
        text::opt(r) == parameter(form_pairs(query@), "descriptor"@),
{
    find_parameter(&parse_query(query), "descriptor")
}

// Answers.

/// A header of an answer.
#[derive(Clone, Debug)]
pub struct HeaderField {
    pub name: String,
    pub value: String,
}

/// The names and values of some headers.
pub open spec fn header_views(headers: Seq<HeaderField>) -> Seq<(Seq<char>, Seq<char>)> {
    Seq::new(headers.len(), |i: int| (headers[i].name@, headers[i].value@))
}

/// An answer: its status, its headers, and which part of the body it holds.
#[derive(Clone, Debug)]
pub struct Reply {
    pub status: u16,
    pub headers: Vec<HeaderField>,
    pub start: usize,
    pub end: usize,
    pub stream: Option<StreamDelivery>,
}

fn field(name: &str, value: &str) -> (r: HeaderField)
    ensures
        r.name@ == name@,
        r.value@ == value@,
{
    HeaderField { name: name.to_owned(), value: value.to_owned() }
}

/// The headers of the page, the bundle, and refusals.
pub open spec fn static_headers(content_type: Seq<char>) -> Seq<(Seq<char>, Seq<char>)> {
    seq![("Cache-Control"@, "no-store"@), ("Content-Type"@, content_type)]
}

/// The reply holds a whole body.
pub open spec fn is_static_reply(
    reply: Reply,
    status: u16,
    size: int,
    content_type: Seq<char>,
) -> bool {
    &&& reply.status == status
    &&& header_views(reply.headers@) == static_headers(content_type)
    &&& reply.start == 0
    &&& reply.end == size
    &&& reply.stream is None
}

/// The answer that holds a whole body.
pub fn static_reply(status: u16, size: usize, content_type: &str) -> (r: Reply)
    ensures
        is_static_reply(r, status, size as int, content_type@),
{
    let mut headers: Vec<HeaderField> = Vec::new();
    headers.push(field("Cache-Control", "no-store"));
    headers.push(field("Content-Type", content_type));
    assert(header_views(headers@) == static_headers(content_type@));
    Reply { status, headers, start: 0, end: size, stream: None }
}

/// The headers of a fixture: which part it is, where only a part is asked for.
pub open spec fn fixture_headers(
    range: Option<(int, int)>,
    size: int,
    content_type: Seq<char>,
) -> Seq<(Seq<char>, Seq<char>)> {
    let common = seq![
        ("Accept-Ranges"@, "bytes"@),
        ("Cache-Control"@, "no-store"@),
        ("Content-Type"@, content_type),
    ];
    match range {
        Some((start, end)) => common.push(
            (
                "Content-Range"@,
                "bytes "@ + text::decimal(start as nat) + "-"@ + text::decimal((end - 1) as nat)
                    + "/"@ + text::decimal(size as nat),
            ),
        ),
        None => common,
    }
}

/// The answer is the one to a request for a fixture: all of it, the part that was asked for, or
/// that there is no such part.
pub open spec fn is_fixture_reply(
    reply: Reply,
    asked: Option<Option<(int, int)>>,
    size: int,
    content_type: Seq<char>,
    stream: Option<StreamDelivery>,
) -> bool {
    match asked {
        Some(None) => {
            &&& reply.status == 416
            &&& header_views(reply.headers@) == seq![
                ("Content-Range"@, "bytes */"@ + text::decimal(size as nat)),
            ]
            &&& reply.start == 0
            &&& reply.end == 0
            &&& reply.stream is None
        },
        Some(Some(range)) => {
            &&& reply.status == 206
            &&& header_views(reply.headers@) == fixture_headers(Some(range), size, content_type)
            &&& reply.start == range.0
            &&& reply.end == range.1
            &&& reply.stream == stream
        },
        None => {
            &&& reply.status == 200
            &&& header_views(reply.headers@) == fixture_headers(None, size, content_type)
            &&& reply.start == 0
            &&& reply.end == size
            &&& reply.stream == stream
        },
    }
}

/// The part of a body of `size` bytes that a request asks for: all of it without a range header, else
/// what the header selects, if that is anything.
pub open spec fn asked_part(range_header: Option<Seq<char>>, size: int) -> Option<
    Option<(int, int)>,
> {
    match range_header {
        Some(value) => Some(served_range(value, size)),
        None => None,
    }
}

/// The answer to a request for a fixture, given the range header of the request.
pub fn fixture_reply(
    range_header: &Option<String>,
    size: usize,
    content_type: &str,
    stream: Option<StreamDelivery>,
) -> (r: Reply)
    ensures
        is_fixture_reply(
            r,
            asked_part(text::opt(*range_header), size as int),
            size as int,
            content_type@,
            stream,
        ),
{
    let range: Option<Range<usize>> = match range_header {
        Some(value) => match byte_range(value, size) {
            Ok(range) => Some(range),
            Err(_) => {
                let mut whole = "bytes */".to_owned();
                whole.append(&text::decimal_text(size as u64));
                let mut headers: Vec<HeaderField> = Vec::new();
                headers.push(field("Content-Range", &whole));
                assert(header_views(headers@) == seq![
                    ("Content-Range"@, "bytes */"@ + text::decimal(size as nat)),
                ]);
                return Reply { status: 416, headers, start: 0, end: 0, stream: None };
            },
        },
        None => None,
    };
    let mut headers: Vec<HeaderField> = Vec::new();
    headers.push(field("Accept-Ranges", "bytes"));
    headers.push(field("Cache-Control", "no-store"));
    headers.push(field("Content-Type", content_type));
    assert(header_views(headers@) == fixture_headers(None, size as int, content_type@));
    match range {
        Some(range) => {
            let ghost before = header_views(headers@);
            let mut part = "bytes ".to_owned();
            part.append(&text::decimal_text(range.start as u64));
            part.append("-");
            part.append(&text::decimal_text((range.end - 1) as u64));
            part.append("/");
            part.append(&text::decimal_text(size as u64));
            headers.push(field("Content-Range", &part));
            assert(header_views(headers@) == before.push(("Content-Range"@, part@)));
            Reply { status: 206, headers, start: range.start, end: range.end, stream }
        },
        None => Reply { status: 200, headers, start: 0, end: size, stream },
    }
}

/// What an answer takes its bytes from.
#[derive(Clone, Debug)]
pub enum AnswerBody {
    Page,
    Bundle,
    /// The body of the pinned fixture at this place.
    Fixture(usize),
    /// This text.
    Text(String),
}

/// An answer, and what it takes its bytes from.
#[derive(Clone, Debug)]
pub struct Answer {
    pub reply: Reply,
    pub body: AnswerBody,
}

/// The answer is that there is nothing of the kind, in words.
pub open spec fn is_refusal(answer: Answer, words: Seq<char>) -> bool {
    &&& is_static_reply(
        answer.reply,
        404,
        encode_utf8(words).len() as int,
        "text/plain; charset=utf-8"@,
    )
    &&& (answer.body matches AnswerBody::Text(text) && text@ == words)
}

fn refusal(words: &str) -> (r: Answer)
    ensures
        is_refusal(r, words@),
{
    Answer {
        reply: static_reply(404, words.as_bytes().len(), "text/plain; charset=utf-8"),
        body: AnswerBody::Text(words.to_owned()),
    }
}

/// The page that runs a benchmark.
pub const PAGE: &'static str =
    r#"<!doctype html>
<meta charset="utf-8">
<title>bperf managed benchmark</title>
<script type="module">
const benchmark = await import("/__bperf/benchmark.js");
if (benchmark.default !== globalThis.__bperfDefinition) {
  throw new Error(
    "default export must be created with defineBrowserBenchmark",
  );
}
</script>"#;

/// The answer to a request that asks for no fixture: the page, the bundle, or that there is no such
/// thing.
pub fn fixed_answer(route: &Route, bundle_size: usize) -> (r: Option<Answer>)
    ensures
        match *route {
            Route::Page => {
                &&& r is Some
                &&& r->0.body is Page
                &&& is_static_reply(
                    r->0.reply,
                    200,
                    encode_utf8(PAGE@).len() as int,
                    "text/html; charset=utf-8"@,
                )
            },
            Route::Bundle => {
                &&& r is Some
                &&& r->0.body is Bundle
                &&& is_static_reply(
                    r->0.reply,
                    200,
                    bundle_size as int,
                    "text/javascript; charset=utf-8"@,
                )
            },
            Route::NotFound => r is Some && is_refusal(r->0, "Not found"@),
            Route::Fixture(_) => r is None,
        },
{
    match route {
        Route::Page => Some(
            Answer {
                reply: static_reply(200, PAGE.as_bytes().len(), "text/html; charset=utf-8"),
                body: AnswerBody::Page,
            },
        ),
        Route::Bundle => Some(
            Answer {
                reply: static_reply(200, bundle_size, "text/javascript; charset=utf-8"),
                body: AnswerBody::Bundle,
            },
        ),
        Route::NotFound => Some(refusal("Not found")),
        Route::Fixture(_) => None,
    }
}

/// A request for the pinned fixture at a place is answered from its body: with what it asks for, or
/// not at all where the body is too large to be served.
pub open spec fn serves(
    r: Result<Answer, FixtureError>,
    entry: FixtureLockEntry,
    place: int,
    range_header: Option<Seq<char>>,
) -> bool {
    let size = entry.size_bytes as int;
    if size <= usize::MAX {
        &&& r is Ok
        &&& r->Ok_0.body == AnswerBody::Fixture(place as usize)
        &&& is_fixture_reply(
            r->Ok_0.reply,
            asked_part(range_header, size),
            size,
            entry.served_type(),
            entry.delivery(),
        )
    } else {
        r == Err::<Answer, FixtureError>(FixtureError::TooLarge)
    }
}

/// What a request for a fixture is answered, given the descriptor that it asks for, where there is one
/// that can be read, and its range header. What is not pinned is not found.
pub open spec fn is_fixture_answer(
    r: Result<Answer, FixtureError>,
    descriptor: Option<FixtureDescriptor>,
    entries: Seq<FixtureLockEntry>,
    range_header: Option<Seq<char>>,
) -> bool {
    if descriptor is Some && fixtures::described(entries, entries.len() as int, descriptor->0) {
        exists|i: int| #[trigger]
            fixtures::is_entry_of(entries, descriptor->0, i) && serves(
                r,
                entries[i],
                i,
                range_header,
            )
    } else {
        r is Ok && is_refusal(r->Ok_0, "Unknown benchmark fixture"@)
    }
}

/// Answers a request for a fixture.
pub fn fixture_answer(
    descriptor: &Option<FixtureDescriptor>,
    entries: &Vec<FixtureLockEntry>,
    range_header: &Option<String>,
) -> (r: Result<Answer, FixtureError>)
    ensures
        is_fixture_answer(r, *descriptor, entries@, text::opt(*range_header)),
{
    let place: Option<usize> = match descriptor {
        Some(descriptor) => fixtures::find(entries, descriptor),
        None => None,
    };
    match place {
        None => Ok(refusal("Unknown benchmark fixture")),
        Some(place) => {
            let entry = &entries[place];
            assert(fixtures::is_entry_of(entries@, descriptor->0, place as int));
            match entry.size() {
                Err(error) => Err(error),
                Ok(size) => Ok(
                    Answer {
                        reply: fixture_reply(
                            range_header,
                            size,
                            entry.content_type(),
                            entry.stream(),
                        ),
                        body: AnswerBody::Fixture(place),
                    },
                ),
            }
        },
    }
}

/// A request is answered with 404 exactly where it names no fixture or one that is not pinned.
pub proof fn only_an_unknown_fixture_is_not_found(
    r: Result<Answer, FixtureError>,
    descriptor: Option<FixtureDescriptor>,
    entries: Seq<FixtureLockEntry>,
    range_header: Option<Seq<char>>,
)
    requires
        is_fixture_answer(r, descriptor, entries, range_header),
    ensures
        (r is Ok && r->Ok_0.reply.status == 404) <==> (descriptor is None || forall|i: int|
            !(#[trigger] fixtures::is_entry_of(entries, descriptor->0, i))),
{
}

/// A fixture is answered from within its body, whatever part of it is asked for.
pub proof fn a_fixture_is_served_from_its_body(
    answer: Answer,
    entry: FixtureLockEntry,
    place: int,
    range_header: Option<Seq<char>>,
    body: Seq<u8>,
)
    requires
        serves(Ok(answer), entry, place, range_header),
        entry.size_bytes == body.len(),
    ensures
        0 <= answer.reply.start <= answer.reply.end <= body.len(),
        answer.reply.status == 200 ==> body.subrange(
            answer.reply.start as int,
            answer.reply.end as int,
        ) == body,
        answer.reply.status == 416 ==> answer.reply.start == answer.reply.end,
{
    if let Some(value) = range_header {
        if served_range(value, body.len() as int) is Some {
            a_selected_range_lies_in_the_body(value, body.len() as int);
        }
    }
}

// Bodies.

/// A part of a body that is being handed out.
#[derive(Clone, Copy, Debug, Eq, PartialEq, Structural)]
pub struct BodyReader {
    pub start: usize,
    pub position: usize,
    pub end: usize,
    pub chunk_size: usize,
    pub interval_ms: u64,
}

/// The next piece of a body, and whether to pause before it.
#[derive(Clone, Copy, Debug, Eq, PartialEq, Structural)]
pub struct BodyPiece {
    pub pause: bool,
    pub from: usize,
    pub length: usize,
}

/// The smaller of two numbers.
pub open spec fn smaller(a: int, b: int) -> int {
    if a <= b {
        a
    } else {
        b
    }
}

impl BodyReader {
    /// The reader stands in its part, and hands out pieces of some size.
    pub open spec fn wf(self) -> bool {
        self.start <= self.position <= self.end && self.chunk_size > 0
    }

    /// How far the reader is into the current chunk.
    pub open spec fn offset(self) -> int {
        (self.position - self.start) % self.chunk_size as int
    }

    /// A reader at the start of an answer's part of the body; without pieces it hands out as much as
    /// fits.
    pub fn new(reply: &Reply) -> (r: BodyReader)
        requires
            reply.start <= reply.end,
            reply.stream is Some ==> reply.stream->0.chunk_size > 0,
        ensures
            r.wf(),
            r.start == reply.start,
            r.position == reply.start,
            r.end == reply.end,
            match reply.stream {
                Some(stream) => r.chunk_size == stream.chunk_size && r.interval_ms
                    == stream.interval_ms,
                None => r.chunk_size == usize::MAX && r.interval_ms == 0,
            },
    {
        let (chunk_size, interval_ms): (usize, u64) = match reply.stream {
            Some(stream) => (stream.chunk_size, stream.interval_ms),
            None => (usize::MAX, 0),
        };
        BodyReader {
            start: reply.start,
            position: reply.start,
            end: reply.end,
            chunk_size,
            interval_ms,
        }
    }

    /// How long the next piece is, where `capacity` bytes fit.
    pub open spec fn piece_length(self, capacity: int) -> int {
        if self.position >= self.end || capacity == 0 {
            0
        } else {
            smaller(
                smaller(capacity, self.end - self.position),
                self.chunk_size - self.offset(),
            )
        }
    }

    /// Hands out the next piece: never beyond the part, never across the end of a chunk, and with a
    /// pause before every chunk but the first.
    pub fn read(&mut self, capacity: usize) -> (r: BodyPiece)
        requires
            old(self).wf(),
        ensures
            final(self).wf(),
            r.from == old(self).position,
            r.length == old(self).piece_length(capacity as int),
            r.pause == (r.length > 0 && old(self).position > old(self).start && old(
                self,
            ).offset() == 0 && old(self).interval_ms > 0),
            final(self).position == old(self).position + r.length,
            final(self).start == old(self).start,
            final(self).end == old(self).end,
            final(self).chunk_size == old(self).chunk_size,
            final(self).interval_ms == old(self).interval_ms,
    {
        if self.position >= self.end || capacity == 0 {
            return BodyPiece { pause: false, from: self.position, length: 0 };
        }
        let offset: usize = (self.position - self.start) % self.chunk_size;
        let pause = self.position > self.start && offset == 0 && self.interval_ms > 0;
        let left: usize = self.end - self.position;
        let fits: usize = if capacity <= left {
            capacity
        } else {
            left
        };
        let room: usize = self.chunk_size - offset;
        let length: usize = if fits <= room {
            fits
        } else {
            room
        };
        let from: usize = self.position;
        self.position = from + length;
        BodyPiece { pause, from, length }
    }
}

/// The pieces that a reader hands out, for buffers of given sizes.
pub open spec fn handed_out(body: Seq<u8>, reader: BodyReader, capacities: Seq<usize>) -> Seq<u8>
    decreases capacities.len(),
{
    if capacities.len() == 0 {
        Seq::empty()
    } else {
        let length = reader.piece_length(capacities[0] as int);
        let next = BodyReader { position: (reader.position + length) as usize, ..reader };
        body.subrange(reader.position as int, reader.position + length) + handed_out(
            body,
            next,
            capacities.drop_first(),
        )
    }
}

/// Where a reader stands after buffers of given sizes.
pub open spec fn position_after(reader: BodyReader, capacities: Seq<usize>) -> int
    decreases capacities.len(),
{
    if capacities.len() == 0 {
        reader.position as int
    } else {
        let length = reader.piece_length(capacities[0] as int);
        let next = BodyReader { position: (reader.position + length) as usize, ..reader };
        position_after(next, capacities.drop_first())
    }
}

/// Whatever the sizes of the buffers, the pieces put together are the body from where the reader
/// stood to where it stands, and it never passes the end of its part.
pub proof fn pieces_make_up_the_body(body: Seq<u8>, reader: BodyReader, capacities: Seq<usize>)
    requires
        reader.wf(),
        reader.end <= body.len(),
    ensures
        reader.position <= position_after(reader, capacities) <= reader.end,
        handed_out(body, reader, capacities) == body.subrange(
            reader.position as int,
            position_after(reader, capacities),
        ),
    decreases capacities.len(),
{
    if capacities.len() == 0 {
        assert(body.subrange(reader.position as int, reader.position as int) == Seq::<u8>::empty());
    } else {
        let length = reader.piece_length(capacities[0] as int);
        let next = BodyReader { position: (reader.position + length) as usize, ..reader };
        pieces_make_up_the_body(body, next, capacities.drop_first());
        let last = position_after(reader, capacities);
        assert(body.subrange(reader.position as int, next.position as int) + body.subrange(
            next.position as int,
            last,
        ) == body.subrange(reader.position as int, last));
    }
}

/// A reader that has not reached the end of its part hands out something into every buffer that is
/// not empty.
pub proof fn a_reader_makes_progress(reader: BodyReader, capacity: int)
    requires
        reader.wf(),
        reader.position < reader.end,
        capacity > 0,
    ensures
        0 < reader.piece_length(capacity) <= capacity,
{
}

/// No piece reaches across the end of a chunk.
pub proof fn a_piece_stays_in_its_chunk(reader: BodyReader, capacity: int)
    requires
        reader.wf(),
        capacity >= 0,
    ensures
        reader.offset() + reader.piece_length(capacity) <= reader.chunk_size,
{
}

// Readiness.

/// What a host says when it is ready.
#[derive(Clone, Debug)]
pub struct HostReadiness {
    pub protocol_version: u32,
    pub url: String,
    pub source_files: Vec<String>,
}

/// The address of a host on this machine.
pub fn origin(port: u16) -> (r: String)
    ensures
        r@ == "http://127.0.0.1:"@ + text::decimal(port as nat) + "/"@,
{
    let mut out = "http://127.0.0.1:".to_owned();
    out.append(&text::decimal_text(port as u64));
    out.append("/");
    out
}

} // verus!
