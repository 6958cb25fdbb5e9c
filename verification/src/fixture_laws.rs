//! What holds of every fixture that is pinned and served.

use vstd::prelude::*;
use vstd::string::*;

use crate::benchmark_host;
use crate::benchmark_host::{Answer, AnswerBody, BodyReader, Reply};
use crate::fixtures;
use crate::fixtures::{
    FixtureDescriptor, FixtureError, FixtureLock, FixtureLockEntry, FixtureResponse,
    RemoteAnswer, StreamDelivery,
};
use crate::text;

verus! {

// Descriptors.

/// A fixture that asks for a stream is delivered in pieces of the size that it asks for, with the pause
/// that it asks for, or none where it asks for no pause. One that asks for no stream is not.
pub proof fn a_stream_is_delivered_as_asked(entry: FixtureLockEntry)
    ensures
        match entry.descriptor.response {
            Some(FixtureResponse { stream: Some(stream), .. }) => {
                &&& entry.delivery() matches Some(delivery)
                &&& delivery.chunk_size == stream.chunk_size
                &&& stream.interval_ms matches Some(pause) ==> delivery.interval_ms == pause
                &&& stream.interval_ms is None ==> delivery.interval_ms == 0
            },
            _ => entry.delivery() is None,
        },
{
}

/// A fixture is served under the content type that it asks for, else under the one it was pinned with.
pub proof fn a_content_type_is_served_as_asked(entry: FixtureLockEntry)
    ensures
        match entry.descriptor.response {
            Some(FixtureResponse { content_type: Some(asked), .. }) => entry.served_type()
                == asked@,
            _ => entry.served_type() == entry.content_type@,
        },
{
}

/// What a descriptor asks for, in full: its source, and of its response whether there is one, its
/// content type, and its stream with the size of its pieces and its pause.
pub open spec fn asks(descriptor: FixtureDescriptor) -> (
    Seq<char>,
    Option<(Option<Seq<char>>, Option<(usize, Option<u64>)>)>,
) {
    (
        descriptor.source@,
        match descriptor.response {
            None => None,
            Some(response) => Some(
                (
                    match response.content_type {
                        None => None,
                        Some(content_type) => Some(content_type@),
                    },
                    match response.stream {
                        None => None,
                        Some(stream) => Some((stream.chunk_size, stream.interval_ms)),
                    },
                ),
            ),
        },
    )
}

/// Two descriptors are the same exactly if they ask for the same.
pub proof fn the_same_descriptors_ask_for_the_same(a: FixtureDescriptor, b: FixtureDescriptor)
    ensures
        fixtures::same_descriptor(a, b) <==> asks(a) == asks(b),
{
}

/// The text has a character that is not white space.
pub open spec fn has_content(s: Seq<char>) -> bool {
    exists|i: int| 0 <= i < s.len() && !text::is_white(#[trigger] s[i])
}

/// A descriptor is accepted exactly if its source is not blank, nor its content type where it gives
/// one, and its pieces hold something where it asks for pieces.
pub proof fn an_accepted_descriptor_makes_sense(descriptor: FixtureDescriptor)
    ensures
        fixtures::descriptor_failure(descriptor) is None <==> {
            &&& has_content(asks(descriptor).0)
            &&& asks(descriptor).1 matches Some((Some(content_type), _)) ==> has_content(
                content_type,
            )
            &&& asks(descriptor).1 matches Some((_, Some((size, _)))) ==> size > 0
        },
        !has_content(descriptor.source@) ==> fixtures::descriptor_failure(descriptor) == Some(
            FixtureError::EmptySource,
        ),
{
    assert(text::blank(descriptor.source@) <==> !has_content(descriptor.source@));
    if descriptor.response is Some && descriptor.response->0.content_type is Some {
        let content_type = descriptor.response->0.content_type->0@;
        assert(text::blank(content_type) <==> !has_content(content_type));
    }
}

proof fn lemma_entries(entries: Seq<FixtureLockEntry>, n: int)
    requires
        0 <= n <= entries.len(),
    ensures
        fixtures::entries_failure(entries, n) is None <==> {
            &&& forall|i: int|
                0 <= i < n ==> fixtures::descriptor_failure((#[trigger] entries[i]).descriptor)
                    is None && has_content(entries[i].content_type@)
            &&& forall|i: int, j: int|
                0 <= i < j < n ==> asks((#[trigger] entries[i]).descriptor) != asks(
                    (#[trigger] entries[j]).descriptor,
                )
        },
    decreases n,
{
    if n > 0 {
        lemma_entries(entries, n - 1);
        let last = entries[n - 1];
        assert(text::blank(last.content_type@) <==> !has_content(last.content_type@));
        assert forall|i: int| 0 <= i < n - 1 implies (fixtures::same_descriptor(
            (#[trigger] entries[i]).descriptor,
            last.descriptor,
        ) <==> asks(entries[i].descriptor) == asks(last.descriptor)) by {
            the_same_descriptors_ask_for_the_same(entries[i].descriptor, last.descriptor);
        }
        if fixtures::described(entries, n - 1, last.descriptor) {
            let i = choose|i: int|
                0 <= i < n - 1 && fixtures::same_descriptor(
                    (#[trigger] entries[i]).descriptor,
                    last.descriptor,
                );
            assert(asks(entries[i].descriptor) == asks(entries[n - 1].descriptor));
        } else {
            assert forall|i: int| 0 <= i < n - 1 implies asks((#[trigger] entries[i]).descriptor)
                != asks(entries[n - 1].descriptor) by {
                assert(!fixtures::same_descriptor(entries[i].descriptor, last.descriptor));
            }
        }
    }
}

/// A lock is accepted exactly if it is of the known version, and all its entries have descriptors that
/// make sense, no two ask for the same, and none has a blank content type.
pub proof fn an_accepted_lock_pins_each_fixture_once(lock: FixtureLock)
    ensures
        fixtures::lock_failure(lock) is None <==> {
            let entries = lock.fixtures@;
            &&& lock.schema_version == 1
            &&& forall|i: int|
                0 <= i < entries.len() ==> fixtures::descriptor_failure(
                    (#[trigger] entries[i]).descriptor,
                ) is None && has_content(entries[i].content_type@)
            &&& forall|i: int, j: int|
                0 <= i < j < entries.len() ==> asks((#[trigger] entries[i]).descriptor) != asks(
                    (#[trigger] entries[j]).descriptor,
                )
        },
{
    lemma_entries(lock.fixtures@, lock.fixtures@.len() as int);
}

/// The entry of a descriptor is the first that asks for the same.
pub proof fn an_entry_is_found_by_what_it_asks_for(
    entries: Seq<FixtureLockEntry>,
    descriptor: FixtureDescriptor,
    i: int,
)
    ensures
        fixtures::is_entry_of(entries, descriptor, i) <==> {
            &&& 0 <= i < entries.len()
            &&& asks(entries[i].descriptor) == asks(descriptor)
            &&& forall|j: int|
                0 <= j < i ==> asks((#[trigger] entries[j]).descriptor) != asks(descriptor)
        },
        fixtures::described(entries, entries.len() as int, descriptor) <==> exists|j: int|
            0 <= j < entries.len() && asks((#[trigger] entries[j]).descriptor) == asks(descriptor),
{
    assert forall|j: int| 0 <= j < entries.len() implies (fixtures::same_descriptor(
        (#[trigger] entries[j]).descriptor,
        descriptor,
    ) <==> asks(entries[j].descriptor) == asks(descriptor)) by {
        the_same_descriptors_ask_for_the_same(entries[j].descriptor, descriptor);
    }
}

// Sources.

/// A source lies on a server exactly if it is an address with an authority and the scheme HTTP or
/// HTTPS, whatever the case of its letters; it is then asked for under its whole address.
pub proof fn only_http_sources_are_fetched(
    uri: Option<(Option<Seq<char>>, Option<Seq<char>>, Seq<char>, Seq<char>)>,
)
    ensures
        match fixtures::remote_text(uri) {
            Some(address) => {
                &&& uri matches Some((Some(scheme), Some(_), _, whole))
                &&& address == whole
                &&& text::lower_cased(scheme) == "http"@ || text::lower_cased(scheme) == "https"@
            },
            None => !(uri matches Some((Some(scheme), Some(_), _, _)) && (text::lower_cased(scheme)
                == "http"@ || text::lower_cased(scheme) == "https"@)),
        },
{
}

/// The path of a source that is no address ends before its first question mark or hash sign.
pub proof fn a_path_ends_before_its_query(s: Seq<char>)
    ensures
        0 <= fixtures::path_end(s) <= s.len(),
        fixtures::path_end(s) < s.len() ==> s[fixtures::path_end(s)] == '?'
            || s[fixtures::path_end(s)] == '#',
        forall|i: int| 0 <= i < fixtures::path_end(s) ==> s[i] != '?' && #[trigger] s[i] != '#',
    decreases s.len(),
{
    if s.len() > 0 && s[0] != '?' && s[0] != '#' {
        a_path_ends_before_its_query(s.drop_first());
        assert forall|i: int| 0 <= i < fixtures::path_end(s) implies s[i] != '?' && #[trigger] s[i]
            != '#' by {
            if i > 0 {
                assert(s[i] == s.drop_first()[i - 1]);
            }
        }
    }
}

/// The content type of a path by its extension, in either case: JSON, playlists, media segments, and
/// plain text have their own, and everything else is bytes.
pub proof fn extensions_have_their_content_types(extension: Seq<char>)
    ensures
        ({
            let found = fixtures::type_of_extension(extension);
            &&& found == "application/json"@ <==> extension == "json"@
            &&& found == "application/vnd.apple.mpegurl"@ <==> extension == "m3u8"@
            &&& found == "video/mp4"@ <==> extension == "mp4"@ || extension == "m4s"@
            &&& found == "text/plain; charset=utf-8"@ <==> extension == "txt"@
            &&& found == "application/octet-stream"@ <==> extension != "json"@ && extension
                != "m3u8"@ && extension != "mp4"@ && extension != "m4s"@ && extension != "txt"@
        }),
{
    reveal_strlit("json");
    reveal_strlit("m3u8");
    reveal_strlit("mp4");
    reveal_strlit("m4s");
    reveal_strlit("txt");
    reveal_strlit("application/json");
    reveal_strlit("application/vnd.apple.mpegurl");
    reveal_strlit("video/mp4");
    reveal_strlit("text/plain; charset=utf-8");
    reveal_strlit("application/octet-stream");
    assert("application/json"@.len() == 16);
    assert("application/vnd.apple.mpegurl"@.len() == 29);
    assert("video/mp4"@.len() == 9);
    assert("text/plain; charset=utf-8"@.len() == 25);
    assert("application/octet-stream"@.len() == 24);
    assert("json"@[0] != "m3u8"@[0]);
    assert("json"@.len() == 4 && "m3u8"@.len() == 4 && "mp4"@.len() == 3 && "m4s"@.len() == 3
        && "txt"@.len() == 3);
    assert("mp4"@[0] != "txt"@[0]);
    assert("m4s"@[0] != "txt"@[0]);
}

/// A body that was fetched is pinned under the content type that its server gave, else under that of
/// its source, with where it was asked for and where it was found.
pub proof fn a_fetched_body_is_pinned_with_its_origin(
    entry: FixtureLockEntry,
    descriptor: FixtureDescriptor,
    body: fixtures::CachedBody,
    answer: Option<RemoteAnswer>,
)
    requires
        fixtures::pins(entry, descriptor, body, answer),
    ensures
        asks(entry.descriptor) == asks(descriptor),
        entry.sha256@ == body.sha256@,
        entry.size_bytes == body.size_bytes,
        entry.body_path@ == body.path@,
        answer matches Some(answer) ==> text::opt(entry.source_url) == Some(answer.source_url@)
            && text::opt(entry.final_url) == Some(answer.final_url@) && (
        answer.content_type matches Some(given) ==> entry.content_type@ == given@),
        answer is None ==> entry.source_url is None && entry.final_url is None,
{
}

// Byte ranges.

proof fn lemma_digits(n: nat)
    ensures
        text::decimal(n).len() > 0,
        forall|i: int| 0 <= i < text::decimal(n).len() ==> '0' <= (#[trigger] text::decimal(n)[i])
            <= '9',
    decreases n,
{
    if n >= 10 {
        lemma_digits(n / 10);
    }
}

proof fn lemma_dash(a: Seq<char>, b: Seq<char>)
    requires
        forall|i: int| 0 <= i < a.len() ==> #[trigger] a[i] != '-',
    ensures
        text::divided(a.push('-') + b, '-') == Some((a, b)),
{
    let s = a.push('-') + b;
    text::lemma_first_index(s, '-');
    let at = text::first_index(s, '-');
    assert(s[a.len() as int] == '-');
    if at < a.len() {
        assert(s[at] == a[at]);
    }
    assert(at == a.len());
    assert(s.take(at) == a);
    assert(s.skip(at + 1) == b);
}

proof fn lemma_bound(n: nat)
    requires
        n <= 9_007_199_254_740_991,
    ensures
        benchmark_host::bound_of(text::decimal(n)) == Some(n as u64),
{
    text::a_written_number_is_read_back(n);
}

proof fn lemma_range_text(a: Seq<char>, b: Seq<char>, size: int)
    requires
        forall|i: int| 0 <= i < a.len() ==> #[trigger] a[i] != '-',
        forall|i: int| 0 <= i < b.len() ==> #[trigger] b[i] != '-',
        a.len() > 0 || b.len() > 0,
        size > 0,
    ensures
        benchmark_host::range_of("bytes="@ + a + "-"@ + b, size) == benchmark_host::selected_bytes(
            a,
            b,
            size,
        ),
        benchmark_host::end_too_large("bytes="@ + a + "-"@ + b) <==> benchmark_host::bound_of(
            b,
        ) is Some && benchmark_host::bound_of(b)->0 > usize::MAX,
{
    reveal_strlit("bytes=");
    reveal_strlit("-");
    let value = "bytes="@ + a + "-"@ + b;
    let rest = value.skip("bytes="@.len() as int);
    assert(rest == a.push('-') + b);
    lemma_dash(a, b);
    assert("bytes="@.is_prefix_of(value)) by {
        assert(value.take("bytes="@.len() as int) == "bytes="@);
    }
    assert(!b.contains('-'));
}

/// A range from one byte to another selects the bytes from the first to the last, both included, as
/// far as the body goes. Where the first lies beyond the body or behind the last, nothing is selected.
pub proof fn a_range_selects_its_bytes(first: nat, last: nat, size: int)
    requires
        0 < size <= usize::MAX,
        first <= 9_007_199_254_740_991,
        last <= 9_007_199_254_740_991,
        last <= usize::MAX,
    ensures
        benchmark_host::served_range(
            "bytes="@ + text::decimal(first) + "-"@ + text::decimal(last),
            size,
        ) == if first < size && first <= last {
            Some(
                (
                    first as int,
                    if last < size {
                        (last + 1) as int
                    } else {
                        size
                    },
                ),
            )
        } else {
            None::<(int, int)>
        },
{
    lemma_digits(first);
    lemma_digits(last);
    lemma_bound(first);
    lemma_bound(last);
    lemma_range_text(text::decimal(first), text::decimal(last), size);
}

/// A range without a last byte selects everything from its first byte on.
pub proof fn an_open_range_selects_the_rest(first: nat, size: int)
    requires
        0 < size <= usize::MAX,
        first <= 9_007_199_254_740_991,
    ensures
        benchmark_host::served_range("bytes="@ + text::decimal(first) + "-"@, size) == if first
            < size {
            Some((first as int, size))
        } else {
            None::<(int, int)>
        },
{
    lemma_digits(first);
    lemma_bound(first);
    let none = Seq::<char>::empty();
    lemma_range_text(text::decimal(first), none, size);
    assert("bytes="@ + text::decimal(first) + "-"@ + none == "bytes="@ + text::decimal(first)
        + "-"@);
}

/// A range without a first byte selects as many bytes at the end as it names, or all of them where
/// there are fewer.
pub proof fn a_suffix_range_selects_the_end(count: nat, size: int)
    requires
        0 < size <= usize::MAX,
        0 < count <= 9_007_199_254_740_991,
        count <= usize::MAX,
    ensures
        benchmark_host::served_range("bytes=-"@ + text::decimal(count), size) == Some(
            (
                if count <= size {
                    size - count
                } else {
                    0
                },
                size,
            ),
        ),
{
    lemma_digits(count);
    lemma_bound(count);
    let none = Seq::<char>::empty();
    lemma_range_text(none, text::decimal(count), size);
    reveal_strlit("bytes=-");
    reveal_strlit("bytes=");
    reveal_strlit("-");
    assert("bytes="@ + none + "-"@ + text::decimal(count) == "bytes=-"@ + text::decimal(count));
}

/// A header of another unit, one with several ranges, and any range of an empty body select nothing.
pub proof fn other_ranges_select_nothing(value: Seq<char>, size: int)
    requires
        size >= 0,
    ensures
        value.len() < 6 || value.take(6) != "bytes="@ ==> benchmark_host::served_range(value, size)
            is None,
        size == 0 ==> benchmark_host::served_range(value, size) is None,
        value.contains(',') ==> benchmark_host::served_range(value, size) is None,
        benchmark_host::served_range(value, size) matches Some((start, end)) ==> 0 <= start < end
            <= size,
{
    reveal_strlit("bytes=");
    assert("bytes="@.len() == 6);
    if "bytes="@.is_prefix_of(value) {
        assert(value.take(6) == "bytes="@);
        if value.contains(',') {
            let rest = value.skip(6);
            let k = choose|k: int| 0 <= k < value.len() && value[k] == ',';
            assert(k >= 6) by {
                if k < 6 {
                    assert(value[k] == "bytes="@[k]);
                }
            }
            assert(rest[k - 6] == ',');
            text::lemma_first_index(rest, '-');
            let at = text::first_index(rest, '-');
            if at < rest.len() {
                let start = rest.take(at);
                let end = rest.skip(at + 1);
                if k - 6 < at {
                    assert(start[k - 6] == ',');
                    lemma_no_number(start, k - 6);
                } else {
                    assert(k - 6 != at);
                    assert(end[k - 6 - at - 1] == ',');
                    lemma_no_number(end, k - 6 - at - 1);
                }
            }
        }
    }
}

proof fn lemma_no_number(s: Seq<char>, i: int)
    requires
        0 <= i < s.len(),
        s[i] == ',',
    ensures
        benchmark_host::bound_of(s) is None,
{
    let digits = if s[0] == '+' {
        s.skip(1)
    } else {
        s
    };
    if text::all_digits(digits) {
        if s[0] == '+' {
            assert(digits[i - 1] == ',');
        } else {
            assert(digits[i] == ',');
        }
        assert(false);
    }
}

// Answers.

/// The headers hold a field.
pub open spec fn has_header(reply: Reply, name: Seq<char>, value: Seq<char>) -> bool {
    exists|i: int|
        0 <= i < reply.headers@.len() && (#[trigger] reply.headers@[i]).name@ == name
            && reply.headers@[i].value@ == value
}

proof fn lemma_header(reply: Reply, i: int, name: Seq<char>, value: Seq<char>)
    requires
        0 <= i < reply.headers@.len(),
        benchmark_host::header_views(reply.headers@)[i] == (name, value),
    ensures
        has_header(reply, name, value),
{
    assert(reply.headers@[i].name@ == name);
}

/// A whole fixture is answered with 200 and all of its bytes; a part of it with 206, the bytes of the
/// part and where they stand; and what it does not have with 416, no bytes and how many there are.
pub proof fn a_fixture_is_answered_in_full_or_in_part(
    reply: Reply,
    asked: Option<Option<(int, int)>>,
    size: int,
    content_type: Seq<char>,
    stream: Option<StreamDelivery>,
)
    requires
        benchmark_host::is_fixture_reply(reply, asked, size, content_type, stream),
    ensures
        match asked {
            None => {
                &&& reply.status == 200
                &&& reply.start == 0 && reply.end == size
                &&& has_header(reply, "Content-Type"@, content_type)
                &&& has_header(reply, "Accept-Ranges"@, "bytes"@)
                &&& has_header(reply, "Cache-Control"@, "no-store"@)
                &&& reply.stream == stream
            },
            Some(Some((start, end))) => {
                &&& reply.status == 206
                &&& reply.start == start && reply.end == end
                &&& has_header(reply, "Content-Type"@, content_type)
                &&& has_header(reply, "Accept-Ranges"@, "bytes"@)
                &&& has_header(reply, "Cache-Control"@, "no-store"@)
                &&& has_header(
                    reply,
                    "Content-Range"@,
                    "bytes "@ + text::decimal(start as nat) + "-"@ + text::decimal((end - 1) as nat)
                        + "/"@ + text::decimal(size as nat),
                )
                &&& reply.stream == stream
            },
            Some(None) => {
                &&& reply.status == 416
                &&& reply.start == reply.end
                &&& has_header(reply, "Content-Range"@, "bytes */"@ + text::decimal(size as nat))
                &&& reply.stream is None
            },
        },
{
    let views = benchmark_host::header_views(reply.headers@);
    assert(views.len() == reply.headers@.len());
    match asked {
        Some(None) => {
            lemma_header(reply, 0, "Content-Range"@, views[0].1);
        },
        Some(Some((start, end))) => {
            assert(views == benchmark_host::fixture_headers(Some((start, end)), size, content_type));
            assert(views.len() == 4);
            lemma_header(reply, 0, "Accept-Ranges"@, "bytes"@);
            lemma_header(reply, 1, "Cache-Control"@, "no-store"@);
            lemma_header(reply, 2, "Content-Type"@, content_type);
            lemma_header(reply, 3, "Content-Range"@, views[3].1);
        },
        None => {
            assert(views == benchmark_host::fixture_headers(None, size, content_type));
            assert(views.len() == 3);
            lemma_header(reply, 0, "Accept-Ranges"@, "bytes"@);
            lemma_header(reply, 1, "Cache-Control"@, "no-store"@);
            lemma_header(reply, 2, "Content-Type"@, content_type);
        },
    }
}

/// A request is taken apart at its first question mark: the path before it, the query behind it.
pub proof fn a_request_is_its_path_and_its_query(url: Seq<char>)
    ensures
        ({
            let (path, query) = benchmark_host::request_parts(url);
            &&& !path.contains('?')
            &&& url == path.push('?') + query || (url == path && query.len() == 0)
        }),
{
    reveal_strlit("");
    text::lemma_first_index(url, '?');
    let at = text::first_index(url, '?');
    let (path, query) = benchmark_host::request_parts(url);
    if at < url.len() {
        assert(url == path.push('?') + query);
        assert(!path.contains('?')) by {
            if path.contains('?') {
                let k = choose|k: int| 0 <= k < path.len() && path[k] == '?';
                assert(url[k] == '?');
            }
        }
    } else if path.contains('?') {
        let k = choose|k: int| 0 <= k < path.len() && path[k] == '?';
        assert(url[k] == '?');
    }
}

/// A piece is as long as it can be: it fills the buffer, or ends the part, or ends the chunk; and it
/// goes beyond none of them.
pub proof fn a_piece_is_as_long_as_it_can_be(reader: BodyReader, capacity: int)
    requires
        reader.wf(),
        capacity >= 0,
    ensures
        ({
            let length = reader.piece_length(capacity);
            let into = (reader.position - reader.start) % (reader.chunk_size as int);
            &&& 0 <= length <= capacity
            &&& length <= reader.end - reader.position
            &&& into + length <= reader.chunk_size
            &&& length == capacity || length == reader.end - reader.position || into + length
                == reader.chunk_size
        }),
{
}

/// A request for a pinned fixture is answered with that fixture's own body, as it is to be served; one
/// that is too large for the machine is refused as such.
pub proof fn a_pinned_fixture_is_answered_with_its_own_body(
    r: Result<Answer, FixtureError>,
    descriptor: FixtureDescriptor,
    entries: Seq<FixtureLockEntry>,
    i: int,
)
    requires
        benchmark_host::is_fixture_answer(r, Some(descriptor), entries, None),
        entries.len() <= usize::MAX,
        0 <= i < entries.len(),
        asks(entries[i].descriptor) == asks(descriptor),
        forall|j: int| 0 <= j < i ==> asks((#[trigger] entries[j]).descriptor) != asks(descriptor),
    ensures
        entries[i].size_bytes > usize::MAX ==> r == Err::<Answer, FixtureError>(
            FixtureError::TooLarge,
        ),
        entries[i].size_bytes <= usize::MAX ==> {
            &&& r is Ok
            &&& r->Ok_0.body == AnswerBody::Fixture(i as usize)
            &&& r->Ok_0.reply.status == 200
            &&& r->Ok_0.reply.start == 0
            &&& r->Ok_0.reply.end == entries[i].size_bytes
            &&& has_header(r->Ok_0.reply, "Content-Type"@, entries[i].served_type())
            &&& r->Ok_0.reply.stream == entries[i].delivery()
        },
{
    an_entry_is_found_by_what_it_asks_for(entries, descriptor, i);
    assert(fixtures::described(entries, entries.len() as int, descriptor));
    let k = choose|k: int| #[trigger]
        fixtures::is_entry_of(entries, descriptor, k) && benchmark_host::serves(
            r,
            entries[k],
            k,
            None,
        );
    an_entry_is_found_by_what_it_asks_for(entries, descriptor, k);
    assert(k == i) by {
        if k < i {
            assert(asks(entries[k].descriptor) != asks(descriptor));
        }
        if i < k {
            assert(asks(entries[i].descriptor) != asks(descriptor));
        }
    }
    if entries[i].size_bytes <= usize::MAX {
        a_fixture_is_answered_in_full_or_in_part(
            r->Ok_0.reply,
            None,
            entries[i].size_bytes as int,
            entries[i].served_type(),
            entries[i].delivery(),
        );
    }
}

/// What is not pinned is refused in words, and never cached.
pub proof fn an_unknown_fixture_is_refused_in_words(
    r: Result<Answer, FixtureError>,
    descriptor: Option<FixtureDescriptor>,
    entries: Seq<FixtureLockEntry>,
    range_header: Option<Seq<char>>,
)
    requires
        benchmark_host::is_fixture_answer(r, descriptor, entries, range_header),
        descriptor is Some ==> forall|i: int|
            0 <= i < entries.len() ==> asks((#[trigger] entries[i]).descriptor) != asks(
                descriptor->0,
            ),
    ensures
        r is Ok,
        r->Ok_0.reply.status == 404,
        r->Ok_0.body is Text,
        r->Ok_0.body->Text_0@ == "Unknown benchmark fixture"@,
        has_header(r->Ok_0.reply, "Cache-Control"@, "no-store"@),
        has_header(r->Ok_0.reply, "Content-Type"@, "text/plain; charset=utf-8"@),
        r->Ok_0.reply.stream is None,
{
    if descriptor is Some {
        an_entry_is_found_by_what_it_asks_for(entries, descriptor->0, 0);
    }
    let reply = r->Ok_0.reply;
    let views = benchmark_host::header_views(reply.headers@);
    assert(views.len() == reply.headers@.len());
    assert(views == benchmark_host::static_headers("text/plain; charset=utf-8"@));
    assert(views.len() == 2);
    lemma_header(reply, 0, "Cache-Control"@, "no-store"@);
    lemma_header(reply, 1, "Content-Type"@, "text/plain; charset=utf-8"@);
}

} // verus!
