//! The resources that a benchmark serves to its browser, and the lock that pins them.

use vstd::prelude::*;
use vstd::string::*;

use crate::digest;
use crate::paths;
use crate::text;

verus! {

/// The version of fixture locks.
pub const LOCK_SCHEMA_VERSION: u32 = 1;

/// How the body of a fixture is handed out in pieces.
#[derive(Clone, Copy, Debug, Eq, PartialEq, Structural)]
pub struct FixtureStream {
    pub chunk_size: usize,
    pub interval_ms: Option<u64>,
}

/// How a fixture is served.
#[derive(Clone, Debug)]
pub struct FixtureResponse {
    pub content_type: Option<String>,
    pub stream: Option<FixtureStream>,
}

/// A resource that a benchmark asks for.
#[derive(Clone, Debug)]
pub struct FixtureDescriptor {
    pub source: String,
    pub response: Option<FixtureResponse>,
}

/// A resource as it is pinned.
#[derive(Clone, Debug)]
pub struct FixtureLockEntry {
    pub descriptor: FixtureDescriptor,
    pub source_url: Option<String>,
    pub final_url: Option<String>,
    pub body_path: String,
    pub sha256: String,
    pub size_bytes: u64,
    pub content_type: String,
}

/// All resources that are pinned.
#[derive(Clone, Debug)]
pub struct FixtureLock {
    pub schema_version: u32,
    pub fixtures: Vec<FixtureLockEntry>,
}

/// How the body of a fixture is handed out in pieces, with the pause between them.
#[derive(Clone, Copy, Debug, Eq, PartialEq, Structural)]
pub struct StreamDelivery {
    pub chunk_size: usize,
    pub interval_ms: u64,
}

/// Why a descriptor, a lock, or a pinned body is refused.
#[derive(Clone, Copy, Debug, Eq, PartialEq, Structural)]
pub enum FixtureError {
    EmptySource,
    EmptyContentType,
    ZeroChunkSize,
    Schema,
    Duplicate,
    EmptyLockedContentType,
    InvalidDigest,
    /// The body does not lie in the cache under its digest.
    OutsideCache,
    /// The body is not the one that was pinned.
    Corrupt,
    /// The body is too large to be served.
    TooLarge,
}

/// What is said of an error about a lock's path or a label, and a source.
pub open spec fn fixture_error_text(
    error: FixtureError,
    about: Seq<char>,
    source: Seq<char>,
) -> Seq<char> {
    match error {
        FixtureError::EmptySource => "fixture descriptor contains an empty source"@,
        FixtureError::EmptyContentType => "fixture descriptor contains an empty content type"@,
        FixtureError::ZeroChunkSize => "fixture descriptor contains a zero stream chunk size"@,
        FixtureError::Schema => "unsupported fixture lock schema in "@ + about,
        FixtureError::Duplicate => "fixture lock contains duplicate descriptors"@,
        FixtureError::EmptyLockedContentType => "fixture lock contains an empty content type"@,
        FixtureError::InvalidDigest => about + " has an invalid content digest"@,
        FixtureError::OutsideCache => about + " is outside the content-addressed fixture cache"@,
        FixtureError::Corrupt => about + " is corrupt: "@ + source,
        FixtureError::TooLarge => "benchmark fixture is too large to serve"@,
    }
}

impl FixtureError {
    /// What is said of the error about a lock's path or a label, and a source.
    pub fn message(&self, about: &str, source: &str) -> (r: String)
        ensures
            r@ == fixture_error_text(*self, about@, source@),
    {
        match self {
            FixtureError::EmptySource => "fixture descriptor contains an empty source".to_owned(),
            FixtureError::EmptyContentType =>
                "fixture descriptor contains an empty content type".to_owned(),
            FixtureError::ZeroChunkSize =>
                "fixture descriptor contains a zero stream chunk size".to_owned(),
            FixtureError::Schema => {
                let mut out = "unsupported fixture lock schema in ".to_owned();
                out.append(about);
                out
            },
            FixtureError::Duplicate => "fixture lock contains duplicate descriptors".to_owned(),
            FixtureError::EmptyLockedContentType =>
                "fixture lock contains an empty content type".to_owned(),
            FixtureError::InvalidDigest => {
                let mut out = about.to_owned();
                out.append(" has an invalid content digest");
                out
            },
            FixtureError::OutsideCache => {
                let mut out = about.to_owned();
                out.append(" is outside the content-addressed fixture cache");
                out
            },
            FixtureError::Corrupt => {
                let mut out = about.to_owned();
                out.append(" is corrupt: ");
                out.append(source);
                out
            },
            FixtureError::TooLarge => "benchmark fixture is too large to serve".to_owned(),
        }
    }
}

// Descriptors.

/// Two responses are the same.
pub open spec fn same_response(a: Option<FixtureResponse>, b: Option<FixtureResponse>) -> bool {
    match (a, b) {
        (Some(a), Some(b)) => text::opt(a.content_type) == text::opt(b.content_type) && a.stream
            == b.stream,
        (None, None) => true,
        _ => false,
    }
}

/// Two descriptors are the same.
pub open spec fn same_descriptor(a: FixtureDescriptor, b: FixtureDescriptor) -> bool {
    a.source@ == b.source@ && same_response(a.response, b.response)
}

/// Tells whether two descriptors are the same.
pub fn descriptors_agree(a: &FixtureDescriptor, b: &FixtureDescriptor) -> (r: bool)
    ensures
        r == same_descriptor(*a, *b),
{
    if !text::same(&a.source, &b.source) {
        return false;
    }
    match (&a.response, &b.response) {
        (Some(x), Some(y)) => text::same_opt(&x.content_type, &y.content_type) && match (
            x.stream,
            y.stream,
        ) {
            (Some(p), Some(q)) => p.chunk_size == q.chunk_size && match (
                p.interval_ms,
                q.interval_ms,
            ) {
                (Some(m), Some(n)) => m == n,
                (None, None) => true,
                _ => false,
            },
            (None, None) => true,
            _ => false,
        },
        (None, None) => true,
        _ => false,
    }
}

/// Why a descriptor is refused, if it is.
pub open spec fn descriptor_failure(descriptor: FixtureDescriptor) -> Option<FixtureError> {
    if text::blank(descriptor.source@) {
        Some(FixtureError::EmptySource)
    } else if descriptor.response is Some && descriptor.response->0.content_type is Some
        && text::blank(descriptor.response->0.content_type->0@) {
        Some(FixtureError::EmptyContentType)
    } else if descriptor.response is Some && descriptor.response->0.stream is Some
        && descriptor.response->0.stream->0.chunk_size == 0 {
        Some(FixtureError::ZeroChunkSize)
    } else {
        None
    }
}

fn is_blank(value: &str) -> (r: bool)
    ensures
        r == text::blank(value@),
{
    proof {
        text::lemma_trimmed_blank(value@);
    }
    text::trim(value).as_str().is_empty()
}

/// Checks that a descriptor names a source, and that what it says of the response makes sense.
pub fn validate_descriptor(descriptor: &FixtureDescriptor) -> (r: Result<(), FixtureError>)
    ensures
        match descriptor_failure(*descriptor) {
            Some(error) => r == Err::<(), FixtureError>(error),
            None => r == Ok::<(), FixtureError>(()),
        },
{
    if is_blank(&descriptor.source) {
        return Err(FixtureError::EmptySource);
    }
    if let Some(response) = &descriptor.response {
        if let Some(content_type) = &response.content_type {
            if is_blank(content_type) {
                return Err(FixtureError::EmptyContentType);
            }
        }
        if let Some(stream) = response.stream {
            if stream.chunk_size == 0 {
                return Err(FixtureError::ZeroChunkSize);
            }
        }
    }
    Ok(())
}

// Locks.

/// Some of the first `n` entries has the descriptor.
pub open spec fn described(
    entries: Seq<FixtureLockEntry>,
    n: int,
    descriptor: FixtureDescriptor,
) -> bool {
    exists|i: int| 0 <= i < n && same_descriptor((#[trigger] entries[i]).descriptor, descriptor)
}

/// Why the first `n` entries of a lock are refused, if they are.
pub open spec fn entries_failure(entries: Seq<FixtureLockEntry>, n: int) -> Option<FixtureError>
    decreases n,
{
    if n <= 0 {
        None
    } else if entries_failure(entries, n - 1) is Some {
        entries_failure(entries, n - 1)
    } else if descriptor_failure(entries[n - 1].descriptor) is Some {
        descriptor_failure(entries[n - 1].descriptor)
    } else if described(entries, n - 1, entries[n - 1].descriptor) {
        Some(FixtureError::Duplicate)
    } else if text::blank(entries[n - 1].content_type@) {
        Some(FixtureError::EmptyLockedContentType)
    } else {
        None
    }
}

/// Why a lock is refused, if it is.
pub open spec fn lock_failure(lock: FixtureLock) -> Option<FixtureError> {
    if lock.schema_version != LOCK_SCHEMA_VERSION {
        Some(FixtureError::Schema)
    } else {
        entries_failure(lock.fixtures@, lock.fixtures@.len() as int)
    }
}

proof fn lemma_entries_failure(entries: Seq<FixtureLockEntry>, n: int, m: int)
    requires
        0 <= n <= m,
        entries_failure(entries, n) is Some,
    ensures
        entries_failure(entries, m) == entries_failure(entries, n),
    decreases m - n,
{
    if n < m {
        lemma_entries_failure(entries, n, m - 1);
    }
}

fn is_described(entries: &Vec<FixtureLockEntry>, n: usize, descriptor: &FixtureDescriptor) -> (r:
    bool)
    requires
        n <= entries@.len(),
    ensures
        r == described(entries@, n as int, *descriptor),
{
    let mut i: usize = 0;
    while i < n
        invariant
            i <= n <= entries@.len(),
            forall|j: int|
                0 <= j < i ==> !same_descriptor((#[trigger] entries@[j]).descriptor, *descriptor),
        decreases n - i,
    {
        if descriptors_agree(&entries[i].descriptor, descriptor) {
            return true;
        }
        i += 1;
    }
    false
}

/// Checks a lock: every entry has a proper descriptor that no other has, and a content type.
pub fn read_lock(lock: &FixtureLock) -> (r: Result<(), FixtureError>)
    ensures
        match lock_failure(*lock) {
            Some(error) => r == Err::<(), FixtureError>(error),
            None => r == Ok::<(), FixtureError>(()),
        },
{
    if lock.schema_version != LOCK_SCHEMA_VERSION {
        return Err(FixtureError::Schema);
    }
    let entries = &lock.fixtures;
    let mut i: usize = 0;
    while i < entries.len()
        invariant
            i <= entries@.len(),
            *entries == lock.fixtures,
            lock_failure(*lock) == entries_failure(entries@, entries@.len() as int),
            entries_failure(entries@, i as int) is None,
        decreases entries@.len() - i,
    {
        proof {
            if entries_failure(entries@, i + 1) is Some {
                lemma_entries_failure(entries@, i + 1, entries@.len() as int);
            }
        }
        if let Err(error) = validate_descriptor(&entries[i].descriptor) {
            return Err(error);
        }
        if is_described(entries, i, &entries[i].descriptor) {
            return Err(FixtureError::Duplicate);
        }
        if is_blank(&entries[i].content_type) {
            return Err(FixtureError::EmptyLockedContentType);
        }
        i += 1;
    }
    Ok(())
}

/// The first entry with a descriptor.
pub open spec fn is_entry_of(
    entries: Seq<FixtureLockEntry>,
    descriptor: FixtureDescriptor,
    i: int,
) -> bool {
    &&& 0 <= i < entries.len()
    &&& same_descriptor(entries[i].descriptor, descriptor)
    &&& forall|j: int|
        0 <= j < i ==> !same_descriptor((#[trigger] entries[j]).descriptor, descriptor)
}

/// Finds the entry with a descriptor.
pub fn find(entries: &Vec<FixtureLockEntry>, descriptor: &FixtureDescriptor) -> (r: Option<usize>)
    ensures
        match r {
            Some(i) => is_entry_of(entries@, *descriptor, i as int),
            None => !described(entries@, entries@.len() as int, *descriptor),
        },
{
    let mut i: usize = 0;
    while i < entries.len()
        invariant
            i <= entries@.len(),
            forall|j: int|
                0 <= j < i ==> !same_descriptor((#[trigger] entries@[j]).descriptor, *descriptor),
        decreases entries@.len() - i,
    {
        if descriptors_agree(&entries[i].descriptor, descriptor) {
            return Some(i);
        }
        i += 1;
    }
    None
}

/// In a lock that is accepted, a descriptor has one entry at most.
pub proof fn a_descriptor_is_pinned_once(lock: FixtureLock, i: int, j: int)
    requires
        lock_failure(lock) is None,
        0 <= i < lock.fixtures@.len(),
        0 <= j < lock.fixtures@.len(),
        same_descriptor(lock.fixtures@[i].descriptor, lock.fixtures@[j].descriptor),
    ensures
        i == j,
{
    let entries = lock.fixtures@;
    if i < j {
        lemma_entry_accepted(entries, j, entries.len() as int);
        assert(described(entries, j, entries[j].descriptor));
    } else if j < i {
        lemma_entry_accepted(entries, i, entries.len() as int);
        assert(same_descriptor(entries[j].descriptor, entries[i].descriptor));
        assert(described(entries, i, entries[i].descriptor));
    }
}

proof fn lemma_entry_accepted(entries: Seq<FixtureLockEntry>, i: int, n: int)
    requires
        0 <= i < n <= entries.len(),
        entries_failure(entries, n) is None,
    ensures
        entries_failure(entries, i + 1) is None,
    decreases n,
{
    if i + 1 < n {
        lemma_entry_accepted(entries, i, n - 1);
    }
}

// Pinned bodies.

/// Every character is a hexadecimal digit, and there are as many as a digest has.
pub open spec fn is_cache_key(digest: Seq<char>) -> bool {
    digest.len() == 64 && forall|i: int| 0 <= i < digest.len() ==> digest::is_hex(#[trigger] digest[i])
}

fn cache_key(value: &str) -> (r: bool)
    ensures
        r == is_cache_key(value@),
{
    let chars = text::chars_of(value);
    if chars.len() != 64 {
        return false;
    }
    let mut i: usize = 0;
    while i < chars.len()
        invariant
            i <= chars@.len(),
            chars@ == value@,
            forall|j: int| 0 <= j < i ==> digest::is_hex(#[trigger] value@[j]),
        decreases chars@.len() - i,
    {
        if !digest::hex(chars[i]) {
            assert(!digest::is_hex(value@[i as int]));
            return false;
        }
        i += 1;
    }
    true
}

/// Checks that a body lies in the cache under its digest. `resolved` is the body's path without
/// links, which is asked for only where the digest is one.
pub fn cached_object_path(cache_root: &str, digest: &str, resolved: &str) -> (r: Result<
    (),
    FixtureError,
>)
    ensures
        r == if !is_cache_key(digest@) {
            Err::<(), FixtureError>(FixtureError::InvalidDigest)
        } else if paths::parts(resolved@) != paths::parts(paths::joined(cache_root@, digest@)) {
            Err::<(), FixtureError>(FixtureError::OutsideCache)
        } else {
            Ok::<(), FixtureError>(())
        },
{
    if !cache_key(digest) {
        return Err(FixtureError::InvalidDigest);
    }
    if !paths::same_path(resolved, &paths::join(cache_root, digest)) {
        return Err(FixtureError::OutsideCache);
    }
    Ok(())
}

/// Checks that a body has the size and the digest that were pinned.
pub fn validate_body(entry: &FixtureLockEntry, size: u64, digest: &str) -> (r: Result<
    (),
    FixtureError,
>)
    ensures
        r == if size == entry.size_bytes && digest@ == entry.sha256@ {
            Ok::<(), FixtureError>(())
        } else {
            Err::<(), FixtureError>(FixtureError::Corrupt)
        },
{
    if size != entry.size_bytes || !text::same(digest, &entry.sha256) {
        return Err(FixtureError::Corrupt);
    }
    Ok(())
}

/// Checks that bytes are those of the body that was pinned.
pub fn validate_bytes(entry: &FixtureLockEntry, body: &[u8]) -> (r: Result<(), FixtureError>)
    ensures
        r == if body@.len() == entry.size_bytes && digest::sha256(body@) == entry.sha256@ {
            Ok::<(), FixtureError>(())
        } else {
            Err::<(), FixtureError>(FixtureError::Corrupt)
        },
{
    validate_body(entry, body.len() as u64, &digest::sha256_hex(body))
}

/// Checks that the digest of a pinned body can be that of a body in the cache.
pub fn check_cache_key(entry: &FixtureLockEntry) -> (r: Result<(), FixtureError>)
    ensures
        r == if is_cache_key(entry.sha256@) {
            Ok::<(), FixtureError>(())
        } else {
            Err::<(), FixtureError>(FixtureError::InvalidDigest)
        },
{
    if !cache_key(&entry.sha256) {
        return Err(FixtureError::InvalidDigest);
    }
    Ok(())
}

/// Why bytes are refused as the pinned body of an entry, if they are: they lie elsewhere than in the
/// cache under the pinned digest, or they have another size or another digest.
pub open spec fn pinned_failure(
    entry: FixtureLockEntry,
    cache_root: Seq<char>,
    resolved: Seq<char>,
    body: Seq<u8>,
) -> Option<FixtureError> {
    if !is_cache_key(entry.sha256@) {
        Some(FixtureError::InvalidDigest)
    } else if paths::parts(resolved) != paths::parts(paths::joined(cache_root, entry.sha256@)) {
        Some(FixtureError::OutsideCache)
    } else if body.len() != entry.size_bytes || digest::sha256(body) != entry.sha256@ {
        Some(FixtureError::Corrupt)
    } else {
        None
    }
}

/// Keeps a pinned entry, given the place of its body without links and the bytes that lie there.
pub fn keep_pinned(
    entry: FixtureLockEntry,
    cache_root: &str,
    resolved: String,
    body: &[u8],
) -> (r: Result<FixtureLockEntry, FixtureError>)
    ensures
        match pinned_failure(entry, cache_root@, resolved@, body@) {
            Some(error) => r == Err::<FixtureLockEntry, FixtureError>(error),
            None => r == Ok::<FixtureLockEntry, FixtureError>(
                (FixtureLockEntry { body_path: resolved, ..entry }),
            ),
        },
{
    if let Err(error) = cached_object_path(cache_root, &entry.sha256, &resolved) {
        return Err(error);
    }
    if let Err(error) = validate_bytes(&entry, body) {
        return Err(error);
    }
    let mut kept = entry;
    kept.body_path = resolved;
    Ok(kept)
}

impl FixtureLockEntry {
    /// The content type that is served: what the descriptor says, or what was found.
    pub open spec fn served_type(self) -> Seq<char> {
        if self.descriptor.response is Some && self.descriptor.response->0.content_type is Some {
            self.descriptor.response->0.content_type->0@
        } else {
            self.content_type@
        }
    }

    /// The content type that is served.
    pub fn content_type(&self) -> (r: &str)
        ensures
            r@ == self.served_type(),
    {
        if let Some(response) = &self.descriptor.response {
            if let Some(content_type) = &response.content_type {
                return content_type.as_str();
            }
        }
        self.content_type.as_str()
    }

    /// How the body is handed out in pieces; without a pause where none is asked for.
    pub open spec fn delivery(self) -> Option<StreamDelivery> {
        if self.descriptor.response is Some && self.descriptor.response->0.stream is Some {
            let stream = self.descriptor.response->0.stream->0;
            Some(
                StreamDelivery {
                    chunk_size: stream.chunk_size,
                    interval_ms: match stream.interval_ms {
                        Some(interval) => interval,
                        None => 0,
                    },
                },
            )
        } else {
            None
        }
    }

    /// How the body is handed out in pieces.
    pub fn stream(&self) -> (r: Option<StreamDelivery>)
        ensures
            r == self.delivery(),
    {
        if let Some(response) = &self.descriptor.response {
            if let Some(stream) = response.stream {
                let interval_ms: u64 = match stream.interval_ms {
                    Some(interval) => interval,
                    None => 0,
                };
                return Some(StreamDelivery { chunk_size: stream.chunk_size, interval_ms });
            }
        }
        None
    }

    /// The size of the body, where it can be served.
    pub fn size(&self) -> (r: Result<usize, FixtureError>)
        ensures
            r == if self.size_bytes <= usize::MAX {
                Ok::<usize, FixtureError>(self.size_bytes as usize)
            } else {
                Err::<usize, FixtureError>(FixtureError::TooLarge)
            },
    {
        if self.size_bytes > usize::MAX as u64 {
            return Err(FixtureError::TooLarge);
        }
        Ok(self.size_bytes as usize)
    }
}

// Where fixtures come from.

/// The parts of an address.
#[derive(Clone, Debug)]
pub struct UriParts {
    pub scheme: Option<String>,
    pub authority: Option<String>,
    pub path: String,
    /// The whole address.
    pub text: String,
}

/// The parts of an address, viewed: its scheme, its authority, its path, and the whole.
pub open spec fn uri_view(uri: Option<UriParts>) -> Option<
    (Option<Seq<char>>, Option<Seq<char>>, Seq<char>, Seq<char>),
> {
    match uri {
        Some(uri) => Some(
            (text::opt(uri.scheme), text::opt(uri.authority), uri.path@, uri.text@),
        ),
        None => None,
    }
}

/// What `http::Uri` makes of a text: scheme, authority, path, and the whole as it writes it.
pub uninterp spec fn parsed_uri(source: Seq<char>) -> Option<
    (Option<Seq<char>>, Option<Seq<char>>, Seq<char>, Seq<char>),
>;

/// Calls `<http::Uri as FromStr>::from_str`, and takes the address apart with `scheme_str`,
/// `authority`, `path`, and `to_string`. All of them depend on the text alone. Nothing is claimed
/// of which texts are addresses.
#[verifier::external_body]
pub(crate) fn parse_uri(source: &str) -> (r: Option<UriParts>)
    ensures
        uri_view(r) == parsed_uri(source@),
{
    let uri = source.parse::<ureq::http::Uri>().ok()?;
    Some(UriParts {
        scheme: uri.scheme_str().map(str::to_owned),
        authority: uri.authority().map(ToString::to_string),
        path: uri.path().to_owned(),
        text: uri.to_string(),
    })
}

/// The address is one of a server that speaks HTTP.
pub open spec fn is_remote(
    uri: (Option<Seq<char>>, Option<Seq<char>>, Seq<char>, Seq<char>),
) -> bool {
    &&& uri.1 is Some
    &&& uri.0 is Some
    &&& (text::lower_cased(uri.0->0) == "http"@ || text::lower_cased(uri.0->0) == "https"@)
}

/// The address of a source on a server, given what it parses as.
pub open spec fn remote_text(
    uri: Option<(Option<Seq<char>>, Option<Seq<char>>, Seq<char>, Seq<char>)>,
) -> Option<Seq<char>> {
    match uri {
        Some(uri) => if is_remote(uri) {
            Some(uri.3)
        } else {
            None
        },
        None => None,
    }
}

/// The address of a source on a server, given what it parses as.
pub fn remote_address(uri: &Option<UriParts>) -> (r: Option<String>)
    ensures
        text::opt(r) == remote_text(uri_view(*uri)),
{
    match uri {
        None => None,
        Some(uri) => {
            if uri.authority.is_none() {
                return None;
            }
            match &uri.scheme {
                None => None,
                Some(scheme) => {
                    let lower = text::lower_text(scheme);
                    if text::same(&lower, "http") || text::same(&lower, "https") {
                        Some(uri.text.clone())
                    } else {
                        None
                    }
                },
            }
        },
    }
}

/// The address of a source, where it lies on a server.
pub fn remote_uri(source: &str) -> (r: Option<String>)
    ensures
        text::opt(r) == remote_text(parsed_uri(source@)),
{
    remote_address(&parse_uri(source))
}

/// Where a question mark or a hash sign first stands in a text; the length where none does.
pub open spec fn path_end(s: Seq<char>) -> int
    decreases s.len(),
{
    if s.len() == 0 || s[0] == '?' || s[0] == '#' {
        0
    } else {
        1 + path_end(s.drop_first())
    }
}

/// The path of a source, given what it parses as.
pub open spec fn source_path(
    uri: Option<(Option<Seq<char>>, Option<Seq<char>>, Seq<char>, Seq<char>)>,
    source: Seq<char>,
) -> Seq<char> {
    match uri {
        Some(uri) => uri.2,
        None => source.take(path_end(source)),
    }
}

/// The content type of a path, by its extension.
pub open spec fn type_of_path(path: Seq<char>) -> Seq<char> {
    match paths::extension_of(path) {
        Some(extension) => type_of_extension(text::lower_cased(extension)),
        None => "application/octet-stream"@,
    }
}

/// The content type of an extension in lower case.
pub open spec fn type_of_extension(extension: Seq<char>) -> Seq<char> {
    if extension == "json"@ {
        "application/json"@
    } else if extension == "m3u8"@ {
        "application/vnd.apple.mpegurl"@
    } else if extension == "mp4"@ || extension == "m4s"@ {
        "video/mp4"@
    } else if extension == "txt"@ {
        "text/plain; charset=utf-8"@
    } else {
        "application/octet-stream"@
    }
}

proof fn lemma_path_end(s: Seq<char>, i: int)
    requires
        0 <= i <= s.len(),
        i < s.len() ==> s[i] == '?' || s[i] == '#',
        forall|j: int| 0 <= j < i ==> s[j] != '?' && s[j] != '#',
    ensures
        path_end(s) == i,
    decreases s.len(),
{
    if i > 0 {
        assert forall|j: int| 0 <= j < i - 1 implies s.drop_first()[j] != '?'
            && s.drop_first()[j] != '#' by {
            assert(s.drop_first()[j] == s[j + 1]);
        }
        lemma_path_end(s.drop_first(), i - 1);
    }
}

fn before_query(source: &str) -> (r: String)
    ensures
        r@ == source@.take(path_end(source@)),
{
    let chars = text::chars_of(source);
    let mut i: usize = 0;
    while i < chars.len() && chars[i] != '?' && chars[i] != '#'
        invariant
            chars@ == source@,
            i <= chars@.len(),
            forall|j: int| 0 <= j < i ==> source@[j] != '?' && source@[j] != '#',
        decreases chars@.len() - i,
    {
        i += 1;
    }
    proof {
        lemma_path_end(source@, i as int);
    }
    assert(source@.subrange(0, i as int) == source@.take(i as int));
    text::text_of(&chars, 0, i)
}

/// The content type of a source by its extension, given what it parses as.
pub fn type_by_extension(uri: &Option<UriParts>, source: &str) -> (r: String)
    ensures
        r@ == type_of_path(source_path(uri_view(*uri), source@)),
{
    let path = match uri {
        Some(uri) => uri.path.clone(),
        None => before_query(source),
    };
    let extension = match paths::extension(&path) {
        Some(extension) => text::lower_text(&extension),
        None => {
            return "application/octet-stream".to_owned();
        },
    };
    if text::same(&extension, "json") {
        "application/json".to_owned()
    } else if text::same(&extension, "m3u8") {
        "application/vnd.apple.mpegurl".to_owned()
    } else if text::same(&extension, "mp4") || text::same(&extension, "m4s") {
        "video/mp4".to_owned()
    } else if text::same(&extension, "txt") {
        "text/plain; charset=utf-8".to_owned()
    } else {
        "application/octet-stream".to_owned()
    }
}

/// The content type of a source, by the extension of its path.
pub fn inferred_content_type(source: &str) -> (r: String)
    ensures
        r@ == type_of_path(source_path(parsed_uri(source@), source@)),
{
    type_by_extension(&parse_uri(source), source)
}

/// Where the body of a fixture is taken from.
#[derive(Clone, Debug)]
pub enum FixtureOrigin {
    /// The pinned body of the entry with this index.
    Pinned(usize),
    /// A server, at this address.
    Remote(String),
    /// The file that the descriptor names.
    Local,
}

/// The entry is one that was taken from a server.
pub open spec fn came_from_server(entry: FixtureLockEntry) -> bool {
    entry.source_url is Some && entry.source_url->0@.len() > 0
}

/// The origin is where the body of a fixture is taken from: a pinned body where one came from a
/// server, else the server or the file that the descriptor names.
pub open spec fn is_origin(
    origin: FixtureOrigin,
    descriptor: FixtureDescriptor,
    entries: Seq<FixtureLockEntry>,
) -> bool {
    match origin {
        FixtureOrigin::Pinned(i) => is_entry_of(entries, descriptor, i as int) && came_from_server(
            entries[i as int],
        ),
        FixtureOrigin::Remote(address) => {
            &&& remote_text(parsed_uri(descriptor.source@)) == Some(address@)
            &&& forall|i: int|
                is_entry_of(entries, descriptor, i) ==> !came_from_server(#[trigger] entries[i])
        },
        FixtureOrigin::Local => {
            &&& remote_text(parsed_uri(descriptor.source@)) is None
            &&& forall|i: int|
                is_entry_of(entries, descriptor, i) ==> !came_from_server(#[trigger] entries[i])
        },
    }
}

/// Settles where the body of a fixture is taken from.
pub fn resolve(descriptor: &FixtureDescriptor, entries: &Vec<FixtureLockEntry>) -> (r: Result<
    FixtureOrigin,
    FixtureError,
>)
    ensures
        match descriptor_failure(*descriptor) {
            Some(error) => r == Err::<FixtureOrigin, FixtureError>(error),
            None => r is Ok && is_origin(r->Ok_0, *descriptor, entries@),
        },
{
    if let Err(error) = validate_descriptor(descriptor) {
        return Err(error);
    }
    if let Some(i) = find(entries, descriptor) {
        if let Some(source_url) = &entries[i].source_url {
            if !source_url.as_str().is_empty() {
                return Ok(FixtureOrigin::Pinned(i));
            }
        }
    }
    match remote_uri(&descriptor.source) {
        Some(address) => Ok(FixtureOrigin::Remote(address)),
        None => Ok(FixtureOrigin::Local),
    }
}

/// A body that came from a server is pinned: it is never fetched again while its entry is there.
pub proof fn a_pinned_body_is_not_fetched_again(
    origin: FixtureOrigin,
    descriptor: FixtureDescriptor,
    entries: Seq<FixtureLockEntry>,
    i: int,
)
    requires
        is_origin(origin, descriptor, entries),
        is_entry_of(entries, descriptor, i),
        came_from_server(entries[i]),
    ensures
        origin == FixtureOrigin::Pinned(i as usize),
{
    if let FixtureOrigin::Pinned(j) = origin {
        if j < i {
            assert(same_descriptor(entries[j as int].descriptor, descriptor));
        } else if i < j {
            assert(same_descriptor(entries[i].descriptor, descriptor));
        }
    }
}

// Acquired bodies.

/// A body as it lies in the cache.
#[derive(Clone, Debug)]
pub struct CachedBody {
    pub path: String,
    pub sha256: String,
    pub size_bytes: u64,
}

/// Where a body is put in the cache: under its digest.
pub fn object_path(cache_root: &str, body: &[u8]) -> (r: String)
    ensures
        r@ == paths::joined(cache_root@, digest::sha256(body@)),
{
    paths::join(cache_root, &digest::sha256_hex(body))
}

/// A body that lies at a place.
pub fn cached_body(path: String, body: &[u8]) -> (r: CachedBody)
    ensures
        r.path@ == path@,
        r.sha256@ == digest::sha256(body@),
        r.size_bytes == body@.len(),
        is_cache_key(r.sha256@),
{
    let sha256 = digest::sha256_hex(body);
    assert forall|i: int| 0 <= i < sha256@.len() implies digest::is_hex(
        #[trigger] sha256@[i],
    ) by {
        assert(digest::is_lower_hex(sha256@[i]));
    }
    CachedBody { path, sha256, size_bytes: body.len() as u64 }
}

/// The body lies in the cache under the digest of its content.
pub open spec fn caches(body: CachedBody, cache_root: Seq<char>, content: Seq<u8>) -> bool {
    &&& body.sha256@ == digest::sha256(content)
    &&& is_cache_key(body.sha256@)
    &&& body.size_bytes == content.len()
    &&& paths::parts(body.path@) == paths::parts(paths::joined(cache_root, body.sha256@))
}

/// Accepts a body that was put in the cache, given its place without links and its content.
pub fn cache_body(cache_root: &str, resolved: String, content: &[u8]) -> (r: Result<
    CachedBody,
    FixtureError,
>)
    ensures
        match r {
            Ok(body) => body.path@ == resolved@ && caches(body, cache_root@, content@),
            Err(error) => {
                &&& error == FixtureError::OutsideCache
                &&& paths::parts(resolved@) != paths::parts(
                    paths::joined(cache_root@, digest::sha256(content@)),
                )
            },
        },
{
    let body = cached_body(resolved, content);
    match cached_object_path(cache_root, &body.sha256, &body.path) {
        Err(error) => Err(error),
        Ok(_) => Ok(body),
    }
}

/// What a server said of a body: where it was asked for, where it was found, and its type.
#[derive(Clone, Debug)]
pub struct RemoteAnswer {
    pub source_url: String,
    pub final_url: String,
    pub content_type: Option<String>,
}

/// The type of a body: the one that its server gave, else the one that its source suggests.
pub open spec fn acquired_type(source: Seq<char>, answer: Option<RemoteAnswer>) -> Seq<char> {
    match answer {
        Some(RemoteAnswer { content_type: Some(content_type), .. }) => content_type@,
        _ => type_of_path(source_path(parsed_uri(source), source)),
    }
}

/// The entry pins a body that was acquired for a descriptor.
pub open spec fn pins(
    entry: FixtureLockEntry,
    descriptor: FixtureDescriptor,
    body: CachedBody,
    answer: Option<RemoteAnswer>,
) -> bool {
    &&& entry.descriptor == descriptor
    &&& entry.body_path == body.path
    &&& entry.sha256 == body.sha256
    &&& entry.size_bytes == body.size_bytes
    &&& entry.content_type@ == acquired_type(descriptor.source@, answer)
    &&& match answer {
        Some(answer) => entry.source_url == Some(answer.source_url) && entry.final_url == Some(
            answer.final_url,
        ),
        None => entry.source_url is None && entry.final_url is None,
    }
}

/// Pins a body that was acquired for a descriptor, from a server where there is an answer of one.
pub fn acquire(
    descriptor: FixtureDescriptor,
    body: CachedBody,
    answer: Option<RemoteAnswer>,
) -> (r: FixtureLockEntry)
    ensures
        pins(r, descriptor, body, answer),
{
    let fallback = inferred_content_type(&descriptor.source);
    let (source_url, final_url, content_type) = match answer {
        Some(answer) => (
            Some(answer.source_url),
            Some(answer.final_url),
            match answer.content_type {
                Some(content_type) => content_type,
                None => fallback,
            },
        ),
        None => (None, None, fallback),
    };
    FixtureLockEntry {
        descriptor,
        source_url,
        final_url,
        body_path: body.path,
        sha256: body.sha256,
        size_bytes: body.size_bytes,
        content_type,
    }
}

/// The places of the bodies that are pinned.
pub open spec fn body_paths(entries: Seq<FixtureLockEntry>) -> Seq<Seq<char>> {
    Seq::new(entries.len(), |i: int| entries[i].body_path@)
}

/// Lists the places of the bodies that are pinned, in order.
pub fn fixture_files(entries: &Vec<FixtureLockEntry>) -> (r: Vec<String>)
    ensures
        r@.len() == entries@.len(),
        paths::not_descending(text::views(r@)),
        text::views(r@).to_multiset() == body_paths(entries@).to_multiset(),
{
    let mut out: Vec<String> = Vec::new();
    let mut i: usize = 0;
    while i < entries.len()
        invariant
            i <= entries@.len(),
            text::views(out@) == body_paths(entries@).take(i as int),
        decreases entries@.len() - i,
    {
        out.push(entries[i].body_path.as_str().to_owned());
        assert(text::views(out@) == body_paths(entries@).take(i as int).push(
            body_paths(entries@)[i as int],
        ));
        i += 1;
    }
    assert(body_paths(entries@).take(i as int) == body_paths(entries@));
    let sorted = paths::sort_paths(&out);
    proof {
        text::views(sorted@).to_multiset_ensures();
        body_paths(entries@).to_multiset_ensures();
    }
    sorted
}

/// A body that was acquired from a server is pinned to what the server sent, and comes from the
/// lock from then on.
pub proof fn an_acquired_body_stays_pinned(
    entry: FixtureLockEntry,
    descriptor: FixtureDescriptor,
    body: CachedBody,
    answer: RemoteAnswer,
    entries: Seq<FixtureLockEntry>,
    i: int,
    origin: FixtureOrigin,
)
    requires
        pins(entry, descriptor, body, Some(answer)),
        answer.source_url@.len() > 0,
        0 <= i < entries.len(),
        entries[i] == entry,
        forall|j: int|
            0 <= j < i ==> !same_descriptor((#[trigger] entries[j]).descriptor, descriptor),
        is_origin(origin, descriptor, entries),
    ensures
        origin == FixtureOrigin::Pinned(i as usize),
{
    assert(same_descriptor(entries[i].descriptor, descriptor));
    a_pinned_body_is_not_fetched_again(origin, descriptor, entries, i);
}

/// Other paths at one place make another list of paths.
proof fn lemma_other_path(places: Seq<Seq<char>>, i: int, place: Seq<char>)
    requires
        0 <= i < places.len(),
        places[i] != place,
    ensures
        places.update(i, place).to_multiset() != places.to_multiset(),
{
    broadcast use vstd::multiset::group_multiset_axioms;

    let rest = places.remove(i);
    assert(rest.insert(i, places[i]) == places);
    assert(rest.insert(i, place) == places.update(i, place));
    vstd::seq_lib::to_multiset_insert(rest, i, places[i]);
    vstd::seq_lib::to_multiset_insert(rest, i, place);
    assert(places.update(i, place).to_multiset().count(place) == rest.to_multiset().count(place)
        + 1);
    assert(places.to_multiset().count(place) == rest.to_multiset().count(place));
}

/// A file of the project is read anew whenever fixtures are resolved: what an earlier lock pinned for
/// it is not taken, and the new entry pins the bytes that the file holds now. Where these have
/// another digest, they lie elsewhere, so that the list of bodies is another too.
pub proof fn a_changed_file_is_pinned_anew(
    descriptor: FixtureDescriptor,
    entries: Seq<FixtureLockEntry>,
    i: int,
    origin: FixtureOrigin,
    cache_root: Seq<char>,
    first_body: CachedBody,
    first_content: Seq<u8>,
    second: FixtureLockEntry,
    second_body: CachedBody,
    second_content: Seq<u8>,
)
    requires
        remote_text(parsed_uri(descriptor.source@)) is None,
        is_entry_of(entries, descriptor, i),
        pins(entries[i], entries[i].descriptor, first_body, None),
        caches(first_body, cache_root, first_content),
        is_origin(origin, descriptor, entries),
        pins(second, descriptor, second_body, None),
        caches(second_body, cache_root, second_content),
    ensures
        origin is Local,
        second.sha256@ == digest::sha256(second_content),
        second.size_bytes == second_content.len(),
        digest::sha256(second_content) != digest::sha256(first_content) ==> body_paths(
            entries.update(i, second),
        ).to_multiset() != body_paths(entries).to_multiset(),
{
    if let FixtureOrigin::Pinned(j) = origin {
        if j < i {
            assert(same_descriptor(entries[j as int].descriptor, descriptor));
        } else if i < j {
            assert(same_descriptor(entries[i].descriptor, descriptor));
        }
    }
    if second_body.sha256@ != first_body.sha256@ {
        lemma_key_is_name(first_body.sha256@);
        lemma_key_is_name(second_body.sha256@);
        paths::lemma_joined_name(cache_root, first_body.sha256@);
        paths::lemma_joined_name(cache_root, second_body.sha256@);
        assert(second.body_path@ != entries[i].body_path@);
        lemma_other_path(body_paths(entries), i, second.body_path@);
        assert(body_paths(entries.update(i, second)) == body_paths(entries).update(
            i,
            second.body_path@,
        ));
    }
}

proof fn lemma_key_is_name(key: Seq<char>)
    requires
        is_cache_key(key),
    ensures
        paths::is_name(key),
{
    assert forall|i: int| 0 <= i < key.len() implies #[trigger] key[i] != '/' by {
        assert(digest::is_hex(key[i]));
    }
}

/// A fixture that came from a server is taken from the lock whenever fixtures are resolved again, and
/// the bytes that lie in the cache decide: those with the pinned size and digest keep the entry, and
/// with it the list of bodies, and all others are refused as corrupt.
pub proof fn a_pinned_fixture_is_kept_or_refused(
    descriptor: FixtureDescriptor,
    entries: Seq<FixtureLockEntry>,
    i: int,
    origin: FixtureOrigin,
    cache_root: Seq<char>,
    body: CachedBody,
    answer: RemoteAnswer,
    content: Seq<u8>,
    found: Seq<u8>,
)
    requires
        is_entry_of(entries, descriptor, i),
        pins(entries[i], entries[i].descriptor, body, Some(answer)),
        answer.source_url@.len() > 0,
        caches(body, cache_root, content),
        is_origin(origin, descriptor, entries),
    ensures
        origin == FixtureOrigin::Pinned(i as usize),
        pinned_failure(entries[i], cache_root, entries[i].body_path@, found) == if found.len()
            == content.len() && digest::sha256(found) == digest::sha256(content) {
            None::<FixtureError>
        } else {
            Some(FixtureError::Corrupt)
        },
        forall|resolved: String| #[trigger]
            resolved@ == entries[i].body_path@ ==> body_paths(
                entries.update(i, (FixtureLockEntry { body_path: resolved, ..entries[i] })),
            ) == body_paths(entries),
{
    a_pinned_body_is_not_fetched_again(origin, descriptor, entries, i);
    assert forall|resolved: String| #[trigger]
        resolved@ == entries[i].body_path@ implies body_paths(
        entries.update(i, (FixtureLockEntry { body_path: resolved, ..entries[i] })),
    ) == body_paths(entries) by {
        let kept = FixtureLockEntry { body_path: resolved, ..entries[i] };
        assert(body_paths(entries.update(i, kept)) == body_paths(entries));
    }
}

} // verus!
