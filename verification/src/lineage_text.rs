//! A history as text: for a terminal, and as context for whoever continues the work.

use vstd::prelude::*;
use vstd::string::*;
use vstd::utf8::*;

use crate::digest;
use crate::lineage;
use crate::lineage::{ConfirmationRecord, CycleRecord, LineageEvent, PromotionRecord};
use crate::promotion;
use crate::source_state;
use crate::source_state::{FileChange, SourceChange, SourceError};
use crate::text;

verus! {

/// `std::str::from_utf8`, with the text copied: it succeeds exactly on valid UTF-8, and gives the
/// characters that the bytes encode.
#[verifier::external_body]
pub(crate) fn decode(bytes: &[u8]) -> (r: Option<String>)
    ensures
        text::opt(r) == if valid_utf8(bytes@) {
            Some(decode_utf8(bytes@))
        } else {
            None
        },
{
    match std::str::from_utf8(bytes) {
        Ok(text) => Some(text.to_owned()),
        Err(_) => None,
    }
}

/// How many lines two texts have in common at their beginning.
pub open spec fn common_start(a: Seq<Seq<char>>, b: Seq<Seq<char>>) -> nat
    decreases a.len(),
{
    if a.len() > 0 && b.len() > 0 && a[0] == b[0] {
        1 + common_start(a.drop_first(), b.drop_first())
    } else {
        0
    }
}

/// How many lines two texts have in common at their end.
pub open spec fn common_end(a: Seq<Seq<char>>, b: Seq<Seq<char>>) -> nat
    decreases a.len(),
{
    if a.len() > 0 && b.len() > 0 && a.last() == b.last() {
        1 + common_end(a.drop_last(), b.drop_last())
    } else {
        0
    }
}

/// Lines, each with a mark before it and a line feed behind it.
pub open spec fn marked(mark: char, lines: Seq<Seq<char>>) -> Seq<char>
    decreases lines.len(),
{
    if lines.len() == 0 {
        Seq::empty()
    } else {
        (marked(mark, lines.drop_last()).push(mark) + lines.last()).push('\n')
    }
}

/// The smaller of two numbers.
pub open spec fn smaller(a: int, b: int) -> int {
    if a < b {
        a
    } else {
        b
    }
}

/// The larger of two numbers.
pub open spec fn larger(a: int, b: int) -> int {
    if a > b {
        a
    } else {
        b
    }
}

/// The lines that differ between two texts, with up to three common lines on each side.
pub open spec fn hunk(path: Seq<char>, old: Seq<Seq<char>>, new: Seq<Seq<char>>) -> Seq<char> {
    let start = common_start(old, new) as int;
    let end = common_end(old.skip(start), new.skip(start)) as int;
    let first = larger(start - 3, 0);
    let old_end = smaller(old.len() - end + 3, old.len() as int);
    let new_end = smaller(new.len() - end + 3, new.len() as int);
    "--- a/"@ + path + "\n+++ b/"@ + path + "\n@@ -"@ + text::decimal((first + 1) as nat) + ","@
        + text::decimal((old_end - first) as nat) + " +"@ + text::decimal((first + 1) as nat)
        + ","@ + text::decimal((new_end - first) as nat) + " @@\n"@ + marked(
        ' ',
        old.subrange(first, start),
    ) + marked('-', old.subrange(start, old.len() - end)) + marked(
        '+',
        new.subrange(start, new.len() - end),
    ) + marked(' ', old.subrange(old.len() - end, old_end))
}

/// How a file changed.
pub open spec fn diff(
    path: Seq<char>,
    before: Seq<u8>,
    after: Seq<u8>,
    before_sha256: Option<Seq<char>>,
    after_sha256: Option<Seq<char>>,
) -> Seq<char> {
    if !valid_utf8(before) || !valid_utf8(after) {
        "Binary file "@ + path + " changed ("@ + named(before_sha256) + " -> "@ + named(
            after_sha256,
        ) + ")\n"@
    } else {
        let old = text::lines(decode_utf8(before));
        let new = text::lines(decode_utf8(after));
        if old == new {
            "--- a/"@ + path + "\n+++ b/"@ + path
                + "\n@@ content bytes changed without line changes @@\n"@
        } else {
            hunk(path, old, new)
        }
    }
}

/// A digest, or that there is none.
pub open spec fn named(sha256: Option<Seq<char>>) -> Seq<char> {
    match sha256 {
        Some(digest) => digest,
        None => "(none)"@,
    }
}

/// The common beginning is no longer than either text, holds equal lines, and ends at a
/// difference or at the end of a text.
pub proof fn lemma_common_start(a: Seq<Seq<char>>, b: Seq<Seq<char>>)
    ensures
        common_start(a, b) <= a.len(),
        common_start(a, b) <= b.len(),
        a.take(common_start(a, b) as int) == b.take(common_start(a, b) as int),
        common_start(a, b) < a.len() && common_start(a, b) < b.len() ==> a[common_start(
            a,
            b,
        ) as int] != b[common_start(a, b) as int],
    decreases a.len(),
{
    if a.len() > 0 && b.len() > 0 && a[0] == b[0] {
        lemma_common_start(a.drop_first(), b.drop_first());
        let n = common_start(a.drop_first(), b.drop_first()) as int;
        assert forall|i: int| 0 <= i < n + 1 implies a[i] == b[i] by {
            if i > 0 {
                assert(a.drop_first().take(n)[i - 1] == a[i]);
                assert(b.drop_first().take(n)[i - 1] == b[i]);
            }
        }
        assert(a.take(n + 1) == b.take(n + 1));
    } else {
        assert(a.take(0) == b.take(0));
    }
}

/// The common end is no longer than either text, and holds equal lines.
pub proof fn lemma_common_end(a: Seq<Seq<char>>, b: Seq<Seq<char>>)
    ensures
        common_end(a, b) <= a.len(),
        common_end(a, b) <= b.len(),
        a.skip(a.len() - common_end(a, b)) == b.skip(b.len() - common_end(a, b)),
    decreases a.len(),
{
    if a.len() > 0 && b.len() > 0 && a.last() == b.last() {
        lemma_common_end(a.drop_last(), b.drop_last());
        let n = common_end(a.drop_last(), b.drop_last()) as int;
        let x = a.skip(a.len() - n - 1);
        let y = b.skip(b.len() - n - 1);
        assert forall|i: int| 0 <= i < n + 1 implies x[i] == y[i] by {
            if i < n {
                assert(a.drop_last().skip(a.len() - 1 - n)[i] == x[i]);
                assert(b.drop_last().skip(b.len() - 1 - n)[i] == y[i]);
            }
        }
        assert(x == y);
    } else {
        assert(a.skip(a.len() as int) == b.skip(b.len() as int));
    }
}

/// A diff describes the whole change: the old text with the removed lines replaced by the added
/// ones is the new text.
pub proof fn diff_lines_rebuild_the_new_text(old: Seq<Seq<char>>, new: Seq<Seq<char>>)
    ensures
        ({
            let start = common_start(old, new) as int;
            let end = common_end(old.skip(start), new.skip(start)) as int;
            &&& start + end <= old.len()
            &&& start + end <= new.len()
            &&& new == old.take(start) + new.subrange(start, new.len() - end) + old.skip(
                old.len() - end,
            )
        }),
{
    let start = common_start(old, new) as int;
    lemma_common_start(old, new);
    let a = old.skip(start);
    let b = new.skip(start);
    lemma_common_end(a, b);
    let end = common_end(a, b) as int;
    assert(a.skip(a.len() - end) == old.skip(old.len() - end));
    assert(b.skip(b.len() - end) == new.skip(new.len() - end));
    assert(new == new.take(start) + new.subrange(start, new.len() - end) + new.skip(
        new.len() - end,
    ));
}

/// Appends lines with a mark before each.
fn push_marked(out: &mut String, mark: char, lines: &Vec<String>, from: usize, to: usize)
    requires
        from <= to <= lines@.len(),
    ensures
        final(out)@ == old(out)@ + marked(
            mark,
            text::views(lines@).subrange(from as int, to as int),
        ),
{
    let ghost all = text::views(lines@);
    let mut i: usize = from;
    assert(all.subrange(from as int, from as int) == Seq::<Seq<char>>::empty());
    assert(out@ + Seq::<char>::empty() == out@);
    while i < to
        invariant
            from <= i <= to <= lines@.len(),
            all == text::views(lines@),
            out@ == old(out)@ + marked(mark, all.subrange(from as int, i as int)),
        decreases to - i,
    {
        let ghost before = out@;
        out.push(mark);
        out.append(&lines[i]);
        out.push('\n');
        i += 1;
        proof {
            let part = all.subrange(from as int, i as int);
            assert(part.drop_last() == all.subrange(from as int, i - 1));
            assert(part.last() == lines@[i - 1]@);
            assert(out@ == old(out)@ + marked(mark, part));
        }
    }
}

/// How many lines two texts have in common at their beginning.
fn shared_start(old: &Vec<String>, new: &Vec<String>) -> (r: usize)
    ensures
        r == common_start(text::views(old@), text::views(new@)),
{
    let ghost a = text::views(old@);
    let ghost b = text::views(new@);
    let mut n: usize = 0;
    assert(a.skip(0) == a);
    assert(b.skip(0) == b);
    while n < old.len() && n < new.len() && text::same(&old[n], &new[n])
        invariant
            n <= old@.len(),
            n <= new@.len(),
            a == text::views(old@),
            b == text::views(new@),
            common_start(a, b) == n + common_start(a.skip(n as int), b.skip(n as int)),
        decreases old@.len() - n,
    {
        assert(a.skip(n as int).drop_first() == a.skip(n + 1));
        assert(b.skip(n as int).drop_first() == b.skip(n + 1));
        n += 1;
    }
    n
}

/// How many lines two texts have in common at their end, behind their common beginning.
fn shared_end(old: &Vec<String>, new: &Vec<String>, start: usize) -> (r: usize)
    requires
        start <= old@.len(),
        start <= new@.len(),
    ensures
        r == common_end(
            text::views(old@).skip(start as int),
            text::views(new@).skip(start as int),
        ),
        r <= old@.len() - start,
        r <= new@.len() - start,
{
    let ghost a = text::views(old@).skip(start as int);
    let ghost b = text::views(new@).skip(start as int);
    let mut n: usize = 0;
    assert(a.take(a.len() as int) == a);
    assert(b.take(b.len() as int) == b);
    while n < old.len() - start && n < new.len() - start && text::same(
        &old[old.len() - 1 - n],
        &new[new.len() - 1 - n],
    )
        invariant
            start <= old@.len(),
            start <= new@.len(),
            n <= old@.len() - start,
            n <= new@.len() - start,
            a == text::views(old@).skip(start as int),
            b == text::views(new@).skip(start as int),
            common_end(a, b) == n + common_end(a.take(a.len() - n), b.take(b.len() - n)),
        decreases old@.len() - n,
    {
        proof {
            let x = a.take(a.len() - n);
            let y = b.take(b.len() - n);
            assert(x.last() == old@[old@.len() - 1 - n]@);
            assert(y.last() == new@[new@.len() - 1 - n]@);
            assert(x.drop_last() == a.take(a.len() - n - 1));
            assert(y.drop_last() == b.take(b.len() - n - 1));
        }
        n += 1;
    }
    proof {
        let x = a.take(a.len() - n);
        let y = b.take(b.len() - n);
        if x.len() > 0 && y.len() > 0 {
            assert(x.last() == old@[old@.len() - 1 - n]@);
            assert(y.last() == new@[new@.len() - 1 - n]@);
        }
    }
    n
}

/// Shows the lines that differ, with up to three common lines on each side.
fn show_hunk(path: &str, old: &Vec<String>, new: &Vec<String>) -> (r: String)
    ensures
        r@ == hunk(path@, text::views(old@), text::views(new@)),
{
    let ghost a = text::views(old@);
    let ghost b = text::views(new@);
    let prefix = shared_start(old, new);
    proof {
        lemma_common_start(a, b);
    }
    let suffix = shared_end(old, new, prefix);
    let old_change_end: usize = old.len() - suffix;
    let new_change_end: usize = new.len() - suffix;
    let start: usize = if prefix > 3 {
        prefix - 3
    } else {
        0
    };
    let old_end: usize = if suffix > 3 {
        old_change_end + 3
    } else {
        old.len()
    };
    let new_end: usize = if suffix > 3 {
        new_change_end + 3
    } else {
        new.len()
    };
    let mut out = "--- a/".to_owned();
    out.append(path);
    out.append("\n+++ b/");
    out.append(path);
    out.append("\n@@ -");
    out.append(&text::decimal_text(start as u64 + 1));
    out.append(",");
    out.append(&text::decimal_text((old_end - start) as u64));
    out.append(" +");
    out.append(&text::decimal_text(start as u64 + 1));
    out.append(",");
    out.append(&text::decimal_text((new_end - start) as u64));
    out.append(" @@\n");
    push_marked(&mut out, ' ', old, start, prefix);
    push_marked(&mut out, '-', old, prefix, old_change_end);
    push_marked(&mut out, '+', new, prefix, new_change_end);
    push_marked(&mut out, ' ', old, old_change_end, old_end);
    out
}

/// Shows how a file changed: the lines that differ with some of their surroundings, or the
/// digests where the content is not text.
pub fn file_diff(
    path: &str,
    before: &[u8],
    after: &[u8],
    before_sha256: Option<&str>,
    after_sha256: Option<&str>,
) -> (r: String)
    ensures
        r@ == diff(
            path@,
            before@,
            after@,
            lineage::str_opt(before_sha256),
            lineage::str_opt(after_sha256),
        ),
{
    let (old_text, new_text) = match (decode(before), decode(after)) {
        (Some(old_text), Some(new_text)) => (old_text, new_text),
        _ => {
            let mut out = "Binary file ".to_owned();
            out.append(path);
            out.append(" changed (");
            out.append(
                match before_sha256 {
                    Some(digest) => digest,
                    None => "(none)",
                },
            );
            out.append(" -> ");
            out.append(
                match after_sha256 {
                    Some(digest) => digest,
                    None => "(none)",
                },
            );
            out.append(")\n");
            return out;
        },
    };
    let old = text::split_lines(&old_text);
    let new = text::split_lines(&new_text);
    let ghost a = text::views(old@);
    let ghost b = text::views(new@);
    let prefix = shared_start(&old, &new);
    proof {
        lemma_common_start(a, b);
    }
    if prefix == old.len() && prefix == new.len() {
        proof {
            assert(a.take(prefix as int) == a);
            assert(b.take(prefix as int) == b);
        }
        let mut out = "--- a/".to_owned();
        out.append(path);
        out.append("\n+++ b/");
        out.append(path);
        out.append("\n@@ content bytes changed without line changes @@\n");
        return out;
    }
    proof {
        if a == b {
            assert(common_start(a, b) < a.len() || common_start(a, b) < b.len());
            assert(false);
        }
    }
    show_hunk(path, &old, &new)
}

/// The content of a changed file before and after; empty where there is none.
#[derive(Clone, Debug)]
pub struct FileObjects {
    pub before: Vec<u8>,
    pub after: Vec<u8>,
}

/// The diffs of the first `n` changed files, one after the other.
pub open spec fn diffs(files: Seq<FileChange>, objects: Seq<FileObjects>, n: int) -> Seq<char>
    decreases n,
{
    if n <= 0 {
        Seq::empty()
    } else {
        diffs(files, objects, n - 1) + diff(
            files[n - 1].path@,
            objects[n - 1].before@,
            objects[n - 1].after@,
            text::opt(files[n - 1].before_sha256),
            text::opt(files[n - 1].after_sha256),
        )
    }
}

/// A source change as text.
pub open spec fn change_text(change: SourceChange, objects: Seq<FileObjects>) -> Seq<char> {
    let all = diffs(change.files@, objects, change.files@.len() as int);
    if all.len() == 0 {
        "(no source changes)\n"@
    } else {
        all
    }
}

fn as_text(value: &Option<String>) -> (r: Option<&str>)
    ensures
        lineage::str_opt(r) == text::opt(*value),
{
    match value {
        Some(text) => Some(text.as_str()),
        None => None,
    }
}

/// Shows the diffs of a source change, given the content of each changed file.
pub fn render_change(change: &SourceChange, objects: &Vec<FileObjects>) -> (r: String)
    requires
        objects@.len() == change.files@.len(),
    ensures
        r@ == change_text(*change, objects@),
{
    let mut out = String::new();
    let mut i: usize = 0;
    while i < change.files.len()
        invariant
            i <= change.files@.len(),
            objects@.len() == change.files@.len(),
            out@ == diffs(change.files@, objects@, i as int),
        decreases change.files@.len() - i,
    {
        let file = &change.files[i];
        let shown = file_diff(
            &file.path,
            &objects[i].before,
            &objects[i].after,
            as_text(&file.before_sha256),
            as_text(&file.after_sha256),
        );
        out.append(&shown);
        i += 1;
    }
    if out.as_str().is_empty() {
        out.append("(no source changes)\n");
        assert(out@ == "(no source changes)\n"@);
    }
    out
}

/// Why the bytes found for a digest that may be absent are refused, if they are.
pub open spec fn side_failure(digest: Option<Seq<char>>, content: Seq<u8>) -> Option<SourceError> {
    match digest {
        Some(digest) => source_state::object_failure(digest, content),
        None => None,
    }
}

/// Why the bytes found for the first `n` changed files are refused, if they are, and at which file.
pub open spec fn objects_failure(
    files: Seq<FileChange>,
    objects: Seq<FileObjects>,
    n: int,
) -> Option<(int, SourceError)>
    decreases n,
{
    if n <= 0 {
        None
    } else if objects_failure(files, objects, n - 1) is Some {
        objects_failure(files, objects, n - 1)
    } else {
        let before = side_failure(
            text::opt(files[n - 1].before_sha256),
            objects[n - 1].before@,
        );
        let after = side_failure(text::opt(files[n - 1].after_sha256), objects[n - 1].after@);
        if before is Some {
            Some((n - 1, before->0))
        } else if after is Some {
            Some((n - 1, after->0))
        } else {
            None
        }
    }
}

proof fn lemma_objects_failure(files: Seq<FileChange>, objects: Seq<FileObjects>, n: int, m: int)
    requires
        0 <= n <= m,
        objects_failure(files, objects, n) is Some,
    ensures
        objects_failure(files, objects, m) == objects_failure(files, objects, n),
    decreases m - n,
{
    if n < m {
        lemma_objects_failure(files, objects, n, m - 1);
    }
}

/// What was found for one side of a changed file, where a digest is recorded for it; nothing where
/// none is.
fn side_refusal(digest: &Option<String>, content: &Vec<u8>) -> (r: Option<SourceError>)
    ensures
        r == side_failure(text::opt(*digest), content@),
{
    match digest {
        Some(digest) => source_state::refuse_object(digest, content),
        None => None,
    }
}

/// An object of a change that is refused: the place of its file, and why.
#[derive(Clone, Copy, Debug, Eq, PartialEq, Structural)]
pub struct RefusedObject {
    pub place: usize,
    pub error: SourceError,
}

/// Shows the diffs of a stored change, given what was found for each recorded digest. The first file
/// of which something else was found is refused, and nothing is shown.
pub fn render_stored_change(change: &SourceChange, objects: &Vec<FileObjects>) -> (r: Result<
    String,
    RefusedObject,
>)
    requires
        objects@.len() == change.files@.len(),
    ensures
        match objects_failure(change.files@, objects@, change.files@.len() as int) {
            Some((place, error)) => r is Err && r->Err_0.place == place && r->Err_0.error == error,
            None => r is Ok && r->Ok_0@ == change_text(*change, objects@),
        },
{
    let ghost total = change.files@.len() as int;
    let mut i: usize = 0;
    while i < change.files.len()
        invariant
            i <= change.files@.len(),
            total == change.files@.len(),
            objects@.len() == change.files@.len(),
            objects_failure(change.files@, objects@, i as int) is None,
        decreases change.files@.len() - i,
    {
        proof {
            if objects_failure(change.files@, objects@, i + 1) is Some {
                lemma_objects_failure(change.files@, objects@, i + 1, total);
            }
        }
        if let Some(error) = side_refusal(&change.files[i].before_sha256, &objects[i].before) {
            return Err(RefusedObject { place: i, error });
        }
        if let Some(error) = side_refusal(&change.files[i].after_sha256, &objects[i].after) {
            return Err(RefusedObject { place: i, error });
        }
        i += 1;
    }
    Ok(render_change(change, objects))
}

/// Tampered content is never shown: whatever is shown of a stored change comes from bytes that have
/// the recorded digests.
pub proof fn shown_content_has_the_recorded_digests(
    change: SourceChange,
    objects: Seq<FileObjects>,
    i: int,
)
    requires
        objects.len() == change.files@.len(),
        0 <= i < objects.len(),
        objects_failure(change.files@, objects, change.files@.len() as int) is None,
    ensures
        change.files@[i].before_sha256 matches Some(digest) ==> digest::sha256(objects[i].before@)
            == digest@,
        change.files@[i].after_sha256 matches Some(digest) ==> digest::sha256(objects[i].after@)
            == digest@,
{
    lemma_object_accepted(change.files@, objects, i, objects.len() as int);
}

proof fn lemma_object_accepted(files: Seq<FileChange>, objects: Seq<FileObjects>, i: int, n: int)
    requires
        0 <= i < n,
        objects_failure(files, objects, n) is None,
    ensures
        objects_failure(files, objects, i + 1) is None,
        side_failure(text::opt(files[i].before_sha256), objects[i].before@) is None,
        side_failure(text::opt(files[i].after_sha256), objects[i].after@) is None,
    decreases n,
{
    if i + 1 < n {
        lemma_object_accepted(files, objects, i, n - 1);
    }
}

/// The first twenty bytes of an identity, where they are whole characters.
pub open spec fn short(id: Seq<char>) -> Seq<char> {
    let bytes = encode_utf8(id);
    if bytes.len() >= 20 && is_char_boundary(bytes, 20) {
        decode_utf8(bytes.subrange(0, 20))
    } else {
        id
    }
}

/// Shortens an identity for display.
pub fn short_id(value: &str) -> (r: &str)
    ensures
        r@ == short(value@),
{
    if value.as_bytes().len() >= 20 && value.is_char_boundary(20) {
        let (start, _) = value.split_at(20);
        proof {
            encode_utf8_decode_utf8(start@);
        }
        start
    } else {
        value
    }
}

/// What the comparison of a cycle says of the engines.
pub open spec fn engine_results(cycle: CycleRecord) -> Seq<char> {
    match cycle.comparison {
        None => "  comparison: no promoted baseline\n"@,
        Some(comparison) => comparison.decision_summary@,
    }
}

fn push_engine_results(out: &mut String, cycle: &CycleRecord)
    ensures
        final(out)@ == old(out)@ + engine_results(*cycle),
{
    match &cycle.comparison {
        None => out.append("  comparison: no promoted baseline\n"),
        Some(comparison) => out.append(&comparison.decision_summary),
    }
}

/// The line with a cycle's hypothesis, where it has one.
pub open spec fn hypothesis_line(prefix: Seq<char>, cycle: CycleRecord) -> Seq<char> {
    match cycle.message {
        Some(message) => prefix + message@ + "\n"@,
        None => Seq::empty(),
    }
}

/// A cycle as text.
pub open spec fn cycle_text(cycle: CycleRecord) -> Seq<char> {
    cycle.cycle_id@ + ": "@ + cycle.outcome@ + "\n"@ + hypothesis_line("  hypothesis: "@, cycle)
        + "  source: "@ + (match cycle.source_before {
        Some(before) => before@,
        None => "(initial)"@,
    }) + " -> "@ + cycle.source_after@ + "\n"@ + "  measurement set: "@
        + cycle.candidate_measurement_set@ + "\n"@ + engine_results(cycle)
}

/// Appends the line with a cycle's hypothesis, where it has one.
fn push_hypothesis(out: &mut String, prefix: &str, cycle: &CycleRecord)
    ensures
        final(out)@ == old(out)@ + hypothesis_line(prefix@, *cycle),
{
    if let Some(message) = &cycle.message {
        out.append(prefix);
        out.append(message);
        out.append("\n");
    }
    assert(out@ == old(out)@ + hypothesis_line(prefix@, *cycle));
}

/// Shows a cycle.
pub fn render_cycle(cycle: &CycleRecord) -> (r: String)
    ensures
        r@ == cycle_text(*cycle),
{
    let mut out = cycle.cycle_id.clone();
    out.append(": ");
    out.append(&cycle.outcome);
    out.append("\n");
    push_hypothesis(&mut out, "  hypothesis: ", cycle);
    out.append("  source: ");
    out.append(
        match &cycle.source_before {
            Some(before) => before.as_str(),
            None => "(initial)",
        },
    );
    out.append(" -> ");
    out.append(&cycle.source_after);
    out.append("\n");
    out.append("  measurement set: ");
    out.append(&cycle.candidate_measurement_set);
    out.append("\n");
    push_engine_results(&mut out, cycle);
    out
}

/// Whether a confirmation that was required is there.
pub open spec fn confirmation_word(ready: bool) -> Seq<char> {
    if ready {
        "satisfied"@
    } else {
        "required"@
    }
}

/// One event of a history, as text.
pub open spec fn event_text(event: LineageEvent, events: Seq<LineageEvent>) -> Seq<char> {
    match event {
        LineageEvent::Cycle(cycle) => {
            let (required, ready, count) = promotion::readiness(*cycle, events);
            cycle_text(*cycle) + if required {
                "  promotion confirmation: "@ + confirmation_word(ready) + " ("@ + text::decimal(
                    count,
                ) + "/"@ + text::decimal(lineage::PROMOTION_CONFIRMATION_SEARCHES as nat)
                    + " searched candidates)\n"@
            } else {
                Seq::empty()
            }
        },
        LineageEvent::Confirmation(confirmation) => "confirmation "@ + short(
            confirmation.confirmation_id@,
        ) + ": "@ + short(confirmation.cycle_id@) + " -> "@ + confirmation.outcome@ + "\n"@,
        LineageEvent::Promotion(promotion) => "promotion "@ + short(promotion.promotion_id@) + ": "@
            + short(promotion.cycle_id@) + " -> baseline\n"@,
    }
}

/// The first `n` events of a history, as text.
pub open spec fn events_text(events: Seq<LineageEvent>, n: int) -> Seq<char>
    decreases n,
{
    if n <= 0 {
        Seq::empty()
    } else {
        events_text(events, n - 1) + event_text(events[n - 1], events)
    }
}

/// A history as text.
pub open spec fn history_text(benchmark_id: Seq<char>, events: Seq<LineageEvent>) -> Seq<char> {
    "bperf history: "@ + benchmark_id + "\n"@ + events_text(events, events.len() as int)
}

fn word(ready: bool) -> (r: &'static str)
    ensures
        r@ == confirmation_word(ready),
{
    if ready {
        "satisfied"
    } else {
        "required"
    }
}

/// Shows one event of a history.
fn render_event(event: &LineageEvent, events: &Vec<LineageEvent>) -> (r: String)
    ensures
        r@ == event_text(*event, events@),
{
    match event {
        LineageEvent::Cycle(cycle) => {
            let mut out = render_cycle(cycle);
            let readiness = promotion::promotion_readiness(cycle, events);
            let ghost start = out@;
            if readiness.confirmation_required {
                out.append("  promotion confirmation: ");
                out.append(word(readiness.ready));
                out.append(" (");
                out.append(&text::decimal_text(readiness.searched_candidates as u64));
                out.append("/");
                out.append(&text::decimal_text(readiness.search_threshold as u64));
                out.append(" searched candidates)\n");
            }
            assert(out@ == event_text(*event, events@));
            out
        },
        LineageEvent::Confirmation(confirmation) => {
            let mut out = "confirmation ".to_owned();
            out.append(short_id(&confirmation.confirmation_id));
            out.append(": ");
            out.append(short_id(&confirmation.cycle_id));
            out.append(" -> ");
            out.append(&confirmation.outcome);
            out.append("\n");
            out
        },
        LineageEvent::Promotion(promotion) => {
            let mut out = "promotion ".to_owned();
            out.append(short_id(&promotion.promotion_id));
            out.append(": ");
            out.append(short_id(&promotion.cycle_id));
            out.append(" -> baseline\n");
            out
        },
    }
}

/// Shows a history.
pub fn render_history(benchmark_id: &str, events: &Vec<LineageEvent>) -> (r: String)
    ensures
        r@ == history_text(benchmark_id@, events@),
{
    let mut out = "bperf history: ".to_owned();
    out.append(benchmark_id);
    out.append("\n");
    let ghost start = out@;
    let mut i: usize = 0;
    assert(start + events_text(events@, 0) == start);
    while i < events.len()
        invariant
            i <= events@.len(),
            out@ == start + events_text(events@, i as int),
        decreases events@.len() - i,
    {
        let shown = render_event(&events[i], events);
        out.append(&shown);
        i += 1;
        assert(out@ == start + events_text(events@, i as int));
    }
    out
}

/// How many of some events are cycles.
pub open spec fn cycle_count(events: Seq<LineageEvent>) -> nat
    decreases events.len(),
{
    if events.len() == 0 {
        0
    } else {
        cycle_count(events.drop_last()) + if events.last() is Cycle {
            1nat
        } else {
            0nat
        }
    }
}

/// The section of a cycle in the context of a history: what was tried, what came of it, and how
/// the source changed.
pub open spec fn cycle_section(
    number: nat,
    cycle: CycleRecord,
    events: Seq<LineageEvent>,
    change: Seq<char>,
) -> Seq<char> {
    let (required, ready, count) = promotion::readiness(cycle, events);
    "## "@ + text::decimal(number) + ". `"@ + cycle.cycle_id@ + "` — "@ + cycle.outcome@ + "\n"@
        + hypothesis_line("\nHypothesis: "@, cycle) + "\n"@ + engine_results(cycle) + (
    if required {
        "\nPromotion confirmation: "@ + confirmation_word(ready) + " after "@ + text::decimal(count)
            + " searched candidates.\n"@
    } else {
        Seq::empty()
    }) + (if cycle.source_before is Some {
        "\n```diff\n"@ + change + "```\n\n"@
    } else {
        "\nInitial measured source checkpoint: `"@ + cycle.source_after@ + "`\n\n"@
    })
}

/// The sections of the cycles among the first `n` events.
pub open spec fn cycle_sections(
    events: Seq<LineageEvent>,
    changes: Seq<Seq<char>>,
    n: int,
) -> Seq<char>
    decreases n,
{
    if n <= 0 {
        Seq::empty()
    } else {
        let earlier = cycle_sections(events, changes, n - 1);
        match events[n - 1] {
            LineageEvent::Cycle(cycle) => earlier + cycle_section(
                cycle_count(events.take(n)),
                *cycle,
                events,
                changes[n - 1],
            ),
            _ => earlier,
        }
    }
}

/// The line of a confirmation in the context of a history.
pub open spec fn confirmation_line(confirmation: ConfirmationRecord) -> Seq<char> {
    "- `"@ + confirmation.confirmation_id@ + "` confirmed `"@ + confirmation.cycle_id@ + "` as "@
        + confirmation.outcome@ + " with `"@ + confirmation.confirmation_measurement_set@ + "`\n"@
}

/// The lines of the confirmations among the first `n` events.
pub open spec fn confirmation_lines(events: Seq<LineageEvent>, n: int) -> Seq<char>
    decreases n,
{
    if n <= 0 {
        Seq::empty()
    } else {
        let earlier = confirmation_lines(events, n - 1);
        match events[n - 1] {
            LineageEvent::Confirmation(confirmation) => earlier + confirmation_line(*confirmation),
            _ => earlier,
        }
    }
}

/// The line of a promotion in the context of a history.
pub open spec fn promotion_line(promotion: PromotionRecord) -> Seq<char> {
    "- `"@ + promotion.promotion_id@ + "` accepted `"@ + promotion.cycle_id@ + "` as `"@
        + promotion.baseline_measurement_set@ + "`\n"@
}

/// The lines of the promotions among the first `n` events.
pub open spec fn promotion_lines(events: Seq<LineageEvent>, n: int) -> Seq<char>
    decreases n,
{
    if n <= 0 {
        Seq::empty()
    } else {
        let earlier = promotion_lines(events, n - 1);
        match events[n - 1] {
            LineageEvent::Promotion(promotion) => earlier + promotion_line(promotion),
            _ => earlier,
        }
    }
}

/// Some event is a confirmation.
pub open spec fn any_confirmation(events: Seq<LineageEvent>) -> bool {
    exists|i: int| 0 <= i < events.len() && (#[trigger] events[i]) is Confirmation
}

/// Some event is a promotion.
pub open spec fn any_promotion(events: Seq<LineageEvent>) -> bool {
    exists|i: int| 0 <= i < events.len() && (#[trigger] events[i]) is Promotion
}

/// A history as context for whoever continues the work.
pub open spec fn context_text(
    benchmark_id: Seq<char>,
    events: Seq<LineageEvent>,
    changes: Seq<Seq<char>>,
) -> Seq<char> {
    let n = events.len() as int;
    "# bperf optimization history\n\nBenchmark: `"@ + benchmark_id + "`\nMeasured cycles: "@
        + text::decimal(cycle_count(events)) + "\n\n"@ + cycle_sections(events, changes, n) + (
    if any_confirmation(events) {
        "## Confirmation measurements\n\n"@ + confirmation_lines(events, n) + "\n"@
    } else {
        Seq::empty()
    }) + (if any_promotion(events) {
        "## Baseline promotions\n\n"@ + promotion_lines(events, n)
    } else {
        Seq::empty()
    })
}

/// Writes the section of a cycle.
fn render_section(number: u64, cycle: &CycleRecord, events: &Vec<LineageEvent>, change: &str) -> (r:
    String)
    ensures
        r@ == cycle_section(number as nat, *cycle, events@, change@),
{
    let readiness = promotion::promotion_readiness(cycle, events);
    let mut out = "## ".to_owned();
    out.append(&text::decimal_text(number));
    out.append(". `");
    out.append(&cycle.cycle_id);
    out.append("` — ");
    out.append(&cycle.outcome);
    out.append("\n");
    push_hypothesis(&mut out, "\nHypothesis: ", cycle);
    out.append("\n");
    push_engine_results(&mut out, cycle);
    let ghost head = out@;
    let mut note = String::new();
    if readiness.confirmation_required {
        note.append("\nPromotion confirmation: ");
        note.append(word(readiness.ready));
        note.append(" after ");
        note.append(&text::decimal_text(readiness.searched_candidates as u64));
        note.append(" searched candidates.\n");
        assert(note@ == "\nPromotion confirmation: "@ + confirmation_word(readiness.ready)
            + " after "@ + text::decimal(readiness.searched_candidates as nat)
            + " searched candidates.\n"@);
    }
    out.append(&note);
    let mut tail = String::new();
    if cycle.source_before.is_some() {
        tail.append("\n```diff\n");
        tail.append(change);
        tail.append("```\n\n");
        assert(tail@ == "\n```diff\n"@ + change@ + "```\n\n"@);
    } else {
        tail.append("\nInitial measured source checkpoint: `");
        tail.append(&cycle.source_after);
        tail.append("`\n\n");
        assert(tail@ == "\nInitial measured source checkpoint: `"@ + cycle.source_after@
            + "`\n\n"@);
    }
    out.append(&tail);
    out
}

fn render_confirmation_line(confirmation: &ConfirmationRecord) -> (r: String)
    ensures
        r@ == confirmation_line(*confirmation),
{
    let mut out = "- `".to_owned();
    out.append(&confirmation.confirmation_id);
    out.append("` confirmed `");
    out.append(&confirmation.cycle_id);
    out.append("` as ");
    out.append(&confirmation.outcome);
    out.append(" with `");
    out.append(&confirmation.confirmation_measurement_set);
    out.append("`\n");
    out
}

fn render_promotion_line(promotion: &PromotionRecord) -> (r: String)
    ensures
        r@ == promotion_line(*promotion),
{
    let mut out = "- `".to_owned();
    out.append(&promotion.promotion_id);
    out.append("` accepted `");
    out.append(&promotion.cycle_id);
    out.append("` as `");
    out.append(&promotion.baseline_measurement_set);
    out.append("`\n");
    out
}

fn count_cycles(events: &Vec<LineageEvent>) -> (r: usize)
    ensures
        r == cycle_count(events@),
{
    let mut count: usize = 0;
    let mut i: usize = 0;
    assert(events@.take(0) == Seq::<LineageEvent>::empty());
    while i < events.len()
        invariant
            i <= events@.len(),
            count <= i,
            count == cycle_count(events@.take(i as int)),
        decreases events@.len() - i,
    {
        assert(events@.take(i + 1).drop_last() == events@.take(i as int));
        if let LineageEvent::Cycle(_) = &events[i] {
            count += 1;
        }
        i += 1;
    }
    assert(events@.take(events@.len() as int) == events@);
    count
}

/// Writes the history of a benchmark as context for whoever continues the work: every cycle with
/// its hypothesis, its outcome, and its diff, and then the confirmations and the promotions.
///
/// `changes` holds, for every event, the rendered source change of its cycle; the entries of other
/// events, and of a cycle without an earlier source, are not looked at.
pub fn render_agent_context(
    benchmark_id: &str,
    events: &Vec<LineageEvent>,
    changes: &Vec<String>,
) -> (r: String)
    requires
        changes@.len() == events@.len(),
    ensures
        r@ == context_text(benchmark_id@, events@, text::views(changes@)),
{
    let ghost n = events@.len() as int;
    let ghost all_changes = text::views(changes@);
    let mut sections = String::new();
    let mut confirmations = String::new();
    let mut promotions = String::new();
    let mut confirmed = false;
    let mut promoted = false;
    let mut number: u64 = 0;
    let mut i: usize = 0;
    assert(events@.take(0) == Seq::<LineageEvent>::empty());
    while i < events.len()
        invariant
            i <= events@.len(),
            changes@.len() == events@.len(),
            all_changes == text::views(changes@),
            number <= i,
            number == cycle_count(events@.take(i as int)),
            sections@ == cycle_sections(events@, all_changes, i as int),
            confirmations@ == confirmation_lines(events@, i as int),
            promotions@ == promotion_lines(events@, i as int),
            confirmed == exists|j: int| 0 <= j < i && (#[trigger] events@[j]) is Confirmation,
            promoted == exists|j: int| 0 <= j < i && (#[trigger] events@[j]) is Promotion,
        decreases events@.len() - i,
    {
        assert(events@.take(i + 1).drop_last() == events@.take(i as int));
        match &events[i] {
            LineageEvent::Cycle(cycle) => {
                number += 1;
                let section = render_section(number, cycle, events, &changes[i]);
                sections.append(&section);
            },
            LineageEvent::Confirmation(confirmation) => {
                confirmed = true;
                let line = render_confirmation_line(confirmation);
                confirmations.append(&line);
                assert(events@[i as int] is Confirmation);
            },
            LineageEvent::Promotion(promotion) => {
                promoted = true;
                let line = render_promotion_line(promotion);
                promotions.append(&line);
                assert(events@[i as int] is Promotion);
            },
        }
        i += 1;
    }
    let count = count_cycles(events);
    let mut out = "# bperf optimization history\n\nBenchmark: `".to_owned();
    out.append(benchmark_id);
    out.append("`\nMeasured cycles: ");
    out.append(&text::decimal_text(count as u64));
    out.append("\n\n");
    out.append(&sections);
    let ghost head = out@;
    let mut confirmation_part = String::new();
    if confirmed {
        confirmation_part.append("## Confirmation measurements\n\n");
        confirmation_part.append(&confirmations);
        confirmation_part.append("\n");
        assert(confirmation_part@ == "## Confirmation measurements\n\n"@ + confirmation_lines(
            events@,
            n,
        ) + "\n"@);
    }
    out.append(&confirmation_part);
    let mut promotion_part = String::new();
    if promoted {
        promotion_part.append("## Baseline promotions\n\n");
        promotion_part.append(&promotions);
        assert(promotion_part@ == "## Baseline promotions\n\n"@ + promotion_lines(events@, n));
    }
    out.append(&promotion_part);
    out
}

} // verus!
