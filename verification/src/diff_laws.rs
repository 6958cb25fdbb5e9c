//! What holds of every change that is shown.

use vstd::prelude::*;
use vstd::utf8::*;

use crate::lineage_text;
use crate::lineage_text::FileObjects;
use crate::source_state::SourceChange;
use crate::text;

verus! {

// Lines.

/// Lines and what ends each of them, one after the other.
pub open spec fn with_ends(lines: Seq<Seq<char>>, ends: Seq<Seq<char>>) -> Seq<char>
    decreases lines.len(),
{
    if lines.len() == 0 {
        Seq::empty()
    } else {
        lines[0] + ends[0] + with_ends(lines.drop_first(), ends.drop_first())
    }
}

/// The lines of a text make up the text: each is followed by a line feed, with or without a carriage
/// return before it, and only the last may be followed by nothing. No line holds a line feed, and none
/// is left out.
pub proof fn lines_make_up_their_text(s: Seq<char>) -> (ends: Seq<Seq<char>>)
    ensures
        ends.len() == text::lines(s).len(),
        with_ends(text::lines(s), ends) == s,
        forall|i: int|
            0 <= i < ends.len() ==> {
                ||| #[trigger] ends[i] == seq!['\n'] && (text::lines(s)[i].len() > 0
                    ==> text::lines(s)[i].last() != '\r')
                ||| ends[i] == seq!['\r', '\n']
                ||| ends[i].len() == 0 && i == ends.len() - 1 && text::lines(s)[i].len() > 0
            },
        forall|i: int, k: int|
            0 <= i < ends.len() && 0 <= k < text::lines(s)[i].len()
                ==> #[trigger] text::lines(s)[i][k] != '\n',
    decreases s.len(),
{
    text::lemma_first_index(s, '\n');
    let end = text::first_index(s, '\n');
    if s.len() == 0 {
        Seq::empty()
    } else if end == s.len() {
        let ends = seq![Seq::<char>::empty()];
        assert(text::lines(s) == seq![s]);
        assert(text::lines(s).drop_first() == Seq::<Seq<char>>::empty());
        assert(with_ends(text::lines(s).drop_first(), ends.drop_first()) == Seq::<char>::empty());
        assert(with_ends(text::lines(s), ends) == s);
        ends
    } else {
        let rest = s.skip(end + 1);
        let later = lines_make_up_their_text(rest);
        let before = s.take(end);
        let first = text::without_return(before);
        let mark = if before.len() > 0 && before.last() == '\r' {
            seq!['\r', '\n']
        } else {
            seq!['\n']
        };
        let ends = seq![mark] + later;
        let all = text::lines(s);
        assert(all == seq![first] + text::lines(rest));
        assert(all.drop_first() == text::lines(rest));
        assert(ends.drop_first() == later);
        assert(first + mark == s.take(end + 1));
        assert(s == s.take(end + 1) + rest);
        assert forall|i: int| 0 <= i < ends.len() implies {
            ||| #[trigger] ends[i] == seq!['\n'] && (all[i].len() > 0 ==> all[i].last() != '\r')
            ||| ends[i] == seq!['\r', '\n']
            ||| ends[i].len() == 0 && i == ends.len() - 1 && all[i].len() > 0
        } by {
            if i > 0 {
                assert(ends[i] == later[i - 1]);
                assert(all[i] == text::lines(rest)[i - 1]);
            }
        }
        assert forall|i: int, k: int|
            0 <= i < ends.len() && 0 <= k < all[i].len() implies #[trigger] all[i][k] != '\n' by {
            if i > 0 {
                assert(all[i] == text::lines(rest)[i - 1]);
                assert(text::lines(rest)[i - 1][k] != '\n');
            } else {
                assert(all[0][k] == s[k]);
            }
        }
        ends
    }
}

// Hunks.

/// Lines as they are printed: a mark before each, a line feed behind it.
pub open spec fn printed(shown: Seq<(char, Seq<char>)>) -> Seq<char>
    decreases shown.len(),
{
    if shown.len() == 0 {
        Seq::empty()
    } else {
        seq![shown[0].0] + shown[0].1 + seq!['\n'] + printed(shown.drop_first())
    }
}

/// The lines that are left without those of a mark.
pub open spec fn without(shown: Seq<(char, Seq<char>)>, mark: char) -> Seq<Seq<char>>
    decreases shown.len(),
{
    if shown.len() == 0 {
        Seq::empty()
    } else if shown[0].0 == mark {
        without(shown.drop_first(), mark)
    } else {
        seq![shown[0].1] + without(shown.drop_first(), mark)
    }
}

/// What a hunk shows: where it begins, how many lines of each text it speaks of, its lines with their
/// marks, and how many of them surround the change on each side.
pub struct Shown {
    pub first: int,
    pub old_count: int,
    pub new_count: int,
    pub lines: Seq<(char, Seq<char>)>,
    pub above: int,
    pub below: int,
}

/// The head of a hunk.
pub open spec fn head(path: Seq<char>, first: int, old_count: int, new_count: int) -> Seq<char> {
    "--- a/"@ + path + "\n+++ b/"@ + path + "\n@@ -"@ + text::decimal((first + 1) as nat) + ","@
        + text::decimal(old_count as nat) + " +"@ + text::decimal((first + 1) as nat) + ","@
        + text::decimal(new_count as nat) + " @@\n"@
}

/// What is shown describes the change from the old lines to the new ones.
pub open spec fn describes(shown: Shown, old: Seq<Seq<char>>, new: Seq<Seq<char>>) -> bool {
    let old_end = shown.first + shown.old_count;
    let new_end = shown.first + shown.new_count;
    let n = shown.lines.len();
    // Without the added lines it is what stood there, without the removed ones what stands there now.
    &&& 0 <= shown.first && 0 <= shown.old_count && 0 <= shown.new_count
    &&& old_end <= old.len() && new_end <= new.len()
    &&& without(shown.lines, '+') == old.subrange(shown.first, old_end)
    &&& without(shown.lines, '-') == new.subrange(shown.first, new_end)
    // What is not shown did not change.
    &&& old.take(shown.first) == new.take(shown.first)
    &&& old.skip(old_end) == new.skip(new_end)
    // Three lines surround the change, or as many as there are.
    &&& 0 <= shown.above <= 3 && 0 <= shown.below <= 3 && shown.above + shown.below <= n
    &&& shown.above < 3 ==> shown.first == 0
    &&& shown.below < 3 ==> old_end == old.len()
    &&& forall|k: int|
        0 <= k < n ==> (#[trigger] shown.lines[k]).0 == ' ' || shown.lines[k].0 == '-'
            || shown.lines[k].0 == '+'
    &&& forall|k: int|
        0 <= k < n ==> ((#[trigger] shown.lines[k]).0 == ' ' <==> k < shown.above || k >= n
            - shown.below)
    // The removed lines come before the added ones.
    &&& forall|j: int, k: int|
        0 <= j < k < n && (#[trigger] shown.lines[j]).0 == '+' ==> (#[trigger] shown.lines[k]).0
            != '-'
    // Where lines are both removed and added, they differ at their beginning and at their end.
    &&& shown.above + shown.below < shown.old_count && shown.above + shown.below < shown.new_count
        ==> old[shown.first + shown.above] != new[shown.first + shown.above] && old[old_end
        - shown.below - 1] != new[new_end - shown.below - 1]
}

spec fn tagged(mark: char, lines: Seq<Seq<char>>) -> Seq<(char, Seq<char>)> {
    Seq::new(lines.len(), |i: int| (mark, lines[i]))
}

proof fn lemma_printed_join(a: Seq<(char, Seq<char>)>, b: Seq<(char, Seq<char>)>)
    ensures
        printed(a + b) == printed(a) + printed(b),
    decreases a.len(),
{
    if a.len() == 0 {
        assert(a + b == b);
    } else {
        lemma_printed_join(a.drop_first(), b);
        assert((a + b).drop_first() == a.drop_first() + b);
    }
}

proof fn lemma_without_join(a: Seq<(char, Seq<char>)>, b: Seq<(char, Seq<char>)>, mark: char)
    ensures
        without(a + b, mark) == without(a, mark) + without(b, mark),
    decreases a.len(),
{
    if a.len() == 0 {
        assert(a + b == b);
    } else {
        lemma_without_join(a.drop_first(), b, mark);
        assert((a + b).drop_first() == a.drop_first() + b);
    }
}

proof fn lemma_tagged(mark: char, lines: Seq<Seq<char>>, dropped: char)
    ensures
        printed(tagged(mark, lines)) == lineage_text::marked(mark, lines),
        without(tagged(mark, lines), dropped) == if mark == dropped {
            Seq::<Seq<char>>::empty()
        } else {
            lines
        },
    decreases lines.len(),
{
    let all = tagged(mark, lines);
    if lines.len() > 0 {
        let last = tagged(mark, seq![lines.last()]);
        let before = tagged(mark, lines.drop_last());
        lemma_tagged(mark, lines.drop_last(), dropped);
        assert(all == before + last);
        lemma_printed_join(before, last);
        lemma_without_join(before, last, dropped);
        assert(last.drop_first() == Seq::<(char, Seq<char>)>::empty());
        assert(lines == lines.drop_last().push(lines.last()));
        assert(printed(last.drop_first()) == Seq::<char>::empty());
        assert(without(last.drop_first(), dropped) == Seq::<Seq<char>>::empty());
    }
}

/// Behind a common end the texts differ, or one of them is used up.
proof fn lemma_end_differs(a: Seq<Seq<char>>, b: Seq<Seq<char>>)
    ensures
        lineage_text::common_end(a, b) < a.len() && lineage_text::common_end(a, b) < b.len()
            ==> a[a.len() - 1 - lineage_text::common_end(a, b)] != b[b.len() - 1
            - lineage_text::common_end(a, b)],
    decreases a.len(),
{
    if a.len() > 0 && b.len() > 0 && a.last() == b.last() {
        lemma_end_differs(a.drop_last(), b.drop_last());
    }
}

/// The parts of a hunk: the lines above, the removed ones, the added ones, and the lines below.
struct Parts {
    start: int,
    end: int,
    above: Seq<Seq<char>>,
    removed: Seq<Seq<char>>,
    added: Seq<Seq<char>>,
    below: Seq<Seq<char>>,
}

spec fn parts_of(old: Seq<Seq<char>>, new: Seq<Seq<char>>) -> Parts {
    let start = lineage_text::common_start(old, new) as int;
    let end = lineage_text::common_end(old.skip(start), new.skip(start)) as int;
    let first = if start > 3 {
        start - 3
    } else {
        0
    };
    let last = if end > 3 {
        old.len() - end + 3
    } else {
        old.len() as int
    };
    Parts {
        start,
        end,
        above: old.subrange(first, start),
        removed: old.subrange(start, old.len() - end),
        added: new.subrange(start, new.len() - end),
        below: old.subrange(old.len() - end, last),
    }
}

spec fn lines_of(parts: Parts) -> Seq<(char, Seq<char>)> {
    tagged(' ', parts.above) + tagged('-', parts.removed) + tagged('+', parts.added) + tagged(
        ' ',
        parts.below,
    )
}

proof fn lemma_lines_of(parts: Parts)
    ensures
        printed(lines_of(parts)) == lineage_text::marked(' ', parts.above) + lineage_text::marked(
            '-',
            parts.removed,
        ) + lineage_text::marked('+', parts.added) + lineage_text::marked(' ', parts.below),
        without(lines_of(parts), '+') == parts.above + parts.removed + parts.below,
        without(lines_of(parts), '-') == parts.above + parts.added + parts.below,
{
    let p = tagged(' ', parts.above);
    let q = tagged('-', parts.removed);
    let r = tagged('+', parts.added);
    let t = tagged(' ', parts.below);
    lemma_tagged(' ', parts.above, '+');
    lemma_tagged(' ', parts.above, '-');
    lemma_tagged('-', parts.removed, '+');
    lemma_tagged('-', parts.removed, '-');
    lemma_tagged('+', parts.added, '+');
    lemma_tagged('+', parts.added, '-');
    lemma_tagged(' ', parts.below, '+');
    lemma_tagged(' ', parts.below, '-');
    lemma_printed_join(p, q);
    lemma_printed_join(p + q, r);
    lemma_printed_join(p + q + r, t);
    lemma_without_join(p, q, '+');
    lemma_without_join(p + q, r, '+');
    lemma_without_join(p + q + r, t, '+');
    lemma_without_join(p, q, '-');
    lemma_without_join(p + q, r, '-');
    lemma_without_join(p + q + r, t, '-');
    assert(parts.above + parts.removed + Seq::<Seq<char>>::empty() == parts.above + parts.removed);
    assert(parts.above + Seq::<Seq<char>>::empty() == parts.above);
}

/// Where the parts of a hunk begin and end.
proof fn lemma_bounds(old: Seq<Seq<char>>, new: Seq<Seq<char>>)
    ensures
        ({
            let parts = parts_of(old, new);
            &&& 0 <= parts.start <= old.len() - parts.end
            &&& 0 <= parts.end
            &&& parts.start <= new.len() - parts.end
            &&& parts.above.len() == if parts.start > 3 {
                3
            } else {
                parts.start
            }
            &&& parts.below.len() == if parts.end > 3 {
                3
            } else {
                parts.end
            }
            &&& parts.removed.len() == old.len() - parts.end - parts.start
            &&& parts.added.len() == new.len() - parts.end - parts.start
        }),
{
    let start = parts_of(old, new).start;
    lineage_text::lemma_common_start(old, new);
    lineage_text::lemma_common_end(old.skip(start), new.skip(start));
}

proof fn lemma_start_at(old: Seq<Seq<char>>, new: Seq<Seq<char>>, i: int)
    requires
        0 <= i < parts_of(old, new).start,
    ensures
        old[i] == new[i],
{
    let start = parts_of(old, new).start;
    lineage_text::lemma_common_start(old, new);
    assert(old.take(start)[i] == new.take(start)[i]);
}

proof fn lemma_end_at(old: Seq<Seq<char>>, new: Seq<Seq<char>>, k: int)
    requires
        0 <= k < parts_of(old, new).end,
    ensures
        old[old.len() - parts_of(old, new).end + k] == new[new.len() - parts_of(old, new).end + k],
{
    let start = parts_of(old, new).start;
    let end = parts_of(old, new).end;
    lemma_bounds(old, new);
    let a = old.skip(start);
    let b = new.skip(start);
    lineage_text::lemma_common_end(a, b);
    assert(a.skip(a.len() - end)[k] == b.skip(b.len() - end)[k]);
}

proof fn lemma_old_side(old: Seq<Seq<char>>, new: Seq<Seq<char>>)
    ensures
        ({
            let parts = parts_of(old, new);
            parts.above + parts.removed + parts.below == old.subrange(
                parts.start - parts.above.len(),
                old.len() - parts.end + parts.below.len(),
            )
        }),
{
    lemma_bounds(old, new);
}

proof fn lemma_new_side(old: Seq<Seq<char>>, new: Seq<Seq<char>>)
    ensures
        ({
            let parts = parts_of(old, new);
            parts.above + parts.added + parts.below == new.subrange(
                parts.start - parts.above.len(),
                new.len() - parts.end + parts.below.len(),
            )
        }),
{
    lemma_bounds(old, new);
    let parts = parts_of(old, new);
    let first = parts.start - parts.above.len();
    let x = parts.above + parts.added + parts.below;
    let y = new.subrange(first, new.len() - parts.end + parts.below.len());
    let m = (parts.above.len() + parts.added.len()) as int;
    assert forall|i: int| 0 <= i < x.len() implies x[i] == y[i] by {
        if i < parts.above.len() {
            lemma_start_at(old, new, first + i);
        } else if i >= m {
            lemma_end_at(old, new, i - m);
        }
    }
    assert(x == y);
}

proof fn lemma_outside(old: Seq<Seq<char>>, new: Seq<Seq<char>>)
    ensures
        ({
            let parts = parts_of(old, new);
            let first = parts.start - parts.above.len();
            &&& old.take(first) == new.take(first)
            &&& old.skip(old.len() - parts.end + parts.below.len()) == new.skip(
                new.len() - parts.end + parts.below.len(),
            )
        }),
{
    lemma_bounds(old, new);
    let parts = parts_of(old, new);
    let first = parts.start - parts.above.len();
    let a = old.take(first);
    let b = new.take(first);
    assert forall|i: int| 0 <= i < a.len() implies a[i] == b[i] by {
        lemma_start_at(old, new, i);
    }
    assert(a == b);
    let u = old.skip(old.len() - parts.end + parts.below.len());
    let v = new.skip(new.len() - parts.end + parts.below.len());
    assert forall|i: int| 0 <= i < u.len() implies u[i] == v[i] by {
        lemma_end_at(old, new, parts.below.len() + i);
    }
    assert(u == v);
}

proof fn lemma_edges(old: Seq<Seq<char>>, new: Seq<Seq<char>>)
    ensures
        ({
            let parts = parts_of(old, new);
            parts.start < old.len() - parts.end && parts.start < new.len() - parts.end
                ==> old[parts.start] != new[parts.start] && old[old.len() - parts.end - 1]
                != new[new.len() - parts.end - 1]
        }),
{
    lemma_bounds(old, new);
    let parts = parts_of(old, new);
    let a = old.skip(parts.start);
    let b = new.skip(parts.start);
    lineage_text::lemma_common_start(old, new);
    lemma_end_differs(a, b);
    if parts.start < old.len() - parts.end && parts.start < new.len() - parts.end {
        assert(a[a.len() - 1 - parts.end] == old[old.len() - parts.end - 1]);
        assert(b[b.len() - 1 - parts.end] == new[new.len() - parts.end - 1]);
    }
}

proof fn lemma_marks(parts: Parts)
    ensures
        ({
            let lines = lines_of(parts);
            let above = parts.above.len() as int;
            let changed = above + parts.removed.len();
            let below = changed + parts.added.len();
            &&& lines.len() == below + parts.below.len()
            &&& forall|k: int|
                0 <= k < lines.len() ==> (#[trigger] lines[k]).0 == if k < above || k >= below {
                    ' '
                } else if k < changed {
                    '-'
                } else {
                    '+'
                }
        }),
{
}

/// A hunk shows the change, the whole of it and nothing else. Its lines without those marked as added
/// are the lines of the old text that its head counts; without those marked as removed they are the
/// lines of the new text that it counts; and everything outside is common to both texts.
pub proof fn a_hunk_shows_the_change(path: Seq<char>, old: Seq<Seq<char>>, new: Seq<Seq<char>>) -> (
    shown: Shown)
    ensures
        describes(shown, old, new),
        lineage_text::hunk(path, old, new) == head(
            path,
            shown.first,
            shown.old_count,
            shown.new_count,
        ) + printed(shown.lines),
{
    let parts = parts_of(old, new);
    let lines = lines_of(parts);
    lemma_bounds(old, new);
    lemma_old_side(old, new);
    lemma_new_side(old, new);
    lemma_outside(old, new);
    lemma_edges(old, new);
    lemma_lines_of(parts);
    lemma_marks(parts);
    let above = parts.above.len() as int;
    let below = parts.below.len() as int;
    let first = parts.start - above;
    let old_count = old.len() - parts.end + below - first;
    let new_count = new.len() - parts.end + below - first;
    let top = head(path, first, old_count, new_count);
    assert(lineage_text::hunk(path, old, new) == top + printed(lines)) by {
        let p = lineage_text::marked(' ', parts.above);
        let q = lineage_text::marked('-', parts.removed);
        let r = lineage_text::marked('+', parts.added);
        let t = lineage_text::marked(' ', parts.below);
        assert(lineage_text::hunk(path, old, new) == top + p + q + r + t);
        assert(top + p + q + r + t == top + (p + q + r + t));
    }
    Shown { first, old_count, new_count, lines, above, below }
}

/// The diff of a file shows its change where both contents are text and their lines differ. Where
/// only what ends the lines differs, or a content is no text, the diff says so.
pub proof fn a_diff_shows_the_change(
    path: Seq<char>,
    before: Seq<u8>,
    after: Seq<u8>,
    before_sha256: Option<Seq<char>>,
    after_sha256: Option<Seq<char>>,
) -> (shown: Shown)
    ensures
        ({
            let diff = lineage_text::diff(path, before, after, before_sha256, after_sha256);
            if valid_utf8(before) && valid_utf8(after) {
                let old = text::lines(decode_utf8(before));
                let new = text::lines(decode_utf8(after));
                if old == new {
                    diff == "--- a/"@ + path + "\n+++ b/"@ + path
                        + "\n@@ content bytes changed without line changes @@\n"@
                } else {
                    &&& describes(shown, old, new)
                    &&& exists|k: int|
                        0 <= k < shown.lines.len() && (#[trigger] shown.lines[k]).0 != ' '
                    &&& diff == head(path, shown.first, shown.old_count, shown.new_count) + printed(
                        shown.lines,
                    )
                }
            } else {
                diff == "Binary file "@ + path + " changed ("@ + (match before_sha256 {
                    Some(digest) => digest,
                    None => "(none)"@,
                }) + " -> "@ + (match after_sha256 {
                    Some(digest) => digest,
                    None => "(none)"@,
                }) + ")\n"@
            }
        }),
{
    let old = text::lines(decode_utf8(before));
    let new = text::lines(decode_utf8(after));
    let shown = a_hunk_shows_the_change(path, old, new);
    if old != new && forall|k: int|
        0 <= k < shown.lines.len() ==> (#[trigger] shown.lines[k]).0 == ' ' {
        lemma_all_kept(shown.lines, '+');
        lemma_all_kept(shown.lines, '-');
        assert(without(shown.lines, '+') == without(shown.lines, '-')) by {
            assert(without(shown.lines, '+').len() == shown.lines.len());
        }
        let old_end = shown.first + shown.old_count;
        let new_end = shown.first + shown.new_count;
        assert(old == old.take(shown.first) + old.subrange(shown.first, old_end) + old.skip(old_end));
        assert(new == new.take(shown.first) + new.subrange(shown.first, new_end) + new.skip(new_end));
        assert(false);
    }
    shown
}

proof fn lemma_all_kept(shown: Seq<(char, Seq<char>)>, mark: char)
    requires
        forall|k: int| 0 <= k < shown.len() ==> (#[trigger] shown[k]).0 == ' ',
        mark != ' ',
    ensures
        without(shown, mark) == Seq::new(shown.len(), |i: int| shown[i].1),
    decreases shown.len(),
{
    if shown.len() > 0 {
        let rest = shown.drop_first();
        assert forall|k: int| 0 <= k < rest.len() implies (#[trigger] rest[k]).0 == ' ' by {
            assert(rest[k] == shown[k + 1]);
        }
        lemma_all_kept(rest, mark);
        assert(shown[0].0 == ' ');
    }
}

/// Every changed file of a source change is shown, in order.
pub proof fn every_changed_file_is_shown(change: SourceChange, objects: Seq<FileObjects>, i: int)
    requires
        objects.len() == change.files@.len(),
        0 <= i < objects.len(),
    ensures
        text::stands_at(
            lineage_text::change_text(change, objects),
            lineage_text::diff(
                change.files@[i].path@,
                objects[i].before@,
                objects[i].after@,
                text::opt(change.files@[i].before_sha256),
                text::opt(change.files@[i].after_sha256),
            ),
            lineage_text::diffs(change.files@, objects, i).len() as int,
        ),
{
    let n = objects.len() as int;
    lemma_diffs_grow(change, objects, i + 1, n);
    let all = lineage_text::diffs(change.files@, objects, n);
    let upto = lineage_text::diffs(change.files@, objects, i + 1);
    let before = lineage_text::diffs(change.files@, objects, i);
    let one = lineage_text::diff(
        change.files@[i].path@,
        objects[i].before@,
        objects[i].after@,
        text::opt(change.files@[i].before_sha256),
        text::opt(change.files@[i].after_sha256),
    );
    assert(upto == before + one);
    assert(all.take(upto.len() as int) == upto);
    assert(all.subrange(before.len() as int, (before.len() + one.len()) as int) == one) by {
        assert forall|k: int| 0 <= k < one.len() implies all[before.len() as int + k] == one[k] by {
            assert(all.take(upto.len() as int)[before.len() + k] == upto[before.len() + k]);
        }
    }
    lemma_diff_shown(
        change.files@[i].path@,
        objects[i].before@,
        objects[i].after@,
        text::opt(change.files@[i].before_sha256),
        text::opt(change.files@[i].after_sha256),
    );
}

proof fn lemma_diffs_grow(change: SourceChange, objects: Seq<FileObjects>, i: int, n: int)
    requires
        0 <= i <= n,
    ensures
        lineage_text::diffs(change.files@, objects, i).is_prefix_of(
            lineage_text::diffs(change.files@, objects, n),
        ),
    decreases n,
{
    if i < n {
        lemma_diffs_grow(change, objects, i, n - 1);
    }
}

/// A diff is never empty.
proof fn lemma_diff_shown(
    path: Seq<char>,
    before: Seq<u8>,
    after: Seq<u8>,
    before_sha256: Option<Seq<char>>,
    after_sha256: Option<Seq<char>>,
)
    ensures
        lineage_text::diff(path, before, after, before_sha256, after_sha256).len() > 0,
{
    let shown = a_diff_shows_the_change(path, before, after, before_sha256, after_sha256);
    reveal_strlit("--- a/");
    reveal_strlit("Binary file ");
}

} // verus!
