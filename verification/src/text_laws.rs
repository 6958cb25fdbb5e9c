//! What holds of every text and every path.

use vstd::prelude::*;

use crate::paths;
use crate::paths::{PathError, PathPartView};
use crate::sidecar_runtime;
use crate::sidecar_runtime::HostPlatform;
use crate::text;

verus! {

// Texts.

/// Among the characters of ASCII, white space is the space, the tabulators, the line feed, the form
/// feed, and the carriage return; beyond them it is only what Unicode calls so.
pub proof fn white_space_of_ascii(c: char)
    ensures
        c as int <= 0x7f ==> (text::is_white(c) <==> c == ' ' || c == '\t' || c == '\n' || c == '\r'
            || c as int == 0xb || c as int == 0xc),
        c as int > 0x3000 ==> !text::is_white(c),
{
}

/// Trimming takes the white space at both ends away, all of it and nothing else.
pub proof fn trimming_takes_the_white_ends(s: Seq<char>) -> (ends: (int, int))
    ensures
        0 <= ends.0 <= ends.1 <= s.len(),
        text::trimmed(s) == s.subrange(ends.0, ends.1),
        forall|i: int| 0 <= i < ends.0 ==> text::is_white(#[trigger] s[i]),
        forall|i: int| ends.1 <= i < s.len() ==> text::is_white(#[trigger] s[i]),
        ends.0 < ends.1 ==> !text::is_white(s[ends.0]) && !text::is_white(s[ends.1 - 1]),
    decreases s.len(),
{
    if s.len() == 0 {
        assert(s.subrange(0, 0) == s);
        (0, 0)
    } else if text::is_white(s[0]) {
        let rest = s.drop_first();
        let (a, b) = trimming_takes_the_white_ends(rest);
        assert(rest.subrange(a, b) == s.subrange(a + 1, b + 1));
        assert forall|i: int| 0 <= i < a + 1 implies text::is_white(#[trigger] s[i]) by {
            if i > 0 {
                assert(rest[i - 1] == s[i]);
            }
        }
        assert forall|i: int| b + 1 <= i < s.len() implies text::is_white(#[trigger] s[i]) by {
            assert(rest[i - 1] == s[i]);
        }
        (a + 1, b + 1)
    } else if text::is_white(s.last()) {
        let rest = s.drop_last();
        let (a, b) = trimming_takes_the_white_ends(rest);
        assert(rest.subrange(a, b) == s.subrange(a, b));
        assert forall|i: int| 0 <= i < a implies text::is_white(#[trigger] s[i]) by {
            assert(rest[i] == s[i]);
        }
        assert forall|i: int| b <= i < s.len() implies text::is_white(#[trigger] s[i]) by {
            if i < rest.len() {
                assert(rest[i] == s[i]);
            }
        }
        (a, b)
    } else {
        assert(s.subrange(0, s.len() as int) == s);
        (0, s.len() as int)
    }
}

/// A text comes before another exactly if, behind what both begin with, it ends first or has the
/// smaller character.
pub proof fn texts_are_ordered_by_their_first_difference(a: Seq<char>, b: Seq<char>)
    ensures
        text::precedes(a, b) <==> exists|n: int| #[trigger] differ_at(a, b, n),
    decreases a.len(),
{
    if a.len() > 0 && b.len() > 0 && a[0] == b[0] {
        let x = a.drop_first();
        let y = b.drop_first();
        texts_are_ordered_by_their_first_difference(x, y);
        if text::precedes(a, b) {
            let n = choose|n: int| #[trigger] differ_at(x, y, n);
            assert forall|i: int| 0 <= i < n + 1 implies a[i] == b[i] by {
                if i > 0 {
                    assert(x[i - 1] == y[i - 1]);
                }
            }
            assert(differ_at(a, b, n + 1));
        }
        if exists|n: int| #[trigger] differ_at(a, b, n) {
            let n = choose|n: int| #[trigger] differ_at(a, b, n);
            assert(n > 0);
            assert forall|i: int| 0 <= i < n - 1 implies x[i] == y[i] by {
                assert(a[i + 1] == b[i + 1]);
            }
            assert(differ_at(x, y, n - 1));
        }
    } else {
        if text::precedes(a, b) {
            assert(differ_at(a, b, 0));
        }
        if exists|n: int| #[trigger] differ_at(a, b, n) {
            let n = choose|n: int| #[trigger] differ_at(a, b, n);
            if n > 0 {
                assert(a[0] == b[0]);
            }
        }
    }
}

/// Both texts begin with the same characters, and then the first one ends or has the smaller one.
pub open spec fn differ_at(a: Seq<char>, b: Seq<char>, n: int) -> bool {
    &&& 0 <= n <= a.len()
    &&& n < b.len()
    &&& forall|i: int| 0 <= i < n ==> a[i] == b[i]
    &&& n == a.len() || (a[n] as int) < (b[n] as int)
}

/// Lower case changes the capital letters of ASCII and nothing else.
pub proof fn lower_case_changes_capitals(s: Seq<char>, i: int)
    requires
        0 <= i < s.len(),
    ensures
        text::lower_cased(s).len() == s.len(),
        'A' <= s[i] <= 'Z' ==> text::lower_cased(s)[i] as int == s[i] as int + 32,
        !('A' <= s[i] <= 'Z') ==> text::lower_cased(s)[i] == s[i],
{
}

/// A number is written with its digits, the last of which is its remainder by ten, and a number below
/// ten with one digit.
pub proof fn numbers_are_written_in_base_ten(n: nat)
    ensures
        text::decimal(n).len() > 0,
        n < 10 ==> text::decimal(n).len() == 1,
        n >= 10 ==> text::decimal(n).drop_last() == text::decimal(n / 10),
        text::decimal(n).last() as int == '0' as int + n % 10,
        n > 0 ==> text::decimal(n)[0] != '0',
        forall|i: int| 0 <= i < text::decimal(n).len() ==> '0' <= (#[trigger] text::decimal(n)[i])
            <= '9',
    decreases n,
{
    if n >= 10 {
        numbers_are_written_in_base_ten(n / 10);
        assert(text::decimal(n).drop_last() == text::decimal(n / 10));
    }
}

/// Other numbers are written otherwise.
pub proof fn written_numbers_differ(a: nat, b: nat)
    requires
        text::decimal(a) == text::decimal(b),
    ensures
        a == b,
{
    text::a_written_number_is_read_back(a);
    text::a_written_number_is_read_back(b);
}

/// A padded number has the width at least, and is the number with nothing but zeros before it.
pub proof fn a_padded_number_has_its_width(n: nat, width: nat)
    ensures
        text::padded(n, width).len() >= width,
        text::padded(n, width).len() >= text::decimal(n).len(),
        text::padded(n, width).skip(text::padded(n, width).len() - text::decimal(n).len())
            == text::decimal(n),
        forall|i: int|
            0 <= i < text::padded(n, width).len() - text::decimal(n).len() ==> #[trigger] text::padded(
                n,
                width,
            )[i] == '0',
        text::padded(n, width).len() == width || text::padded(n, width) == text::decimal(n),
{
    let all = text::padded(n, width);
    assert(all.skip(all.len() - text::decimal(n).len()) == text::decimal(n));
}

/// A text is divided at the first of a character: the parts with the character between them are the
/// text, and the first part does not hold it.
pub proof fn a_text_is_divided_at_the_first(s: Seq<char>, c: char)
    ensures
        match text::divided(s, c) {
            Some((a, b)) => s == a.push(c) + b && forall|i: int|
                0 <= i < a.len() ==> #[trigger] a[i] != c,
            None => forall|i: int| 0 <= i < s.len() ==> #[trigger] s[i] != c,
        },
{
    text::lemma_first_index(s, c);
    let at = text::first_index(s, c);
    if at < s.len() {
        assert(s == s.take(at).push(c) + s.skip(at + 1));
    }
}

/// A prefix is taken away exactly from a text that begins with it.
pub proof fn a_prefix_is_taken_from_what_begins_with_it(s: Seq<char>, prefix: Seq<char>)
    ensures
        match text::after_prefix(s, prefix) {
            Some(rest) => s == prefix + rest,
            None => s.len() < prefix.len() || s.take(prefix.len() as int) != prefix,
        },
{
    if prefix.is_prefix_of(s) {
        assert(s == prefix + s.skip(prefix.len() as int));
    }
}

// Pieces of paths.

/// Pieces with a slash between any two of them.
pub open spec fn with_slashes(pieces: Seq<Seq<char>>) -> Seq<char>
    decreases pieces.len(),
{
    if pieces.len() == 0 {
        Seq::empty()
    } else if pieces.len() == 1 {
        pieces[0]
    } else {
        pieces[0].push('/') + with_slashes(pieces.drop_first())
    }
}

/// The pieces of a path with slashes between them are the path, and no piece holds a slash.
pub proof fn pieces_make_up_their_path(s: Seq<char>)
    ensures
        paths::pieces(s).len() > 0,
        with_slashes(paths::pieces(s)) == s,
        forall|i: int, k: int|
            0 <= i < paths::pieces(s).len() && 0 <= k < paths::pieces(s)[i].len()
                ==> #[trigger] paths::pieces(s)[i][k] != '/',
    decreases s.len(),
{
    text::lemma_first_index(s, '/');
    let end = text::first_index(s, '/');
    let all = paths::pieces(s);
    if end == s.len() {
        assert(all == seq![s]);
    } else {
        let rest = s.skip(end + 1);
        pieces_make_up_their_path(rest);
        assert(all == seq![s.take(end)] + paths::pieces(rest));
        assert(all.drop_first() == paths::pieces(rest));
        assert(all[0] == s.take(end));
        assert(s == s.take(end).push('/') + rest);
        assert forall|i: int, k: int|
            0 <= i < all.len() && 0 <= k < all[i].len() implies #[trigger] all[i][k] != '/' by {
            if i > 0 {
                assert(all[i] == paths::pieces(rest)[i - 1]);
                assert(paths::pieces(rest)[i - 1][k] != '/');
            } else {
                assert(all[0][k] == s[k]);
            }
        }
    }
}

/// A piece that says something: not empty, and not a single dot.
pub open spec fn says_something() -> spec_fn(Seq<char>) -> bool {
    |piece: Seq<char>| piece.len() > 0 && piece != seq!['.']
}

/// The part that a piece stands for.
pub open spec fn stands_for() -> spec_fn(Seq<char>) -> PathPartView {
    |piece: Seq<char>|
        if piece == seq!['.', '.'] {
            PathPartView::Parent
        } else {
            PathPartView::Name(piece)
        }
}

proof fn lemma_parts_of(pieces: Seq<Seq<char>>)
    ensures
        paths::parts_of(pieces) == pieces.filter(says_something()).map_values(stands_for()),
    decreases pieces.len(),
{
    reveal(Seq::filter);
    let f = says_something();
    let g = stands_for();
    if pieces.len() > 0 {
        lemma_parts_of(pieces.drop_last());
        let before = pieces.drop_last().filter(f);
        let last = pieces.last();
        if f(last) {
            assert(pieces.filter(f) == before.push(last));
            assert(before.push(last).map_values(g) == before.map_values(g).push(g(last)));
            assert(paths::part_of(last) == seq![g(last)]);
            assert(paths::parts_of(pieces) == before.map_values(g) + seq![g(last)]);
        } else {
            assert(pieces.filter(f) == before);
            assert(paths::part_of(last) == Seq::<PathPartView>::empty());
            assert(paths::parts_of(pieces) == before.map_values(g) + Seq::<PathPartView>::empty());
        }
    } else {
        assert(pieces.filter(f).map_values(g) == Seq::<PathPartView>::empty());
    }
}

/// The parts of a path are those of its pieces that say something: names, and steps up where a piece
/// is two dots; with the root before them where the path begins with a slash, and a sign of the current
/// directory where its first piece is a dot.
pub proof fn parts_are_the_pieces_that_say_something(path: Seq<char>)
    ensures
        ({
            let said = paths::pieces(path).filter(says_something()).map_values(stands_for());
            &&& path.len() > 0 && path[0] == '/' ==> paths::parts(path) == seq![PathPartView::Root]
                + said
            &&& (path.len() == 0 || path[0] != '/') && paths::pieces(path)[0] == seq!['.']
                ==> paths::parts(path) == seq![PathPartView::Current] + said
            &&& (path.len() == 0 || path[0] != '/') && paths::pieces(path)[0] != seq!['.']
                ==> paths::parts(path) == said
        }),
{
    lemma_parts_of(paths::pieces(path));
    let said = paths::pieces(path).filter(says_something()).map_values(stands_for());
    assert(Seq::<PathPartView>::empty() + said == said);
}

proof fn lemma_pieces_join(a: Seq<char>, b: Seq<char>)
    ensures
        paths::pieces(a.push('/') + b) == paths::pieces(a) + paths::pieces(b),
    decreases a.len(),
{
    let s = a.push('/') + b;
    text::lemma_first_index(a, '/');
    let end = text::first_index(a, '/');
    if end == a.len() {
        assert forall|j: int| 0 <= j < end implies s[j] != '/' by {
            assert(s[j] == a[j]);
        }
        assert(s[end] == '/');
        text::lemma_first_index_is(s, '/', end);
        assert(s.take(end) == a);
        assert(s.skip(end + 1) == b);
        assert(paths::pieces(a) == seq![a]);
    } else {
        assert forall|j: int| 0 <= j < end implies s[j] != '/' by {
            assert(s[j] == a[j]);
        }
        assert(s[end] == a[end]);
        text::lemma_first_index_is(s, '/', end);
        let rest = a.skip(end + 1);
        lemma_pieces_join(rest, b);
        assert(s.take(end) == a.take(end));
        assert(s.skip(end + 1) == rest.push('/') + b);
        assert(seq![a.take(end)] + (paths::pieces(rest) + paths::pieces(b)) == (seq![a.take(end)]
            + paths::pieces(rest)) + paths::pieces(b));
    }
}

proof fn lemma_parts_join(x: Seq<Seq<char>>, y: Seq<Seq<char>>)
    ensures
        paths::parts_of(x + y) == paths::parts_of(x) + paths::parts_of(y),
    decreases y.len(),
{
    if y.len() == 0 {
        assert(x + y == x);
        assert(paths::parts_of(x) + Seq::<PathPartView>::empty() == paths::parts_of(x));
    } else {
        lemma_parts_join(x, y.drop_last());
        assert((x + y).drop_last() == x + y.drop_last());
        assert((x + y).last() == y.last());
        let p = paths::parts_of(x);
        let q = paths::parts_of(y.drop_last());
        let r = paths::part_of(y.last());
        assert((p + q) + r == p + (q + r));
    }
}

/// A path that is joined to a base has the parts of the base, and behind them its own.
pub proof fn a_joined_path_lies_below_its_base(base: Seq<char>, path: Seq<char>)
    requires
        path.len() == 0 || path[0] != '/',
        paths::pieces(path)[0] != seq!['.'],
    ensures
        paths::parts(paths::joined(base, path)) == paths::parts(base) + paths::parts(path),
{
    let whole = paths::joined(base, path);
    let none = Seq::<PathPartView>::empty();
    assert(paths::parts(path) == none + paths::parts_of(paths::pieces(path)));
    assert(paths::parts(path) == paths::parts_of(paths::pieces(path)));
    pieces_make_up_their_path(base);
    pieces_make_up_their_path(path);
    pieces_make_up_their_path(whole);
    if base.len() == 0 {
        assert(whole == path);
        assert(paths::pieces(base) == seq![base]);
        assert(paths::part_of(base) == none);
        assert(seq![base].drop_last() == Seq::<Seq<char>>::empty());
        assert(paths::parts_of(seq![base].drop_last()) == none);
        assert(paths::parts_of(seq![base]) == none);
        assert(paths::parts(base) == none);
        assert(none + paths::parts(path) == paths::parts(path));
    } else if base.last() == '/' {
        let front = base.drop_last();
        let empty = Seq::<char>::empty();
        assert(base == front.push('/') + empty);
        assert(whole == front.push('/') + path);
        lemma_pieces_join(front, empty);
        lemma_pieces_join(front, path);
        lemma_parts_join(paths::pieces(front), paths::pieces(empty));
        lemma_parts_join(paths::pieces(front), paths::pieces(path));
        assert(paths::pieces(empty) == seq![empty]);
        assert(seq![empty].drop_last() == Seq::<Seq<char>>::empty());
        assert(paths::parts_of(seq![empty].drop_last()) == none);
        assert(paths::parts_of(seq![empty]) == none);
        pieces_make_up_their_path(front);
        assert(paths::pieces(base)[0] == paths::pieces(front)[0]);
        assert(paths::pieces(whole)[0] == paths::pieces(front)[0]);
        assert(paths::parts_of(paths::pieces(base)) == paths::parts_of(paths::pieces(front)));
        lemma_same_start(base, whole, paths::parts_of(paths::pieces(path)));
    } else {
        assert(whole == base.push('/') + path);
        lemma_pieces_join(base, path);
        lemma_parts_join(paths::pieces(base), paths::pieces(path));
        assert(paths::pieces(whole)[0] == paths::pieces(base)[0]);
        lemma_same_start(base, whole, paths::parts_of(paths::pieces(path)));
    }
}

proof fn lemma_same_start(base: Seq<char>, whole: Seq<char>, more: Seq<PathPartView>)
    requires
        base.len() > 0,
        whole.len() > 0,
        base[0] == whole[0],
        paths::pieces(base)[0] == paths::pieces(whole)[0],
        paths::parts_of(paths::pieces(whole)) == paths::parts_of(paths::pieces(base)) + more,
    ensures
        paths::parts(whole) == paths::parts(base) + more,
{
    let start = if base[0] == '/' {
        seq![PathPartView::Root]
    } else if paths::pieces(base)[0] == seq!['.'] {
        seq![PathPartView::Current]
    } else {
        Seq::empty()
    };
    let own = paths::parts_of(paths::pieces(base));
    assert(paths::parts(base) == start + own);
    assert(paths::parts(whole) == start + (own + more));
    assert(start + (own + more) == (start + own) + more);
}

/// What lies below a base is recorded as it was joined to the base: in the same form and with the same
/// refusals as the relative path alone.
pub proof fn a_joined_path_is_recorded_as_it_was(base: Seq<char>, path: Seq<char>)
    requires
        path.len() == 0 || path[0] != '/',
        paths::pieces(path)[0] != seq!['.'],
    ensures
        paths::portable_below(base, paths::joined(base, path)) == paths::portable(path),
{
    a_joined_path_lies_below_its_base(base, path);
    let all = paths::parts(paths::joined(base, path));
    let n = paths::parts(base).len() as int;
    assert(all.skip(n) == paths::parts(path));
    assert(paths::parts(base).is_prefix_of(all));
}

/// A path can be recorded exactly if it is relative, has a name, and takes no step up and does not
/// begin with a dot; it is recorded as its names with slashes between them.
pub proof fn only_names_are_recorded(path: Seq<char>)
    ensures
        match paths::portable(path) {
            Ok(recorded) => {
                &&& paths::parts(path).len() > 0
                &&& forall|i: int|
                    0 <= i < paths::parts(path).len() ==> (#[trigger] paths::parts(path)[i]) is Name
                &&& with_slashes(
                    Seq::new(
                        paths::parts(path).len(),
                        |i: int| paths::parts(path)[i]->Name_0,
                    ),
                ) == recorded
            },
            Err(PathError::NotRelative) => exists|i: int|
                0 <= i < paths::parts(path).len() && !((#[trigger] paths::parts(path)[i]) is Name),
            Err(_) => paths::parts(path).len() == 0,
        },
{
    let parts = paths::parts(path);
    if paths::only_names(parts) && parts.len() > 0 {
        let names = paths::names(parts);
        lemma_slashed(names);
        assert(names == Seq::new(parts.len(), |i: int| parts[i]->Name_0));
    }
}

proof fn lemma_slashed(names: Seq<Seq<char>>)
    ensures
        paths::slashed(names) == with_slashes(names),
    decreases names.len(),
{
    if names.len() > 1 {
        lemma_slashed(names.drop_last());
        lemma_with_slashes_push(names.drop_last(), names.last());
        assert(names.drop_last().push(names.last()) == names);
    }
}

proof fn lemma_with_slashes_push(names: Seq<Seq<char>>, last: Seq<char>)
    requires
        names.len() > 0,
    ensures
        with_slashes(names.push(last)) == with_slashes(names).push('/') + last,
    decreases names.len(),
{
    let all = names.push(last);
    if names.len() == 1 {
        assert(all.drop_first() == seq![last]);
        assert(with_slashes(seq![last]) == last);
    } else {
        lemma_with_slashes_push(names.drop_first(), last);
        assert(all.drop_first() == names.drop_first().push(last));
        let rest = with_slashes(names.drop_first());
        assert(names[0].push('/') + (rest.push('/') + last) == (names[0].push('/') + rest).push('/')
            + last);
    }
}

/// The extension of a name is what follows its last dot; a name without a dot, or with none but the
/// first character, has none.
pub proof fn an_extension_follows_the_last_dot(stem: Seq<char>, extension: Seq<char>)
    requires
        stem.len() > 0,
        forall|i: int| 0 <= i < extension.len() ==> #[trigger] extension[i] != '.',
    ensures
        paths::suffix_of(stem.push('.') + extension) == Some(extension),
        paths::suffix_of(extension) is None,
        paths::suffix_of(seq!['.'] + extension) is None,
{
    lemma_last_index(stem.push('.') + extension, '.', stem.len() as int);
    assert((stem.push('.') + extension).skip(stem.len() as int + 1) == extension);
    lemma_last_index(seq!['.'] + extension, '.', 0);
    lemma_last_index(extension, '.', -1);
}

proof fn lemma_last_index(s: Seq<char>, c: char, at: int)
    requires
        -1 <= at < s.len(),
        at >= 0 ==> s[at] == c,
        forall|i: int| at < i < s.len() ==> s[i] != c,
    ensures
        paths::last_index(s, c) == at,
    decreases s.len(),
{
    if s.len() > 0 && at < s.len() - 1 {
        assert(s.last() != c);
        assert forall|i: int| at < i < s.drop_last().len() implies s.drop_last()[i] != c by {
            assert(s.drop_last()[i] == s[i]);
        }
        lemma_last_index(s.drop_last(), c, at);
    }
}

proof fn lemma_last_slash(s: Seq<char>, at: int)
    requires
        -1 <= at < s.len(),
        at >= 0 ==> s[at] == '/',
        forall|i: int| at < i < s.len() ==> s[i] != '/',
    ensures
        paths::last_slash(s) == at,
    decreases s.len(),
{
    if s.len() > 0 && at < s.len() - 1 {
        assert(s.last() != '/');
        assert forall|i: int| at < i < s.drop_last().len() implies s.drop_last()[i] != '/' by {
            assert(s.drop_last()[i] == s[i]);
        }
        lemma_last_slash(s.drop_last(), at);
    }
}

/// The directory of a path is the path without its last name.
pub proof fn a_directory_is_the_path_without_its_name(
    above: Seq<char>,
    directory: Seq<char>,
    name: Seq<char>,
)
    requires
        paths::is_name(directory),
        paths::is_name(name),
    ensures
        paths::parent(above.push('/') + directory + seq!['/'] + name) == Some(
            above.push('/') + directory,
        ),
        paths::parent(directory.push('/') + name) == Some(directory),
        paths::parent(name) == Some(Seq::<char>::empty()),
        paths::parent(seq!['/'] + name) == Some(seq!['/']),
{
    let base = above.push('/') + directory;
    let whole = base + seq!['/'] + name;
    lemma_last_slash(whole, base.len() as int);
    assert(whole.skip(base.len() as int + 1) == name);
    assert(whole.take(base.len() as int) == base);
    lemma_last_slash(base, above.len() as int);
    assert(base.skip(above.len() as int + 1) == directory);
    let short = directory.push('/') + name;
    lemma_last_slash(short, directory.len() as int);
    assert(short.skip(directory.len() as int + 1) == name);
    assert(short.take(directory.len() as int) == directory);
    lemma_last_slash(directory, -1);
    lemma_last_slash(name, -1);
    let top = seq!['/'] + name;
    lemma_last_slash(top, 0);
    assert(top.skip(1) == name);
    assert(top.take(1) == seq!['/']);
}

/// On Windows a path with the letter of a drive is read with a slash before it, and handed out without;
/// elsewhere a path is as it is.
pub proof fn a_drive_is_read_behind_a_slash(letter: char, rest: Seq<char>)
    requires
        'a' <= letter <= 'z' || 'A' <= letter <= 'Z',
        forall|i: int| 0 <= i < rest.len() ==> #[trigger] rest[i] != '\\',
    ensures
        paths::from_system(seq![letter, ':'] + rest, HostPlatform::Windows) == seq!['/', letter, ':']
            + rest,
        paths::to_system(seq!['/', letter, ':'] + rest, HostPlatform::Windows) == seq![letter, ':']
            + rest,
        paths::from_system(seq![letter, ':'] + rest, HostPlatform::Other) == seq![letter, ':']
            + rest,
        paths::to_system(seq!['/', letter, ':'] + rest, HostPlatform::Other) == seq![
            '/',
            letter,
            ':',
        ] + rest,
{
    let path = seq![letter, ':'] + rest;
    let read = seq!['/', letter, ':'] + rest;
    sidecar_runtime::lemma_verbatim(path);
    assert(path[0] == letter && path[1] == ':');
    assert(text::replaced(path, '\\', '/') == path) by {
        assert forall|i: int| 0 <= i < path.len() implies #[trigger] path[i] != '\\' by {
            if i >= 2 {
                assert(path[i] == rest[i - 2]);
            }
        }
    }
    assert(seq!['/'] + path == read);
    assert(read.skip(1) == path);
}

/// A path without the letter of a drive is read as it is, with slashes.
pub proof fn a_path_without_a_drive_is_read_as_it_is(path: Seq<char>)
    requires
        path.len() >= 2,
        path[0] != '\\',
        path[1] != ':' || !('a' <= path[0] <= 'z' || 'A' <= path[0] <= 'Z'),
    ensures
        paths::from_system(path, HostPlatform::Windows) == text::replaced(path, '\\', '/'),
{
    sidecar_runtime::lemma_verbatim(path);
}

} // verus!
