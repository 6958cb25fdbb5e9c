//! Paths as texts whose parts are separated by `/`. A path of Windows is read with a `/` in place of
//! each of its separators, and with one before its drive, so that it is absolute here too.

use vstd::prelude::*;
use vstd::string::*;

use crate::sidecar_runtime;
use crate::sidecar_runtime::HostPlatform;
use crate::text;

verus! {

/// A letter of ASCII.
pub open spec fn is_letter(c: char) -> bool {
    ('a' <= c && c <= 'z') || ('A' <= c && c <= 'Z')
}

/// A text that begins with the letter of a drive and a colon.
pub open spec fn has_drive(s: Seq<char>) -> bool {
    s.len() >= 2 && is_letter(s[0]) && s[1] == ':'
}

/// A path of a system as it is read here.
pub open spec fn from_system(path: Seq<char>, platform: HostPlatform) -> Seq<char> {
    if platform == HostPlatform::Windows {
        let plain = text::replaced(
            sidecar_runtime::without_verbatim(path, platform),
            '\\',
            '/',
        );
        if has_drive(plain) {
            seq!['/'] + plain
        } else {
            plain
        }
    } else {
        path
    }
}

/// A path as a system reads it.
pub open spec fn to_system(path: Seq<char>, platform: HostPlatform) -> Seq<char> {
    if platform == HostPlatform::Windows && path.len() > 0 && path[0] == '/' && has_drive(
        path.skip(1),
    ) {
        path.skip(1)
    } else {
        path
    }
}

fn drive_at(chars: &Vec<char>, from: usize) -> (r: bool)
    requires
        from <= chars@.len(),
    ensures
        r == has_drive(chars@.skip(from as int)),
{
    if chars.len() - from < 2 {
        return false;
    }
    assert(chars@.skip(from as int)[0] == chars@[from as int]);
    assert(chars@.skip(from as int)[1] == chars@[from + 1]);
    let c = chars[from];
    (('a' <= c && c <= 'z') || ('A' <= c && c <= 'Z')) && chars[from + 1] == ':'
}

/// Reads a path of a system: one of Windows without its verbatim syntax, with slashes, and with one
/// before its drive.
pub fn read_path(path: &str, platform: HostPlatform) -> (r: String)
    ensures
        r@ == from_system(path@, platform),
{
    if platform != HostPlatform::Windows {
        return path.to_owned();
    }
    let plain = text::replace(&sidecar_runtime::plain_path(path, platform), '\\', '/');
    let chars = text::chars_of(&plain);
    assert(chars@.skip(0) == chars@);
    if drive_at(&chars, 0) {
        let mut out = String::new();
        out.push('/');
        out.append(&plain);
        assert(out@ == seq!['/'] + plain@);
        return out;
    }
    plain
}

/// Writes a path for a system: one of Windows without the slash before its drive.
pub fn system_path(path: &str, platform: HostPlatform) -> (r: String)
    ensures
        r@ == to_system(path@, platform),
{
    let chars = text::chars_of(path);
    if platform == HostPlatform::Windows && chars.len() > 0 && chars[0] == '/' && drive_at(
        &chars,
        1,
    ) {
        let out = text::text_of(&chars, 1, chars.len());
        assert(path@.subrange(1, path@.len() as int) == path@.skip(1));
        return out;
    }
    path.to_owned()
}

/// A path that was read stands for the same place of the system: written for it again, it is the path
/// without its verbatim syntax and with slashes, which Windows reads alike. Left out are the texts
/// of Windows that name a drive behind a separator, where no drive can stand.
pub proof fn a_path_comes_back(path: Seq<char>, platform: HostPlatform)
    requires
        platform == HostPlatform::Windows ==> {
            let bare = sidecar_runtime::without_verbatim(path, platform);
            !(bare.len() > 0 && (bare[0] == '/' || bare[0] == '\\') && has_drive(bare.skip(1)))
        },
    ensures
        to_system(from_system(path, platform), platform) == if platform == HostPlatform::Windows {
            text::replaced(sidecar_runtime::without_verbatim(path, platform), '\\', '/')
        } else {
            path
        },
{
    if platform == HostPlatform::Windows {
        let bare = sidecar_runtime::without_verbatim(path, platform);
        let plain = text::replaced(bare, '\\', '/');
        if has_drive(plain) {
            assert((seq!['/'] + plain).skip(1) == plain);
        } else if plain.len() > 0 && plain[0] == '/' && has_drive(plain.skip(1)) {
            assert(plain.skip(1)[0] == plain[1] && plain.skip(1)[1] == plain[2]);
            assert(bare.skip(1)[0] == bare[1] && bare.skip(1)[1] == bare[2]);
            assert(has_drive(bare.skip(1)));
        }
    }
}

/// A path of Windows that names a drive is absolute here, so that it lies below nothing but what is
/// on that drive.
pub proof fn a_path_with_a_drive_is_absolute(path: Seq<char>)
    requires
        has_drive(path),
    ensures
        is_absolute(from_system(path, HostPlatform::Windows)),
{
    sidecar_runtime::lemma_verbatim(path);
    let plain = text::replaced(path, '\\', '/');
    assert(plain[0] == path[0] && plain[1] == path[1]);
}

/// What a path is made of.
pub enum PathPart {
    /// The `/` that an absolute path begins with.
    Root,
    /// A `.` at the beginning of a relative path.
    Current,
    /// A `..`.
    Parent,
    /// A name.
    Name(String),
}

/// What a path is made of, with the characters of each name.
pub enum PathPartView {
    Root,
    Current,
    Parent,
    Name(Seq<char>),
}

impl View for PathPart {
    type V = PathPartView;

    open spec fn view(&self) -> PathPartView {
        match self {
            PathPart::Root => PathPartView::Root,
            PathPart::Current => PathPartView::Current,
            PathPart::Parent => PathPartView::Parent,
            PathPart::Name(name) => PathPartView::Name(name@),
        }
    }
}

/// The parts of a path, viewed.
pub open spec fn part_views(parts: Seq<PathPart>) -> Seq<PathPartView> {
    Seq::new(parts.len(), |i: int| parts[i]@)
}

/// The pieces of a text between its slashes.
pub open spec fn pieces(s: Seq<char>) -> Seq<Seq<char>>
    decreases s.len(),
{
    proof {
        text::lemma_first_index(s, '/');
    }
    let end = text::first_index(s, '/');
    if end == s.len() {
        seq![s]
    } else {
        seq![s.take(end)] + pieces(s.skip(end + 1))
    }
}

/// What a piece of a path adds to it: an empty piece and a `.` add nothing.
pub open spec fn part_of(piece: Seq<char>) -> Seq<PathPartView> {
    if piece.len() == 0 || piece == seq!['.'] {
        Seq::empty()
    } else if piece == seq!['.', '.'] {
        seq![PathPartView::Parent]
    } else {
        seq![PathPartView::Name(piece)]
    }
}

/// The parts of some pieces, one after the other.
pub open spec fn parts_of(pieces: Seq<Seq<char>>) -> Seq<PathPartView>
    decreases pieces.len(),
{
    if pieces.len() == 0 {
        Seq::empty()
    } else {
        parts_of(pieces.drop_last()) + part_of(pieces.last())
    }
}

/// The parts of a path.
pub open spec fn parts(path: Seq<char>) -> Seq<PathPartView> {
    let start = if path.len() > 0 && path[0] == '/' {
        seq![PathPartView::Root]
    } else if pieces(path)[0] == seq!['.'] {
        seq![PathPartView::Current]
    } else {
        Seq::empty()
    };
    start + parts_of(pieces(path))
}

/// An absolute path.
pub open spec fn is_absolute(path: Seq<char>) -> bool {
    path.len() > 0 && path[0] == '/'
}

/// Tells whether a path is absolute.
pub fn absolute(path: &str) -> (r: bool)
    ensures
        r == is_absolute(path@),
{
    let chars = text::chars_of(path);
    chars.len() > 0 && chars[0] == '/'
}

/// A path, and under it another: the other path itself where that is absolute.
pub open spec fn joined(base: Seq<char>, path: Seq<char>) -> Seq<char> {
    if is_absolute(path) {
        path
    } else if base.len() == 0 || base.last() == '/' {
        base + path
    } else {
        base.push('/') + path
    }
}

/// Joins two paths.
pub fn join(base: &str, path: &str) -> (r: String)
    ensures
        r@ == joined(base@, path@),
{
    if absolute(path) {
        return path.to_owned();
    }
    let chars = text::chars_of(base);
    let mut out = base.to_owned();
    if chars.len() > 0 && chars[chars.len() - 1] != '/' {
        out.push('/');
    }
    out.append(path);
    out
}

/// Splits a text at its slashes.
pub fn split(path: &str) -> (r: Vec<String>)
    ensures
        text::views(r@) == pieces(path@),
        r@.len() > 0,
{
    let chars = text::chars_of(path);
    let mut out: Vec<String> = Vec::new();
    let mut start: usize = 0;
    let mut i: usize = 0;
    let ghost s = path@;
    assert(s.skip(0) == s);
    assert(text::views(out@) + pieces(s) == pieces(s));
    while i < chars.len()
        invariant
            start <= i <= chars@.len(),
            chars@ == s,
            forall|j: int| start <= j < i ==> s[j] != '/',
            pieces(s) == text::views(out@) + pieces(s.skip(start as int)),
        decreases chars@.len() - i,
    {
        if chars[i] == '/' {
            let piece = text::text_of(&chars, start, i);
            proof {
                let rest = s.skip(start as int);
                assert forall|j: int| 0 <= j < i - start implies rest[j] != '/' by {
                    assert(rest[j] == s[start + j]);
                }
                text::lemma_first_index_is(rest, '/', i - start);
                assert(piece@ == rest.take(i - start));
                assert(rest.skip(i - start + 1) == s.skip(i + 1));
                assert(text::views(out@.push(piece)) == text::views(out@) + seq![piece@]);
                assert(text::views(out@) + (seq![piece@] + pieces(s.skip(i + 1))) == text::views(
                    out@.push(piece),
                ) + pieces(s.skip(i + 1)));
            }
            out.push(piece);
            start = i + 1;
        }
        i += 1;
    }
    let piece = text::text_of(&chars, start, chars.len());
    proof {
        let rest = s.skip(start as int);
        assert forall|j: int| 0 <= j < rest.len() implies rest[j] != '/' by {
            assert(rest[j] == s[start + j]);
        }
        text::lemma_first_index_is(rest, '/', rest.len() as int);
        assert(piece@ == rest);
        assert(text::views(out@.push(piece)) == text::views(out@) + seq![piece@]);
    }
    out.push(piece);
    out
}

/// The parts of a path.
pub fn components(path: &str) -> (r: Vec<PathPart>)
    ensures
        part_views(r@) == parts(path@),
{
    let split_path = split(path);
    let mut out: Vec<PathPart> = Vec::new();
    let ghost all = pieces(path@);
    proof {
        reveal_strlit(".");
        reveal_strlit("..");
        assert("."@ == seq!['.']);
        assert(".."@ == seq!['.', '.']);
        assert(text::views(split_path@)[0] == split_path@[0]@);
    }
    if absolute(path) {
        out.push(PathPart::Root);
    } else if text::same(&split_path[0], ".") {
        out.push(PathPart::Current);
    }
    let ghost start = part_views(out@);
    let mut i: usize = 0;
    assert(start == (if path@.len() > 0 && path@[0] == '/' {
        seq![PathPartView::Root]
    } else if all[0] == seq!['.'] {
        seq![PathPartView::Current]
    } else {
        Seq::empty()
    }));
    assert(start + parts_of(all.take(0)) == start);
    while i < split_path.len()
        invariant
            i <= split_path@.len(),
            all == text::views(split_path@),
            "."@ == seq!['.'],
            ".."@ == seq!['.', '.'],
            part_views(out@) == start + parts_of(all.take(i as int)),
        decreases split_path@.len() - i,
    {
        proof {
            assert(all.take(i + 1).drop_last() == all.take(i as int));
            assert(all.take(i + 1).last() == split_path@[i as int]@);
        }
        let ghost before = part_views(out@);
        if split_path[i].as_str().is_empty() || text::same(&split_path[i], ".") {
            assert(before == start + (parts_of(all.take(i as int)) + part_of(all[i as int])));
        } else if text::same(&split_path[i], "..") {
            out.push(PathPart::Parent);
            assert(part_views(out@) == before.push(PathPartView::Parent));
        } else {
            out.push(PathPart::Name(split_path[i].clone()));
            assert(part_views(out@) == before.push(PathPartView::Name(split_path@[i as int]@)));
        }
        i += 1;
        assert(part_views(out@) == start + parts_of(all.take(i as int)));
    }
    assert(all.take(all.len() as int) == all);
    out
}

/// Names joined by slashes.
pub open spec fn slashed(names: Seq<Seq<char>>) -> Seq<char>
    decreases names.len(),
{
    if names.len() == 0 {
        Seq::empty()
    } else if names.len() == 1 {
        names[0]
    } else {
        slashed(names.drop_last()).push('/') + names.last()
    }
}

/// Every part is a name.
pub open spec fn only_names(parts: Seq<PathPartView>) -> bool {
    forall|i: int| 0 <= i < parts.len() ==> (#[trigger] parts[i]) is Name
}

/// The names among the parts of a path.
pub open spec fn names(parts: Seq<PathPartView>) -> Seq<Seq<char>> {
    Seq::new(parts.len(), |i: int| parts[i]->Name_0)
}

/// Why a path cannot be written as names joined by slashes.
#[derive(Clone, Copy, Debug, Eq, PartialEq, Structural)]
pub enum PathError {
    /// A part of the path is not a name.
    NotRelative,
    /// The path has no parts.
    Empty,
    /// The path begins elsewhere than the base.
    Outside,
}

/// The names of some parts, joined by slashes.
pub open spec fn portable_parts(parts: Seq<PathPartView>) -> Result<Seq<char>, PathError> {
    if !only_names(parts) {
        Err(PathError::NotRelative)
    } else if parts.len() == 0 {
        Err(PathError::Empty)
    } else {
        Ok(slashed(names(parts)))
    }
}

/// A relative path as names joined by single slashes.
pub open spec fn portable(path: Seq<char>) -> Result<Seq<char>, PathError> {
    portable_parts(parts(path))
}

/// Joins the parts from `from` on, which have to be names.
fn join_names(split: &Vec<PathPart>, from: usize) -> (r: Result<String, PathError>)
    requires
        from <= split@.len(),
    ensures
        match portable_parts(part_views(split@).skip(from as int)) {
            Ok(joined) => r is Ok && r->Ok_0@ == joined,
            Err(error) => r == Err::<String, PathError>(error),
        },
{
    let ghost all = part_views(split@).skip(from as int);
    let mut out = String::new();
    let mut i: usize = from;
    while i < split.len()
        invariant
            from <= i <= split@.len(),
            all == part_views(split@).skip(from as int),
            only_names(all.take(i - from)),
            out@ == slashed(names(all.take(i - from))),
        decreases split@.len() - i,
    {
        match &split[i] {
            PathPart::Name(name) => {
                if i > from {
                    out.push('/');
                }
                out.append(name);
                proof {
                    let before = names(all.take(i - from));
                    let after = names(all.take(i + 1 - from));
                    assert(all[i - from] == split@[i as int]@);
                    assert(after.drop_last() == before);
                    assert(after.last() == name@);
                    if i == from {
                        assert(after[0] == name@);
                        assert(before.len() == 0);
                        assert(out@ == slashed(after));
                    }
                    assert forall|j: int| 0 <= j < all.take(i + 1 - from).len() implies (
                    #[trigger] all.take(i + 1 - from)[j]) is Name by {
                        if j < i - from {
                            assert(all.take(i - from)[j] is Name);
                        }
                    }
                }
            },
            _ => {
                assert(!(all[i - from] is Name));
                return Err(PathError::NotRelative);
            },
        }
        i += 1;
    }
    assert(all.take(all.len() as int) == all);
    if split.len() == from {
        return Err(PathError::Empty);
    }
    Ok(out)
}

/// Writes a relative path as names joined by single slashes.
pub fn portable_path(path: &str) -> (r: Result<String, PathError>)
    ensures
        match portable(path@) {
            Ok(joined) => r is Ok && r->Ok_0@ == joined,
            Err(error) => r == Err::<String, PathError>(error),
        },
{
    let split = components(path);
    assert(part_views(split@).skip(0) == part_views(split@));
    join_names(&split, 0)
}

/// What remains of a path below a base, as names joined by slashes.
pub open spec fn portable_below(base: Seq<char>, path: Seq<char>) -> Result<Seq<char>, PathError> {
    if parts(base).is_prefix_of(parts(path)) {
        portable_parts(parts(path).skip(parts(base).len() as int))
    } else {
        Err(PathError::Outside)
    }
}

/// Tells whether two parts of paths are the same.
fn same_part(a: &PathPart, b: &PathPart) -> (r: bool)
    ensures
        r == (a@ == b@),
{
    match (a, b) {
        (PathPart::Root, PathPart::Root) => true,
        (PathPart::Current, PathPart::Current) => true,
        (PathPart::Parent, PathPart::Parent) => true,
        (PathPart::Name(x), PathPart::Name(y)) => text::same(x, y),
        _ => false,
    }
}

/// Tells whether a path begins with the parts of a base.
pub fn begins_with(base: &str, path: &str) -> (r: bool)
    ensures
        r == parts(base@).is_prefix_of(parts(path@)),
{
    let b = components(base);
    let p = components(path);
    begins(&b, &p, base, path)
}

fn begins(b: &Vec<PathPart>, p: &Vec<PathPart>, base: &str, path: &str) -> (r: bool)
    requires
        part_views(b@) == parts(base@),
        part_views(p@) == parts(path@),
    ensures
        r == parts(base@).is_prefix_of(parts(path@)),
{
    if p.len() < b.len() {
        assert(part_views(p@).len() < part_views(b@).len());
        return false;
    }
    let mut i: usize = 0;
    while i < b.len()
        invariant
            i <= b@.len() <= p@.len(),
            part_views(b@) == parts(base@),
            part_views(p@) == parts(path@),
            forall|j: int| 0 <= j < i ==> parts(base@)[j] == parts(path@)[j],
        decreases b@.len() - i,
    {
        assert(part_views(b@)[i as int] == b@[i as int]@);
        assert(part_views(p@)[i as int] == p@[i as int]@);
        if !same_part(&b[i], &p[i]) {
            assert(parts(path@).subrange(0, parts(base@).len() as int)[i as int] != parts(
                base@,
            )[i as int]);
            return false;
        }
        i += 1;
    }
    assert(parts(path@).subrange(0, parts(base@).len() as int) == parts(base@));
    true
}

/// Writes what remains of a path below a base as names joined by slashes.
pub fn relative_path(base: &str, path: &str) -> (r: Result<String, PathError>)
    ensures
        match portable_below(base@, path@) {
            Ok(joined) => r is Ok && r->Ok_0@ == joined,
            Err(error) => r == Err::<String, PathError>(error),
        },
{
    let b = components(base);
    let p = components(path);
    if !begins(&b, &p, base, path) {
        return Err(PathError::Outside);
    }
    assert(part_views(b@).len() <= part_views(p@).len());
    join_names(&p, b.len())
}

/// Tells whether two paths have the same parts.
pub fn same_path(a: &str, b: &str) -> (r: bool)
    ensures
        r == (parts(a@) == parts(b@)),
{
    let x = components(a);
    let y = components(b);
    if x.len() != y.len() {
        assert(part_views(x@).len() != part_views(y@).len());
        return false;
    }
    let mut i: usize = 0;
    while i < x.len()
        invariant
            i <= x@.len(),
            x@.len() == y@.len(),
            part_views(x@) == parts(a@),
            part_views(y@) == parts(b@),
            forall|j: int| 0 <= j < i ==> part_views(x@)[j] == part_views(y@)[j],
        decreases x@.len() - i,
    {
        assert(part_views(x@)[i as int] == x@[i as int]@);
        assert(part_views(y@)[i as int] == y@[i as int]@);
        if !same_part(&x[i], &y[i]) {
            return false;
        }
        i += 1;
    }
    assert(part_views(x@) == part_views(y@));
    true
}

/// A text that is one name of a path.
pub open spec fn is_name(s: Seq<char>) -> bool {
    &&& s.len() > 0
    &&& s != seq!['.']
    &&& s != seq!['.', '.']
    &&& forall|i: int| 0 <= i < s.len() ==> #[trigger] s[i] != '/'
}

/// What follows the last slash is the last piece.
proof fn lemma_last_piece(front: Seq<char>, piece: Seq<char>)
    requires
        front.len() > 0 ==> front.last() == '/',
        forall|i: int| 0 <= i < piece.len() ==> #[trigger] piece[i] != '/',
    ensures
        pieces(front + piece).len() > 0,
        pieces(front + piece).last() == piece,
    decreases front.len(),
{
    let s = front + piece;
    text::lemma_first_index(s, '/');
    let end = text::first_index(s, '/');
    if front.len() == 0 {
        assert(s == piece);
        text::lemma_first_index_is(s, '/', s.len() as int);
    } else {
        assert(s[front.len() - 1] == '/');
        assert(end < front.len());
        let rest = front.skip(end + 1);
        assert(s.skip(end + 1) == rest + piece);
        if rest.len() > 0 {
            assert(rest.last() == front.last());
        }
        lemma_last_piece(rest, piece);
    }
}

/// The last part of a path with a name under it is that name.
pub proof fn lemma_joined_name(base: Seq<char>, name: Seq<char>)
    requires
        is_name(name),
    ensures
        parts(joined(base, name)).len() > 0,
        parts(joined(base, name)).last() == PathPartView::Name(name),
{
    let front = if base.len() == 0 || base.last() == '/' {
        base
    } else {
        base.push('/')
    };
    assert(name[0] != '/');
    assert(joined(base, name) == front + name);
    lemma_last_piece(front, name);
    let all = pieces(front + name);
    assert(parts_of(all) == parts_of(all.drop_last()) + part_of(name));
}

/// No two of the paths have the same parts.
pub open spec fn distinct(paths: Seq<String>) -> bool {
    forall|i: int, j: int|
        0 <= i < j < paths.len() ==> parts(#[trigger] paths[i]@) != parts(#[trigger] paths[j]@)
}

/// Tells whether no two of the paths have the same parts.
pub fn all_distinct(paths: &Vec<String>) -> (r: bool)
    ensures
        r == distinct(paths@),
{
    let mut i: usize = 0;
    while i < paths.len()
        invariant
            i <= paths@.len(),
            forall|a: int, b: int|
                0 <= a < b < i ==> parts(#[trigger] paths@[a]@) != parts(#[trigger] paths@[b]@),
        decreases paths@.len() - i,
    {
        let mut j: usize = 0;
        while j < i
            invariant
                j <= i < paths@.len(),
                forall|a: int| 0 <= a < j ==> parts(#[trigger] paths@[a]@) != parts(paths@[i as int]@),
            decreases i - j,
        {
            if same_path(&paths[j], &paths[i]) {
                return false;
            }
            j += 1;
        }
        i += 1;
    }
    true
}

/// Where a slash last stands in a text; -1 where none does.
pub open spec fn last_slash(s: Seq<char>) -> int
    decreases s.len(),
{
    if s.len() == 0 {
        -1
    } else if s.last() == '/' {
        s.len() - 1
    } else {
        last_slash(s.drop_last())
    }
}

/// `last_slash` is -1 or lies in the text.
pub proof fn lemma_last_slash(s: Seq<char>)
    ensures
        -1 <= last_slash(s) < s.len(),
        last_slash(s) >= 0 ==> s[last_slash(s)] == '/',
    decreases s.len(),
{
    if s.len() > 0 && s.last() != '/' {
        lemma_last_slash(s.drop_last());
    }
}

/// A piece of a path that adds nothing to it.
pub open spec fn idle_piece(piece: Seq<char>) -> bool {
    piece.len() == 0 || piece == seq!['.']
}

/// A path without the slashes and the `.` pieces at its end; a root stays.
pub open spec fn without_tail(path: Seq<char>) -> Seq<char>
    decreases path.len(),
{
    proof {
        lemma_last_slash(path);
    }
    let slash = last_slash(path);
    if slash < 0 || !idle_piece(path.skip(slash + 1)) {
        path
    } else if slash == 0 {
        path.take(1)
    } else {
        without_tail(path.take(slash))
    }
}

/// The path of the directory that a path lies in; a root and an empty path lie in none.
pub open spec fn parent(path: Seq<char>) -> Option<Seq<char>> {
    let whole = without_tail(path);
    let slash = last_slash(whole);
    if whole.len() == 0 || (slash == 0 && whole.len() == 1) {
        None
    } else if slash < 0 {
        Some(Seq::empty())
    } else if slash == 0 {
        Some(whole.take(1))
    } else {
        Some(without_tail(whole.take(slash)))
    }
}

/// Where a slash last stands among the first characters, counted from one; zero where none does.
fn slash_end(chars: &Vec<char>, end: usize) -> (r: usize)
    requires
        end <= chars@.len(),
    ensures
        r as int == last_slash(chars@.take(end as int)) + 1,
        r <= end,
{
    let mut n: usize = end;
    while n > 0
        invariant
            n <= end <= chars@.len(),
            last_slash(chars@.take(end as int)) == last_slash(chars@.take(n as int)),
        decreases n,
    {
        assert(chars@.take(n as int).drop_last() == chars@.take(n - 1));
        if chars[n - 1] == '/' {
            return n;
        }
        n -= 1;
    }
    n
}

/// How many of the first characters are left without the slashes and the `.` pieces at the end.
fn tail_start(chars: &Vec<char>, end: usize) -> (r: usize)
    requires
        end <= chars@.len(),
    ensures
        r <= end,
        chars@.take(r as int) == without_tail(chars@.take(end as int)),
    decreases end,
{
    let slash = slash_end(chars, end);
    let ghost path = chars@.take(end as int);
    if slash == 0 {
        return end;
    }
    let idle = end == slash || (end == slash + 1 && chars[slash] == '.');
    proof {
        let piece = path.skip(slash as int);
        assert(idle == idle_piece(piece)) by {
            if piece == seq!['.'] {
                assert(piece.len() == 1);
                assert(piece[0] == path[slash as int]);
            }
            if end == slash + 1 && chars@[slash as int] == '.' {
                assert(piece == seq!['.']);
            }
        }
    }
    if !idle {
        return end;
    }
    if slash == 1 {
        assert(path.take(1) == chars@.take(1));
        return 1;
    }
    assert(path.take(slash - 1) == chars@.take(slash - 1));
    tail_start(chars, slash - 1)
}

/// The directory that a path lies in.
pub fn parent_path(path: &str) -> (r: Option<String>)
    ensures
        text::opt(r) == parent(path@),
{
    let chars = text::chars_of(path);
    assert(chars@.take(chars@.len() as int) == path@);
    let end = tail_start(&chars, chars.len());
    let ghost whole = without_tail(path@);
    let slash = slash_end(&chars, end);
    if end == 0 || (slash == 1 && end == 1) {
        return None;
    }
    if slash == 0 {
        return Some(String::new());
    }
    if slash == 1 {
        assert(whole.take(1) == chars@.subrange(0, 1));
        return Some(text::text_of(&chars, 0, 1));
    }
    assert(whole.take(slash - 1) == chars@.take(slash - 1));
    let kept = tail_start(&chars, slash - 1);
    assert(chars@.take(kept as int) == chars@.subrange(0, kept as int));
    Some(text::text_of(&chars, 0, kept))
}

/// The directory that a path lies in, or the current one.
pub open spec fn directory(path: Seq<char>) -> Seq<char> {
    match parent(path) {
        Some(parent) => parent,
        None => "."@,
    }
}

/// The directory that a path lies in, or the current one.
pub fn directory_of(path: &str) -> (r: String)
    ensures
        r@ == directory(path@),
{
    match parent_path(path) {
        Some(parent) => parent,
        None => ".".to_owned(),
    }
}

// Names.

/// The name of the file or directory that a path leads to.
pub open spec fn name_of(path: Seq<char>) -> Option<Seq<char>> {
    let parts = parts(path);
    if parts.len() == 0 {
        None
    } else {
        match parts.last() {
            PathPartView::Name(name) => Some(name),
            _ => None,
        }
    }
}

/// The name of the file or directory that a path leads to.
pub fn file_name(path: &str) -> (r: Option<String>)
    ensures
        text::opt(r) == name_of(path@),
{
    let parts = components(path);
    if parts.len() == 0 {
        assert(part_views(parts@).len() == 0);
        return None;
    }
    assert(part_views(parts@).last() == parts@.last()@);
    match &parts[parts.len() - 1] {
        PathPart::Name(name) => Some(name.clone()),
        _ => None,
    }
}

/// Where a character last stands in a text; minus one where it does not.
pub open spec fn last_index(s: Seq<char>, c: char) -> int
    decreases s.len(),
{
    if s.len() == 0 {
        -1
    } else if s.last() == c {
        s.len() - 1
    } else {
        last_index(s.drop_last(), c)
    }
}

/// What stands after the last dot of a name, unless that dot is its first character.
pub open spec fn suffix_of(name: Seq<char>) -> Option<Seq<char>> {
    let at = last_index(name, '.');
    if at <= 0 {
        None
    } else {
        Some(name.skip(at + 1))
    }
}

/// The extension of a path.
pub open spec fn extension_of(path: Seq<char>) -> Option<Seq<char>> {
    match name_of(path) {
        Some(name) => suffix_of(name),
        None => None,
    }
}

/// The extension of a path.
pub fn extension(path: &str) -> (r: Option<String>)
    ensures
        text::opt(r) == extension_of(path@),
{
    let name = match file_name(path) {
        None => {
            return None;
        },
        Some(name) => name,
    };
    let chars = text::chars_of(&name);
    let mut n: usize = chars.len();
    assert(name@.take(n as int) == name@);
    while n > 0 && chars[n - 1] != '.'
        invariant
            chars@ == name@,
            n <= chars@.len(),
            last_index(name@, '.') == last_index(name@.take(n as int), '.'),
        decreases n,
    {
        assert(name@.take(n as int).drop_last() == name@.take(n - 1));
        n -= 1;
    }
    if n <= 1 {
        return None;
    }
    assert(name@.take(n as int).last() == '.');
    assert(name@.subrange(n as int, name@.len() as int) == name@.skip(n as int));
    Some(text::text_of(&chars, n, chars.len()))
}

// The order of paths.

/// The place of a part among parts of other kinds.
pub open spec fn part_kind(part: PathPartView) -> int {
    match part {
        PathPartView::Root => 0,
        PathPartView::Current => 1,
        PathPartView::Parent => 2,
        PathPartView::Name(_) => 3,
    }
}

/// One part comes before another: by kind, and names as texts.
pub open spec fn part_before(a: PathPartView, b: PathPartView) -> bool {
    ||| part_kind(a) < part_kind(b)
    ||| (a is Name && b is Name && text::precedes(a->Name_0, b->Name_0))
}

/// Some parts come before others: by the first in which they differ, or because the others go on.
pub open spec fn parts_before(a: Seq<PathPartView>, b: Seq<PathPartView>) -> bool
    decreases a.len(),
{
    if b.len() == 0 {
        false
    } else if a.len() == 0 {
        true
    } else if a[0] != b[0] {
        part_before(a[0], b[0])
    } else {
        parts_before(a.drop_first(), b.drop_first())
    }
}

/// Of two different paths exactly one comes before the other, and none comes before itself.
pub proof fn lemma_parts_before_total(a: Seq<PathPartView>, b: Seq<PathPartView>)
    ensures
        !(parts_before(a, b) && parts_before(b, a)),
        a == b ==> !parts_before(a, b),
        a != b ==> parts_before(a, b) || parts_before(b, a),
    decreases a.len(),
{
    if a.len() > 0 && b.len() > 0 {
        if a[0] == b[0] {
            lemma_parts_before_total(a.drop_first(), b.drop_first());
            if a.drop_first() == b.drop_first() {
                assert(a == seq![a[0]] + a.drop_first());
                assert(b == seq![b[0]] + b.drop_first());
            }
        } else if a[0] is Name && b[0] is Name {
            text::lemma_precedes_total(a[0]->Name_0, b[0]->Name_0);
        }
    } else if a.len() == 0 && b.len() == 0 {
        assert(a == b);
    }
}

/// The order of paths is transitive.
pub proof fn lemma_parts_before_transitive(
    a: Seq<PathPartView>,
    b: Seq<PathPartView>,
    c: Seq<PathPartView>,
)
    requires
        parts_before(a, b),
        parts_before(b, c),
    ensures
        parts_before(a, c),
    decreases a.len(),
{
    if a.len() > 0 {
        if a[0] == b[0] && b[0] == c[0] {
            lemma_parts_before_transitive(a.drop_first(), b.drop_first(), c.drop_first());
        } else if a[0] != b[0] && b[0] != c[0] {
            if a[0] is Name && b[0] is Name && c[0] is Name {
                text::lemma_precedes_transitive(a[0]->Name_0, b[0]->Name_0, c[0]->Name_0);
                text::lemma_precedes_total(a[0]->Name_0, c[0]->Name_0);
            }
        }
    }
}

fn kind_of(part: &PathPart) -> (r: u8)
    ensures
        r == part_kind(part@),
{
    match part {
        PathPart::Root => 0,
        PathPart::Current => 1,
        PathPart::Parent => 2,
        PathPart::Name(_) => 3,
    }
}

/// Tells whether one path comes before another.
pub fn path_before(a: &str, b: &str) -> (r: bool)
    ensures
        r == parts_before(parts(a@), parts(b@)),
{
    let x = components(a);
    let y = components(b);
    let ghost p = parts(a@);
    let ghost q = parts(b@);
    let mut i: usize = 0;
    assert(p.skip(0) == p);
    assert(q.skip(0) == q);
    while i < x.len() && i < y.len()
        invariant
            i <= x@.len(),
            i <= y@.len(),
            p == parts(a@),
            q == parts(b@),
            part_views(x@) == p,
            part_views(y@) == q,
            parts_before(p, q) == parts_before(p.skip(i as int), q.skip(i as int)),
        decreases x@.len() - i,
    {
        assert(p.skip(i as int)[0] == x@[i as int]@);
        assert(q.skip(i as int)[0] == y@[i as int]@);
        if !same_part(&x[i], &y[i]) {
            if kind_of(&x[i]) < kind_of(&y[i]) {
                return true;
            }
            return match (&x[i], &y[i]) {
                (PathPart::Name(m), PathPart::Name(n)) => text::before(m, n),
                _ => false,
            };
        }
        assert(p.skip(i as int).drop_first() == p.skip(i + 1));
        assert(q.skip(i as int).drop_first() == q.skip(i + 1));
        i += 1;
    }
    assert(part_views(x@).len() == x@.len());
    assert(part_views(y@).len() == y@.len());
    i < y.len()
}

/// Every path comes before all those after it.
pub open spec fn in_order(files: Seq<String>) -> bool {
    forall|i: int, j: int|
        0 <= i < j < files.len() ==> parts_before(
            parts((#[trigger] files[i])@),
            parts((#[trigger] files[j])@),
        )
}

/// Some path of a list has the parts of a path.
pub open spec fn listed(files: Seq<String>, path: Seq<char>) -> bool {
    exists|i: int| 0 <= i < files.len() && parts((#[trigger] files[i])@) == parts(path)
}

/// One list is another with a text put in at a place.
pub open spec fn put_at(before: Seq<String>, after: Seq<String>, at: int, path: Seq<char>) -> bool {
    &&& 0 <= at <= before.len()
    &&& after == before.insert(at, after[at])
    &&& after[at]@ == path
}

/// Puts a path in its place in an ordered list, unless it stands there already.
pub fn insert_path(files: &mut Vec<String>, path: &str) -> (r: bool)
    requires
        in_order(old(files)@),
    ensures
        in_order(final(files)@),
        r == !listed(old(files)@, path@),
        !r ==> final(files)@ == old(files)@,
        r ==> exists|i: int| #[trigger] put_at(old(files)@, final(files)@, i, path@),
        forall|other: Seq<char>| #[trigger]
            listed(final(files)@, other) <==> (listed(old(files)@, other) || parts(other) == parts(
                path@,
            )),
{
    let ghost before = files@;
    let mut at: usize = 0;
    while at < files.len() && path_before(&files[at], path)
        invariant
            at <= files@.len(),
            files@ == before,
            in_order(files@),
            forall|j: int|
                0 <= j < at ==> parts_before(parts((#[trigger] files@[j])@), parts(path@)),
        decreases files@.len() - at,
    {
        at += 1;
    }
    if at < files.len() && same_path(&files[at], path) {
        assert(listed(files@, path@));
        return false;
    }
    proof {
        assert forall|j: int| 0 <= j < files@.len() implies parts((#[trigger] files@[j])@) != parts(
            path@,
        ) && (j >= at ==> parts_before(parts(path@), parts(files@[j]@))) by {
            if j < at {
                lemma_parts_before_total(parts(files@[j]@), parts(path@));
            } else {
                lemma_parts_before_total(parts(files@[at as int]@), parts(path@));
                if j > at {
                    lemma_parts_before_transitive(
                        parts(path@),
                        parts(files@[at as int]@),
                        parts(files@[j]@),
                    );
                }
                lemma_parts_before_total(parts(files@[j]@), parts(path@));
            }
        }
    }
    files.insert(at, path.to_owned());
    proof {
        let after = files@;
        assert forall|i: int, j: int| 0 <= i < j < after.len() implies parts_before(
            parts((#[trigger] after[i])@),
            parts((#[trigger] after[j])@),
        ) by {
            if i < at && j < at {
                assert(after[i] == before[i] && after[j] == before[j]);
            } else if i < at && j > at {
                assert(after[i] == before[i] && after[j] == before[j - 1]);
            } else if i > at {
                assert(after[i] == before[i - 1] && after[j] == before[j - 1]);
            } else if j == at {
                assert(after[i] == before[i]);
            } else {
                assert(after[j] == before[j - 1]);
            }
        }
        assert forall|other: Seq<char>| #[trigger]
            listed(after, other) <==> (listed(before, other) || parts(other) == parts(path@)) by {
            if listed(after, other) {
                let k = choose|k: int|
                    0 <= k < after.len() && parts((#[trigger] after[k])@) == parts(other);
                if k < at {
                    assert(before[k] == after[k]);
                } else if k > at {
                    assert(before[k - 1] == after[k]);
                }
            }
            if listed(before, other) {
                let k = choose|k: int|
                    0 <= k < before.len() && parts((#[trigger] before[k])@) == parts(other);
                if k < at {
                    assert(before[k] == after[k]);
                } else {
                    assert(before[k] == after[k + 1]);
                }
            }
            assert(after[at as int]@ == path@);
        }
        assert(put_at(before, after, at as int, path@));
    }
    true
}

/// No path comes before one that stands earlier.
pub open spec fn not_descending(files: Seq<Seq<char>>) -> bool {
    forall|i: int, j: int|
        0 <= i < j < files.len() ==> !parts_before(
            parts(#[trigger] files[j]),
            parts(#[trigger] files[i]),
        )
}

/// Sorts paths, with all their repetitions.
pub fn sort_paths(files: &Vec<String>) -> (r: Vec<String>)
    ensures
        not_descending(text::views(r@)),
        text::views(r@).to_multiset() == text::views(files@).to_multiset(),
{
    let mut out: Vec<String> = Vec::new();
    let mut i: usize = 0;
    assert(text::views(out@) == text::views(files@).take(0));
    while i < files.len()
        invariant
            i <= files@.len(),
            not_descending(text::views(out@)),
            text::views(out@).to_multiset() == text::views(files@).take(i as int).to_multiset(),
        decreases files@.len() - i,
    {
        let path = &files[i];
        let mut at: usize = 0;
        while at < out.len() && !path_before(path, &out[at])
            invariant
                at <= out@.len(),
                forall|j: int|
                    0 <= j < at ==> !parts_before(parts(path@), parts((#[trigger] out@[j])@)),
            decreases out@.len() - at,
        {
            at += 1;
        }
        let ghost before = text::views(out@);
        out.insert(at, path.as_str().to_owned());
        proof {
            let after = text::views(out@);
            assert(after == before.insert(at as int, path@));
            assert forall|j: int, k: int| 0 <= j < k < after.len() implies !parts_before(
                parts(#[trigger] after[k]),
                parts(#[trigger] after[j]),
            ) by {
                if k < at {
                    assert(after[j] == before[j] && after[k] == before[k]);
                } else if j > at {
                    assert(after[j] == before[j - 1] && after[k] == before[k - 1]);
                } else if k == at {
                    assert(after[j] == before[j]);
                } else {
                    assert(after[k] == before[k - 1]);
                    let p = parts(path@);
                    let first = parts(before[at as int]);
                    let last = parts(before[k - 1]);
                    if j == at {
                        if k - 1 > at && parts_before(last, p) {
                            lemma_parts_before_transitive(last, p, first);
                        } else {
                            lemma_parts_before_total(first, p);
                        }
                    } else {
                        assert(after[j] == before[j]);
                    }
                }
            }
            broadcast use vstd::seq_lib::group_to_multiset_ensures;

            let seen = text::views(files@).take(i as int);
            assert(text::views(files@).take(i + 1) == seen.push(path@));
            assert(after.remove(at as int) == before);
            assert(after.to_multiset() =~= before.to_multiset().insert(path@)) by {
                assert(after[at as int] == path@);
                assert(after.contains(path@));
            }
        }
        i += 1;
    }
    assert(text::views(files@).take(i as int) == text::views(files@));
    out
}

/// A directory's path is shorter than those of what lies in it.
pub proof fn lemma_parent_shorter(path: Seq<char>)
    requires
        parent(path) is Some,
    ensures
        parent(path)->0.len() < path.len(),
{
    let whole = without_tail(path);
    lemma_without_tail_length(path);
    lemma_last_slash(whole);
    let slash = last_slash(whole);
    if slash > 0 {
        lemma_without_tail_length(whole.take(slash));
    }
}

proof fn lemma_without_tail_length(path: Seq<char>)
    ensures
        without_tail(path).len() <= path.len(),
    decreases path.len(),
{
    lemma_last_slash(path);
    let slash = last_slash(path);
    if slash >= 0 && idle_piece(path.skip(slash + 1)) && slash != 0 {
        lemma_without_tail_length(path.take(slash));
    }
}

} // verus!
