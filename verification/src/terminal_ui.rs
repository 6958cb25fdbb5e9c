//! Texts that fit a terminal, and the keys that are pressed in it.

use vstd::prelude::*;
use vstd::string::*;

use crate::text;

verus! {

// Keys.

/// Whether a screen stays after a key.
#[derive(Clone, Copy, Debug, Eq, PartialEq, Structural)]
pub enum ControlFlow {
    Continue,
    Quit,
}

/// A key of the keyboard.
#[derive(Clone, Copy, Debug, Eq, PartialEq, Structural)]
pub enum KeyCode {
    Char(char),
    Esc,
    Enter,
    Up,
    Down,
    Left,
    Right,
    Home,
    End,
    PageUp,
    PageDown,
    Tab,
    BackTab,
    Backspace,
    Delete,
    Other,
}

/// A key that was pressed, and what was held with it.
#[derive(Clone, Copy, Debug, Eq, PartialEq, Structural)]
pub struct Key {
    pub code: KeyCode,
    pub control: bool,
    pub alt: bool,
    pub shift: bool,
}

/// The key asks to leave at once.
pub open spec fn interrupts(key: Key) -> bool {
    key.control && (key.code == KeyCode::Char('c') || key.code == KeyCode::Char('C'))
}

/// Tells whether a key asks to leave at once.
pub fn is_interrupt(key: Key) -> (r: bool)
    ensures
        r == interrupts(key),
{
    key.control && (key.code == KeyCode::Char('c') || key.code == KeyCode::Char('C'))
}

// Screens.

/// How the parts of a screen stand, from the least room to the most.
#[derive(Clone, Copy, Debug, Eq, PartialEq, Structural)]
pub enum Arrangement {
    /// Nothing can be shown.
    TooSmall,
    /// The list stands above a short account of what is selected.
    Stacked,
    /// The list stands beside a short account of what is selected.
    Beside,
    /// The list stands beside a full account of what is selected.
    Wide,
}

/// How much an arrangement shows.
pub open spec fn extent(arrangement: Arrangement) -> int {
    match arrangement {
        Arrangement::TooSmall => 0,
        Arrangement::Stacked => 1,
        Arrangement::Beside => 2,
        Arrangement::Wide => 3,
    }
}

// Styles.

/// The colour of a piece of text.
#[derive(Clone, Copy, Debug, Eq, PartialEq, Structural)]
pub enum Tone {
    Plain,
    Text,
    Muted,
    Faint,
    Amber,
    Green,
    Red,
    Blue,
    Cyan,
}

/// A piece of a line.
#[derive(Clone, Debug)]
pub struct Segment {
    pub text: String,
    pub tone: Tone,
    pub bold: bool,
    /// The piece stands out as what is selected.
    pub selected: bool,
}

/// A piece of a line, viewed.
pub struct SegmentView {
    pub text: Seq<char>,
    pub tone: Tone,
    pub bold: bool,
    pub selected: bool,
}

impl View for Segment {
    type V = SegmentView;

    open spec fn view(&self) -> SegmentView {
        SegmentView { text: self.text@, tone: self.tone, bold: self.bold, selected: self.selected }
    }
}

/// A piece of text in a colour.
pub open spec fn toned(text: Seq<char>, tone: Tone) -> SegmentView {
    SegmentView { text, tone, bold: false, selected: false }
}

/// A bold piece of text in a colour.
pub open spec fn strong(text: Seq<char>, tone: Tone) -> SegmentView {
    SegmentView { text, tone, bold: true, selected: false }
}

/// A bold piece of text that stands out as what is selected.
pub open spec fn chosen(text: Seq<char>, tone: Tone) -> SegmentView {
    SegmentView { text, tone, bold: true, selected: true }
}

/// The pieces of a line, viewed.
pub open spec fn line_view(line: Seq<Segment>) -> Seq<SegmentView> {
    Seq::new(line.len(), |i: int| line[i]@)
}

/// The lines of a text, viewed.
pub open spec fn lines_view(lines: Seq<Vec<Segment>>) -> Seq<Seq<SegmentView>> {
    Seq::new(lines.len(), |i: int| line_view(lines[i]@))
}

/// A line without pieces.
pub open spec fn blank_line() -> Seq<SegmentView> {
    seq![toned(""@, Tone::Plain)]
}

impl Segment {
    /// A piece of text in a colour.
    pub fn toned(text: String, tone: Tone) -> (r: Segment)
        ensures
            r@ == toned(text@, tone),
    {
        Segment { text, tone, bold: false, selected: false }
    }

    /// A bold piece of text in a colour.
    pub fn strong(text: String, tone: Tone) -> (r: Segment)
        ensures
            r@ == strong(text@, tone),
    {
        Segment { text, tone, bold: true, selected: false }
    }

    /// A bold piece of text that stands out as what is selected.
    pub fn chosen(text: String, tone: Tone) -> (r: Segment)
        ensures
            r@ == chosen(text@, tone),
    {
        Segment { text, tone, bold: true, selected: true }
    }
}

/// A line of one piece.
pub fn line_of(segment: Segment) -> (r: Vec<Segment>)
    ensures
        line_view(r@) == seq![segment@],
{
    let mut out: Vec<Segment> = Vec::new();
    out.push(segment);
    assert(line_view(out@) == seq![segment@]);
    out
}

/// A line of two pieces.
pub fn line_of_two(first: Segment, second: Segment) -> (r: Vec<Segment>)
    ensures
        line_view(r@) == seq![first@, second@],
{
    let mut out: Vec<Segment> = Vec::new();
    out.push(first);
    out.push(second);
    assert(line_view(out@) == seq![first@, second@]);
    out
}

/// A line of three pieces.
pub fn line_of_three(first: Segment, second: Segment, third: Segment) -> (r: Vec<Segment>)
    ensures
        line_view(r@) == seq![first@, second@, third@],
{
    let mut out: Vec<Segment> = Vec::new();
    out.push(first);
    out.push(second);
    out.push(third);
    assert(line_view(out@) == seq![first@, second@, third@]);
    out
}

/// A line without pieces.
pub fn empty_line() -> (r: Vec<Segment>)
    ensures
        line_view(r@) == blank_line(),
{
    line_of(Segment::toned("".to_owned(), Tone::Plain))
}

/// Adds a piece to a line.
pub fn push_segment(line: &mut Vec<Segment>, segment: Segment)
    ensures
        line_view(final(line)@) == line_view(old(line)@).push(segment@),
{
    let ghost before = line_view(line@);
    line.push(segment);
    assert(line_view(line@) == before.push(segment@));
}

/// Adds a line.
pub fn push_line(lines: &mut Vec<Vec<Segment>>, line: Vec<Segment>)
    ensures
        lines_view(final(lines)@) == lines_view(old(lines)@).push(line_view(line@)),
{
    let ghost before = lines_view(lines@);
    lines.push(line);
    assert(lines_view(lines@) == before.push(line_view(line@)));
}

/// Adds lines.
pub fn push_lines(lines: &mut Vec<Vec<Segment>>, more: Vec<Vec<Segment>>)
    ensures
        lines_view(final(lines)@) == lines_view(old(lines)@) + lines_view(more@),
{
    let ghost before = lines_view(lines@);
    let ghost added = lines_view(more@);
    let mut more = more;
    lines.append(&mut more);
    assert(lines_view(lines@) == before + added);
}

// Widths.

/// A text that was cut to a width: what does not fit is an ellipsis.
pub open spec fn clipped(value: Seq<char>, width: nat) -> Seq<char> {
    if value.len() <= width {
        value
    } else if width == 0 {
        Seq::empty()
    } else {
        value.take(width - 1).push('…')
    }
}

/// Cuts a text to a width.
pub fn clip(value: &str, width: usize) -> (r: String)
    ensures
        r@ == clipped(value@, width as nat),
{
    let chars = text::chars_of(value);
    if chars.len() <= width {
        return value.to_owned();
    }
    if width == 0 {
        return String::new();
    }
    let mut out = text::text_of(&chars, 0, width - 1);
    assert(value@.subrange(0, width - 1) == value@.take(width - 1));
    out.push('…');
    out
}

/// A text that was cut never is wider than asked, and one that fits stays as it is.
pub proof fn a_cut_text_fits(value: Seq<char>, width: nat)
    ensures
        clipped(value, width).len() <= width,
        value.len() <= width ==> clipped(value, width) == value,
        value.len() > width ==> clipped(value, width).len() == width,
{
}

/// Spaces.
pub open spec fn spaces(n: nat) -> Seq<char> {
    Seq::new(n, |i: int| ' ')
}

/// A text filled up to a width with spaces after it.
pub open spec fn filled(value: Seq<char>, width: nat) -> Seq<char> {
    if value.len() >= width {
        value
    } else {
        value + spaces((width - value.len()) as nat)
    }
}

/// A text filled up to a width with spaces before it.
pub open spec fn filled_before(value: Seq<char>, width: nat) -> Seq<char> {
    if value.len() >= width {
        value
    } else {
        spaces((width - value.len()) as nat) + value
    }
}

fn blanks(n: usize) -> (r: String)
    ensures
        r@ == spaces(n as nat),
{
    let mut out = String::new();
    let mut i: usize = 0;
    while i < n
        invariant
            i <= n,
            out@ == spaces(i as nat),
        decreases n - i,
    {
        out.push(' ');
        assert(out@ == spaces((i + 1) as nat));
        i += 1;
    }
    out
}

/// How many characters a text has.
pub fn width_of(value: &str) -> (r: usize)
    ensures
        r == value@.len(),
{
    text::chars_of(value).len()
}

/// Fills a text up to a width with spaces after it.
pub fn fill(value: &str, width: usize) -> (r: String)
    ensures
        r@ == filled(value@, width as nat),
{
    let count: usize = width_of(value);
    let mut out = value.to_owned();
    if count < width {
        out.append(&blanks(width - count));
    }
    out
}

/// Fills a text up to a width with spaces before it.
pub fn fill_before(value: &str, width: usize) -> (r: String)
    ensures
        r@ == filled_before(value@, width as nat),
{
    let count: usize = width_of(value);
    if count >= width {
        return value.to_owned();
    }
    let mut out = blanks(width - count);
    out.append(value);
    out
}

/// Two texts at the sides of a line: the left one gives way to the right one.
pub open spec fn sides(left: Seq<char>, right: Seq<char>, width: nat) -> Seq<char> {
    let right_width = if right.len() <= width {
        right.len()
    } else {
        width
    };
    if width == 0 {
        Seq::empty()
    } else if right_width + 1 >= width {
        clipped(right, width)
    } else {
        let left_width = (width - right_width - 1) as nat;
        filled(clipped(left, left_width), left_width).push(' ') + clipped(right, right_width)
    }
}

/// Puts two texts at the sides of a line.
pub fn fit_sides(left: &str, right: &str, width: usize) -> (r: String)
    ensures
        r@ == sides(left@, right@, width as nat),
{
    if width == 0 {
        return String::new();
    }
    let count: usize = width_of(right);
    let right_width: usize = if count <= width {
        count
    } else {
        width
    };
    if right_width >= width - 1 {
        return clip(right, width);
    }
    let left_width: usize = width - right_width - 1;
    let mut out = fill(&clip(left, left_width), left_width);
    out.push(' ');
    out.append(&clip(right, right_width));
    out
}

/// A line with texts at its sides never is wider than asked, and exactly as wide where the right
/// text leaves room.
pub proof fn sides_fit(left: Seq<char>, right: Seq<char>, width: nat)
    ensures
        sides(left, right, width).len() <= width,
        right.len() + 1 < width ==> sides(left, right, width).len() == width,
{
    if right.len() + 1 < width {
        let left_width = (width - right.len() - 1) as nat;
        a_cut_text_fits(left, left_width);
        assert(filled(clipped(left, left_width), left_width).len() == left_width);
    }
}

// Keys and what they do.

/// Keys and what they do, the first `n` of them, in a line.
pub open spec fn shortcut_segments(shortcuts: Seq<(Seq<char>, Seq<char>)>, n: int) -> Seq<SegmentView>
    decreases n,
{
    if n <= 0 {
        Seq::empty()
    } else {
        let earlier = shortcut_segments(shortcuts, n - 1);
        let spaced = if n > 1 {
            earlier.push(toned("   "@, Tone::Plain))
        } else {
            earlier
        };
        spaced.push(strong(shortcuts[n - 1].0 + " "@, Tone::Text)).push(
            toned(shortcuts[n - 1].1, Tone::Muted),
        )
    }
}

/// Keys and what they do, viewed.
pub open spec fn shortcuts_view(shortcuts: Seq<(&'static str, &'static str)>) -> Seq<
    (Seq<char>, Seq<char>),
> {
    Seq::new(shortcuts.len(), |i: int| (shortcuts[i].0@, shortcuts[i].1@))
}

/// Keys and what they do, in a line.
pub fn shortcut_line(shortcuts: &Vec<(&'static str, &'static str)>) -> (r: Vec<Segment>)
    ensures
        line_view(r@) == shortcut_segments(
            shortcuts_view(shortcuts@),
            shortcuts@.len() as int,
        ),
{
    let ghost all = shortcuts_view(shortcuts@);
    let mut out: Vec<Segment> = Vec::new();
    let mut i: usize = 0;
    assert(line_view(out@) == shortcut_segments(all, 0));
    while i < shortcuts.len()
        invariant
            i <= shortcuts@.len(),
            all == shortcuts_view(shortcuts@),
            line_view(out@) == shortcut_segments(all, i as int),
        decreases shortcuts@.len() - i,
    {
        if i > 0 {
            push_segment(&mut out, Segment::toned("   ".to_owned(), Tone::Plain));
        }
        let (key, label) = shortcuts[i];
        let mut name = key.to_owned();
        name.append(" ");
        push_segment(&mut out, Segment::strong(name, Tone::Text));
        push_segment(&mut out, Segment::toned(label.to_owned(), Tone::Muted));
        assert(all[i as int] == (key@, label@));
        i += 1;
    }
    out
}

// Graphs.

/// The bar of a level; levels above the highest show as it does.
pub open spec fn bar_of(level: nat) -> char {
    if level == 0 {
        '▁'
    } else if level == 1 {
        '▂'
    } else if level == 2 {
        '▃'
    } else if level == 3 {
        '▄'
    } else if level == 4 {
        '▅'
    } else if level == 5 {
        '▆'
    } else if level == 6 {
        '▇'
    } else {
        '█'
    }
}

/// The bar of a level.
pub fn bar(level: usize) -> (r: char)
    ensures
        r == bar_of(level as nat),
{
    if level == 0 {
        '▁'
    } else if level == 1 {
        '▂'
    } else if level == 2 {
        '▃'
    } else if level == 3 {
        '▄'
    } else if level == 4 {
        '▅'
    } else if level == 5 {
        '▆'
    } else if level == 6 {
        '▇'
    } else {
        '█'
    }
}

/// The bars of some levels.
pub open spec fn bars_of(levels: Seq<usize>) -> Seq<char> {
    Seq::new(levels.len(), |i: int| bar_of(levels[i] as nat))
}

/// The bars of some levels.
pub fn bars(levels: &Vec<usize>) -> (r: String)
    ensures
        r@ == bars_of(levels@),
{
    let mut out = String::new();
    let mut i: usize = 0;
    while i < levels.len()
        invariant
            i <= levels@.len(),
            out@ == bars_of(levels@).take(i as int),
        decreases levels@.len() - i,
    {
        out.push(bar(levels[i]));
        assert(out@ == bars_of(levels@).take(i + 1));
        i += 1;
    }
    assert(bars_of(levels@).take(levels@.len() as int) == bars_of(levels@));
    out
}

// Too little room.

/// What is said where the terminal is too small.
pub open spec fn too_small(title: Seq<char>, size: (u16, u16), least: (u16, u16)) -> Seq<
    Seq<SegmentView>,
> {
    seq![
        seq![strong(title, Tone::Amber)],
        blank_line(),
        seq![
            toned(
                "Terminal is "@ + text::decimal(size.0 as nat) + "x"@ + text::decimal(
                    size.1 as nat,
                ) + "; resize to at least "@ + text::decimal(least.0 as nat) + "x"@
                    + text::decimal(least.1 as nat) + "."@,
                Tone::Plain,
            ),
        ],
        blank_line(),
        seq![toned("q quit"@, Tone::Muted)],
    ]
}

/// What is said where the terminal is too small.
pub fn too_small_lines(title: &str, size: (u16, u16), least: (u16, u16)) -> (r: Vec<Vec<Segment>>)
    ensures
        lines_view(r@) == too_small(title@, size, least),
{
    let mut said = "Terminal is ".to_owned();
    said.append(&text::decimal_text(size.0 as u64));
    said.append("x");
    said.append(&text::decimal_text(size.1 as u64));
    said.append("; resize to at least ");
    said.append(&text::decimal_text(least.0 as u64));
    said.append("x");
    said.append(&text::decimal_text(least.1 as u64));
    said.append(".");
    let mut out: Vec<Vec<Segment>> = Vec::new();
    push_line(&mut out, line_of(Segment::strong(title.to_owned(), Tone::Amber)));
    push_line(&mut out, empty_line());
    push_line(&mut out, line_of(Segment::toned(said, Tone::Plain)));
    push_line(&mut out, empty_line());
    push_line(&mut out, line_of(Segment::toned("q quit".to_owned(), Tone::Muted)));
    assert(lines_view(out@) == too_small(title@, size, least));
    out
}

// Ages.

/// How long ago something happened, in whole minutes, hours, or days.
pub open spec fn age(now_ms: int, then_ms: int) -> Seq<char> {
    let elapsed = if now_ms > then_ms {
        now_ms - then_ms
    } else {
        0
    };
    if elapsed < 60_000 {
        "now"@
    } else if elapsed < 3_600_000 {
        text::decimal((elapsed / 60_000) as nat) + "m ago"@
    } else if elapsed < 86_400_000 {
        text::decimal((elapsed / 3_600_000) as nat) + "h ago"@
    } else {
        text::decimal((elapsed / 86_400_000) as nat) + "d ago"@
    }
}

/// Says how long ago something happened.
pub fn relative_age(now_ms: u64, then_ms: u64) -> (r: String)
    ensures
        r@ == age(now_ms as int, then_ms as int),
{
    let elapsed: u64 = if now_ms > then_ms {
        now_ms - then_ms
    } else {
        0
    };
    if elapsed < 60_000 {
        return "now".to_owned();
    }
    if elapsed < 3_600_000 {
        let mut out = text::decimal_text(elapsed / 60_000);
        out.append("m ago");
        out
    } else if elapsed < 86_400_000 {
        let mut out = text::decimal_text(elapsed / 3_600_000);
        out.append("h ago");
        out
    } else {
        let mut out = text::decimal_text(elapsed / 86_400_000);
        out.append("d ago");
        out
    }
}

// Lists.

/// The place that lies some steps from another in a list, without leaving it.
pub open spec fn moved(index: int, delta: int, count: int) -> int {
    let at = index + delta;
    if delta < 0 {
        if at < 0 {
            0
        } else {
            at
        }
    } else if at > count - 1 {
        if count > 0 {
            count - 1
        } else {
            0
        }
    } else {
        at
    }
}

/// Moves some steps in a list.
pub fn offset_index(index: usize, delta: isize, count: usize) -> (r: usize)
    ensures
        r == moved(index as int, delta as int, count as int),
{
    if delta < 0 {
        let steps: usize = (-(delta + 1)) as usize;
        if index <= steps {
            0
        } else {
            index - steps - 1
        }
    } else {
        let steps: usize = delta as usize;
        let last: usize = if count > 0 {
            count - 1
        } else {
            0
        };
        if index >= last || last - index <= steps {
            last
        } else {
            index + steps
        }
    }
}

/// A move from within a list stays within it.
pub proof fn a_move_stays_in_the_list(index: int, delta: int, count: int)
    requires
        0 <= index < count,
    ensures
        0 <= moved(index, delta, count) < count,
{
}

} // verus!
