//! Text as a sequence of characters: trimming, lines, decimal numbers, and order.

use vstd::prelude::*;
use vstd::string::*;
use vstd::utf8::*;

verus! {

/// `String::push` appends one character and changes nothing else.
pub assume_specification[ String::push ](s: &mut String, c: char)
    ensures
        final(s)@ == old(s)@.push(c),
;

/// A text in double quotes, with the escapes that Rust's debug format writes.
pub uninterp spec fn quoted(s: Seq<char>) -> Seq<char>;

/// `format!` with the `{:?}` of `str`: the result depends on the text alone.
#[verifier::external_body]
pub(crate) fn quote(s: &str) -> (r: String)
    ensures
        r@ == quoted(s@),
{
    format!("{s:?}")
}

/// The characters of an optional text.
pub open spec fn opt(value: Option<String>) -> Option<Seq<char>> {
    match value {
        Some(text) => Some(text@),
        None => None,
    }
}

/// The characters of every text in a sequence.
pub open spec fn views(values: Seq<String>) -> Seq<Seq<char>> {
    Seq::new(values.len(), |i: int| values[i]@)
}

/// The characters that Unicode gives the `White_Space` property.
pub open spec fn is_white(c: char) -> bool {
    ||| 0x9 <= c as u32 <= 0xd
    ||| c as u32 == 0x20
    ||| c as u32 == 0x85
    ||| c as u32 == 0xa0
    ||| c as u32 == 0x1680
    ||| 0x2000 <= c as u32 <= 0x200a
    ||| c as u32 == 0x2028
    ||| c as u32 == 0x2029
    ||| c as u32 == 0x202f
    ||| c as u32 == 0x205f
    ||| c as u32 == 0x3000
}

/// Tells whether a character is white space.
pub fn white(c: char) -> (r: bool)
    ensures
        r == is_white(c),
{
    let code: u32 = c as u32;
    (0x9 <= code && code <= 0xd) || code == 0x20 || code == 0x85 || code == 0xa0 || code == 0x1680
        || (0x2000 <= code && code <= 0x200a) || code == 0x2028 || code == 0x2029 || code == 0x202f
        || code == 0x205f || code == 0x3000
}

/// A text without the white space at its two ends.
pub open spec fn trimmed(s: Seq<char>) -> Seq<char>
    decreases s.len(),
{
    if s.len() == 0 {
        s
    } else if is_white(s[0]) {
        trimmed(s.drop_first())
    } else if is_white(s.last()) {
        trimmed(s.drop_last())
    } else {
        s
    }
}

/// A text that is nothing but white space.
pub open spec fn blank(s: Seq<char>) -> bool {
    forall|i: int| 0 <= i < s.len() ==> is_white(#[trigger] s[i])
}

/// Trimming leaves nothing of a text exactly where the text is blank.
pub proof fn lemma_trimmed_blank(s: Seq<char>)
    ensures
        trimmed(s).len() == 0 <==> blank(s),
        trimmed(s).len() <= s.len(),
    decreases s.len(),
{
    if s.len() > 0 {
        if is_white(s[0]) {
            lemma_trimmed_blank(s.drop_first());
            if blank(s.drop_first()) {
                assert forall|i: int| 0 <= i < s.len() implies is_white(#[trigger] s[i]) by {
                    if i > 0 {
                        assert(s[i] == s.drop_first()[i - 1]);
                    }
                }
            }
            if blank(s) {
                assert forall|i: int| 0 <= i < s.drop_first().len() implies is_white(
                    #[trigger] s.drop_first()[i],
                ) by {
                    assert(s.drop_first()[i] == s[i + 1]);
                }
            }
        } else if is_white(s.last()) {
            lemma_trimmed_blank(s.drop_last());
            assert(s.drop_last()[0] == s[0]);
            assert(!blank(s.drop_last()));
        }
    }
}

/// The characters of a text.
pub fn chars_of(s: &str) -> (r: Vec<char>)
    ensures
        r@ == s@,
{
    let mut out: Vec<char> = Vec::new();
    for c in it: s.chars()
        invariant
            out@ == it.seq().take(it.index()),
            it.seq() == s@,
    {
        out.push(c);
        assert(it.seq().take(it.index() + 1) == it.seq().take(it.index()).push(c));
    }
    assert(s@.take(s@.len() as int) == s@);
    out
}

/// The text made of the characters from `from` up to `to`.
pub fn text_of(chars: &[char], from: usize, to: usize) -> (r: String)
    requires
        from <= to <= chars@.len(),
    ensures
        r@ == chars@.subrange(from as int, to as int),
{
    let mut out = String::new();
    let mut i: usize = from;
    while i < to
        invariant
            from <= i <= to <= chars@.len(),
            out@ == chars@.subrange(from as int, i as int),
        decreases to - i,
    {
        out.push(chars[i]);
        i += 1;
        assert(chars@.subrange(from as int, i as int) == chars@.subrange(
            from as int,
            i as int - 1,
        ).push(chars@[i as int - 1]));
    }
    out
}

/// Tells whether two texts have the same characters.
pub fn same(a: &str, b: &str) -> (r: bool)
    ensures
        r == (a@ == b@),
{
    let x = a.as_bytes();
    let y = b.as_bytes();
    proof {
        encode_utf8_decode_utf8(a@);
        encode_utf8_decode_utf8(b@);
    }
    if x.len() != y.len() {
        return false;
    }
    let mut i: usize = 0;
    while i < x.len()
        invariant
            i <= x@.len(),
            x@.len() == y@.len(),
            forall|j: int| 0 <= j < i ==> x@[j] == y@[j],
            x@ == encode_utf8(a@),
            y@ == encode_utf8(b@),
        decreases x@.len() - i,
    {
        if x[i] != y[i] {
            return false;
        }
        i += 1;
    }
    assert(x@ == y@);
    true
}

/// Tells whether two optional texts are both absent or have the same characters.
pub fn same_opt(a: &Option<String>, b: &Option<String>) -> (r: bool)
    ensures
        r == (opt(*a) == opt(*b)),
{
    match (a, b) {
        (Some(x), Some(y)) => same(x, y),
        (None, None) => true,
        _ => false,
    }
}

/// A text without the white space at its two ends.
pub fn trim(s: &str) -> (r: String)
    ensures
        r@ == trimmed(s@),
{
    let chars = chars_of(s);
    let mut from: usize = 0;
    let mut to: usize = chars.len();
    assert(s@.subrange(0, to as int) == s@);
    while from < to && white(chars[from])
        invariant
            from <= to <= chars@.len(),
            chars@ == s@,
            trimmed(s@) == trimmed(s@.subrange(from as int, to as int)),
        ensures
            from <= to <= chars@.len(),
            from < to ==> !is_white(chars@[from as int]),
            trimmed(s@) == trimmed(s@.subrange(from as int, to as int)),
        decreases to - from,
    {
        assert(s@.subrange(from as int, to as int).drop_first() == s@.subrange(
            from as int + 1,
            to as int,
        ));
        from += 1;
    }
    while from < to && white(chars[to - 1])
        invariant
            from <= to <= chars@.len(),
            chars@ == s@,
            from < to ==> !is_white(chars@[from as int]),
            trimmed(s@) == trimmed(s@.subrange(from as int, to as int)),
        ensures
            from <= to <= chars@.len(),
            from < to ==> !is_white(chars@[to as int - 1]),
            trimmed(s@) == trimmed(s@.subrange(from as int, to as int)),
            from < to ==> !is_white(chars@[from as int]),
        decreases to - from,
    {
        assert(s@.subrange(from as int, to as int).drop_last() == s@.subrange(
            from as int,
            to as int - 1,
        ));
        to -= 1;
    }
    text_of(&chars, from, to)
}

/// The digit `d` as a character.
pub open spec fn digit(d: nat) -> char {
    (('0' as nat) + d) as char
}

/// A number in base ten, without leading zeros.
pub open spec fn decimal(n: nat) -> Seq<char>
    decreases n,
{
    if n < 10 {
        seq![digit(n)]
    } else {
        decimal(n / 10).push(digit(n % 10))
    }
}

/// The character of a decimal digit.
fn digit_char(d: u64) -> (r: char)
    requires
        d < 10,
    ensures
        r == digit(d as nat),
{
    match d {
        0 => '0',
        1 => '1',
        2 => '2',
        3 => '3',
        4 => '4',
        5 => '5',
        6 => '6',
        7 => '7',
        8 => '8',
        _ => '9',
    }
}

/// Writes a number in base ten.
pub fn decimal_text(n: u64) -> (r: String)
    ensures
        r@ == decimal(n as nat),
    decreases n,
{
    if n < 10 {
        let mut out = String::new();
        out.push(digit_char(n));
        assert(out@ == seq![digit(n as nat)]);
        out
    } else {
        let mut out = decimal_text(n / 10);
        out.push(digit_char(n % 10));
        out
    }
}

/// Where a character first stands in a text; the length where it does not.
pub open spec fn first_index(s: Seq<char>, c: char) -> int
    decreases s.len(),
{
    if s.len() == 0 || s[0] == c {
        0
    } else {
        1 + first_index(s.drop_first(), c)
    }
}

/// `first_index` lies in the text or at its end, and nothing before it is the character.
pub proof fn lemma_first_index(s: Seq<char>, c: char)
    ensures
        0 <= first_index(s, c) <= s.len(),
        first_index(s, c) < s.len() ==> s[first_index(s, c)] == c,
        forall|j: int| 0 <= j < first_index(s, c) ==> s[j] != c,
    decreases s.len(),
{
    if s.len() > 0 && s[0] != c {
        lemma_first_index(s.drop_first(), c);
        assert forall|j: int| 0 <= j < first_index(s, c) implies s[j] != c by {
            if j > 0 {
                assert(s[j] == s.drop_first()[j - 1]);
            }
        }
    }
}

/// An index before which the character does not stand, and at which it does or the text ends, is
/// `first_index`.
pub proof fn lemma_first_index_is(s: Seq<char>, c: char, i: int)
    requires
        0 <= i <= s.len(),
        i < s.len() ==> s[i] == c,
        forall|j: int| 0 <= j < i ==> s[j] != c,
    ensures
        first_index(s, c) == i,
{
    lemma_first_index(s, c);
}

/// A text without one carriage return at its end.
pub open spec fn without_return(s: Seq<char>) -> Seq<char> {
    if s.len() > 0 && s.last() == '\r' {
        s.drop_last()
    } else {
        s
    }
}

/// The lines of a text: each ends at a line feed, with or without a carriage return before it, and
/// the last one may lack its line feed.
pub open spec fn lines(s: Seq<char>) -> Seq<Seq<char>>
    decreases s.len(),
{
    proof {
        lemma_first_index(s, '\n');
    }
    let end = first_index(s, '\n');
    if s.len() == 0 {
        Seq::empty()
    } else if end == s.len() {
        seq![s]
    } else {
        seq![without_return(s.take(end))] + lines(s.skip(end + 1))
    }
}

/// Splits a text into its lines.
pub fn split_lines(s: &str) -> (r: Vec<String>)
    ensures
        views(r@) == lines(s@),
{
    let chars = chars_of(s);
    let mut out: Vec<String> = Vec::new();
    let mut start: usize = 0;
    let mut i: usize = 0;
    assert(s@.skip(0) == s@);
    assert(views(out@) + lines(s@) == lines(s@));
    while i < chars.len()
        invariant
            start <= i <= chars@.len(),
            chars@ == s@,
            forall|j: int| start <= j < i ==> s@[j] != '\n',
            lines(s@) == views(out@) + lines(s@.skip(start as int)),
        decreases chars@.len() - i,
    {
        if chars[i] == '\n' {
            let mut end: usize = i;
            if end > start && chars[end - 1] == '\r' {
                end -= 1;
            }
            let line = text_of(&chars, start, end);
            proof {
                let rest = s@.skip(start as int);
                assert forall|j: int| 0 <= j < i - start implies rest[j] != '\n' by {
                    assert(rest[j] == s@[start + j]);
                }
                lemma_first_index_is(rest, '\n', i - start);
                assert(line@ == without_return(rest.take(i - start)));
                assert(rest.skip(i - start + 1) == s@.skip(i + 1));
                assert(views(out@.push(line)) == views(out@) + seq![line@]);
                assert(views(out@) + (seq![line@] + lines(s@.skip(i + 1))) == views(
                    out@.push(line),
                ) + lines(s@.skip(i + 1)));
            }
            out.push(line);
            start = i + 1;
        }
        i += 1;
    }
    if start < chars.len() {
        let line = text_of(&chars, start, chars.len());
        proof {
            let rest = s@.skip(start as int);
            assert forall|j: int| 0 <= j < rest.len() implies rest[j] != '\n' by {
                assert(rest[j] == s@[start + j]);
            }
            lemma_first_index_is(rest, '\n', rest.len() as int);
            assert(line@ == rest);
            assert(views(out@.push(line)) == views(out@) + seq![line@]);
        }
        out.push(line);
    } else {
        assert(views(out@) + lines(s@.skip(start as int)) == views(out@));
    }
    out
}

/// Tells whether a text begins with another.
pub fn has_prefix(s: &str, prefix: &str) -> (r: bool)
    ensures
        r == prefix@.is_prefix_of(s@),
{
    let a = chars_of(s);
    let b = chars_of(prefix);
    if a.len() < b.len() {
        return false;
    }
    let mut i: usize = 0;
    while i < b.len()
        invariant
            i <= b@.len() <= a@.len(),
            a@ == s@,
            b@ == prefix@,
            forall|j: int| 0 <= j < i ==> a@[j] == b@[j],
        decreases b@.len() - i,
    {
        if a[i] != b[i] {
            assert(s@.subrange(0, prefix@.len() as int)[i as int] != prefix@[i as int]);
            return false;
        }
        i += 1;
    }
    assert(s@.subrange(0, prefix@.len() as int) == prefix@);
    true
}

/// Text `a` comes before text `b`: by the first character in which they differ, or because `b`
/// goes on where `a` ends.
pub open spec fn precedes(a: Seq<char>, b: Seq<char>) -> bool
    decreases a.len(),
{
    if b.len() == 0 {
        false
    } else if a.len() == 0 {
        true
    } else if a[0] != b[0] {
        (a[0] as int) < (b[0] as int)
    } else {
        precedes(a.drop_first(), b.drop_first())
    }
}

/// Of two different texts exactly one comes before the other, and no text comes before itself.
pub proof fn lemma_precedes_total(a: Seq<char>, b: Seq<char>)
    ensures
        !(precedes(a, b) && precedes(b, a)),
        a == b ==> !precedes(a, b),
        a != b ==> precedes(a, b) || precedes(b, a),
    decreases a.len(),
{
    if a.len() > 0 && b.len() > 0 {
        if a[0] == b[0] {
            lemma_precedes_total(a.drop_first(), b.drop_first());
            if a.drop_first() == b.drop_first() {
                assert(a == seq![a[0]] + a.drop_first());
                assert(b == seq![b[0]] + b.drop_first());
            }
        }
    } else if a.len() == 0 && b.len() == 0 {
        assert(a == b);
    }
}

/// The order of texts is transitive.
pub proof fn lemma_precedes_transitive(a: Seq<char>, b: Seq<char>, c: Seq<char>)
    requires
        precedes(a, b),
        precedes(b, c),
    ensures
        precedes(a, c),
    decreases a.len(),
{
    if a.len() > 0 && a[0] == b[0] && b[0] == c[0] {
        lemma_precedes_transitive(a.drop_first(), b.drop_first(), c.drop_first());
    }
}

/// Tells whether one character comes before another.
fn lower(a: char, b: char) -> (r: bool)
    ensures
        r == ((a as int) < (b as int)),
{
    (a as u32) < (b as u32)
}

/// Tells whether one text comes before another.
pub fn before(a: &str, b: &str) -> (r: bool)
    ensures
        r == precedes(a@, b@),
{
    let x = chars_of(a);
    let y = chars_of(b);
    let mut i: usize = 0;
    assert(a@.skip(0) == a@);
    assert(b@.skip(0) == b@);
    while i < x.len() && i < y.len()
        invariant
            i <= x@.len(),
            i <= y@.len(),
            x@ == a@,
            y@ == b@,
            precedes(a@, b@) == precedes(a@.skip(i as int), b@.skip(i as int)),
        decreases x@.len() - i,
    {
        assert(a@.skip(i as int)[0] == a@[i as int]);
        assert(b@.skip(i as int)[0] == b@[i as int]);
        if x[i] != y[i] {
            return lower(x[i], y[i]);
        }
        assert(a@.skip(i as int).drop_first() == a@.skip(i + 1));
        assert(b@.skip(i as int).drop_first() == b@.skip(i + 1));
        i += 1;
    }
    i < y.len()
}

/// Tells whether a character stands in a text.
pub fn contains_char(s: &str, c: char) -> (r: bool)
    ensures
        r == s@.contains(c),
{
    let chars = chars_of(s);
    let mut i: usize = 0;
    while i < chars.len()
        invariant
            i <= chars@.len(),
            chars@ == s@,
            forall|j: int| 0 <= j < i ==> s@[j] != c,
        decreases chars@.len() - i,
    {
        if chars[i] == c {
            assert(s@[i as int] == c);
            return true;
        }
        i += 1;
    }
    false
}

/// A letter or a digit of ASCII.
pub open spec fn is_alphanumeric(c: char) -> bool {
    ('a' <= c && c <= 'z') || ('A' <= c && c <= 'Z') || ('0' <= c && c <= '9')
}

/// A character that an identifier may hold.
pub open spec fn is_identifier_char(c: char) -> bool {
    is_alphanumeric(c) || c == '-' || c == '_' || c == '.'
}

/// An identifier: one or more letters, digits, hyphens, underscores, and dots.
pub open spec fn is_identifier(s: Seq<char>) -> bool {
    &&& s.len() > 0
    &&& forall|i: int| 0 <= i < s.len() ==> is_identifier_char(#[trigger] s[i])
}

/// Tells whether a text is an identifier.
pub fn identifier(s: &str) -> (r: bool)
    ensures
        r == is_identifier(s@),
{
    let chars = chars_of(s);
    let mut i: usize = 0;
    while i < chars.len()
        invariant
            i <= chars@.len(),
            chars@ == s@,
            forall|j: int| 0 <= j < i ==> is_identifier_char(#[trigger] s@[j]),
        decreases chars@.len() - i,
    {
        let c: char = chars[i];
        let accepted = ('a' <= c && c <= 'z') || ('A' <= c && c <= 'Z') || ('0' <= c && c <= '9')
            || c == '-' || c == '_' || c == '.';
        if !accepted {
            assert(!is_identifier_char(s@[i as int]));
            return false;
        }
        i += 1;
    }
    chars.len() > 0
}

/// A number of zeros.
pub open spec fn zeros(n: nat) -> Seq<char> {
    Seq::new(n, |i: int| '0')
}

/// A number in base ten, with zeros before it up to a width.
pub open spec fn padded(n: nat, width: nat) -> Seq<char> {
    let digits = decimal(n);
    if digits.len() >= width {
        digits
    } else {
        zeros((width - digits.len()) as nat) + digits
    }
}

/// Writes a number in base ten, with zeros before it up to a width.
pub fn padded_text(n: u64, width: usize) -> (r: String)
    ensures
        r@ == padded(n as nat, width as nat),
{
    let digits = decimal_text(n);
    let length: usize = digits.as_str().unicode_len();
    if length >= width {
        return digits;
    }
    let mut out = String::new();
    let mut i: usize = 0;
    assert(out@ == zeros(0));
    while i < width - length
        invariant
            length < width,
            i <= width - length,
            out@ == zeros(i as nat),
        decreases width - length - i,
    {
        out.push('0');
        i += 1;
        assert(out@ == zeros(i as nat));
    }
    out.append(&digits);
    out
}

/// The last `width` digits of a number.
pub open spec fn digits_of(n: nat, width: nat) -> Seq<char>
    decreases width,
{
    if width == 0 {
        Seq::empty()
    } else {
        digits_of(n / 10, (width - 1) as nat).push(digit(n % 10))
    }
}

/// Ten to a power.
pub open spec fn power_of_ten(n: nat) -> nat
    decreases n,
{
    if n == 0 {
        1
    } else {
        10 * power_of_ten((n - 1) as nat)
    }
}

/// A number below a power of ten is padded to that many digits.
proof fn lemma_padded_digits(n: nat, width: nat)
    requires
        n < power_of_ten(width),
        width > 0,
    ensures
        padded(n, width) == digits_of(n, width),
    decreases width,
{
    if width == 1 {
        assert(n < 10) by {
            assert(power_of_ten(1) == 10 * power_of_ten(0));
        }
        assert(digits_of(n / 10, 0) == Seq::<char>::empty());
        assert(padded(n, width) == digits_of(n, width));
    } else {
        let shorter = (width - 1) as nat;
        assert(n / 10 < power_of_ten(shorter)) by {
            assert(power_of_ten(width) == 10 * power_of_ten(shorter));
        }
        lemma_padded_digits(n / 10, shorter);
        if n < 10 {
            assert(n / 10 == 0 && n % 10 == n);
            assert(decimal(0) == seq![digit(0)]);
            assert(decimal(n) == seq![digit(n)]);
            assert(padded(0, shorter) == zeros(shorter)) by {
                assert(digit(0) == '0');
                assert(padded(0, shorter) =~= zeros(shorter));
            }
            assert(padded(n, width) =~= zeros(shorter).push(digit(n)));
        } else {
            let front = decimal(n / 10);
            assert(decimal(n) == front.push(digit(n % 10)));
            if front.len() >= shorter {
                assert(padded(n, width) =~= digits_of(n, width));
            } else {
                assert(padded(n, width) =~= digits_of(n, width));
            }
        }
    }
}

/// A common beginning does not change which of two texts comes first.
pub proof fn lemma_precedes_common(front: Seq<char>, a: Seq<char>, b: Seq<char>)
    ensures
        precedes(front + a, front + b) == precedes(a, b),
    decreases front.len(),
{
    if front.len() == 0 {
        assert(front + a == a);
        assert(front + b == b);
    } else {
        lemma_precedes_common(front.drop_first(), a, b);
        assert((front + a).drop_first() == front.drop_first() + a);
        assert((front + b).drop_first() == front.drop_first() + b);
    }
}

/// Of two different digit strings of one length the one that comes first decides, whatever
/// follows them.
proof fn lemma_digits_order(a: nat, b: nat, width: nat, x: Seq<char>, y: Seq<char>)
    requires
        a < b < power_of_ten(width),
    ensures
        precedes(digits_of(a, width) + x, digits_of(b, width) + y),
    decreases width,
{
    if width > 0 {
        let shorter = (width - 1) as nat;
        assert(power_of_ten(width) == 10 * power_of_ten(shorter));
        let front_a = digits_of(a / 10, shorter);
        let front_b = digits_of(b / 10, shorter);
        let tail_a = seq![digit(a % 10)] + x;
        let tail_b = seq![digit(b % 10)] + y;
        assert(digits_of(a, width) + x == front_a + tail_a);
        assert(digits_of(b, width) + y == front_b + tail_b);
        if a / 10 < b / 10 {
            lemma_digits_order(a / 10, b / 10, shorter, tail_a, tail_b);
        } else {
            assert(a / 10 == b / 10);
            assert(a % 10 < b % 10);
            lemma_precedes_common(front_a, tail_a, tail_b);
            assert(tail_a[0] == digit(a % 10));
            assert(tail_b[0] == digit(b % 10));
        }
    }
}

/// Numbers that fit a width are ordered as their padded texts are, whatever follows those.
pub proof fn padded_numbers_sort(a: nat, b: nat, width: nat, x: Seq<char>, y: Seq<char>)
    requires
        a < b < power_of_ten(width),
        width > 0,
    ensures
        precedes(padded(a, width) + x, padded(b, width) + y),
{
    lemma_padded_digits(a, width);
    lemma_padded_digits(b, width);
    lemma_digits_order(a, b, width, x, y);
}

/// The parts of a text before and after the first of a character, where it stands in the text.
pub open spec fn divided(s: Seq<char>, c: char) -> Option<(Seq<char>, Seq<char>)> {
    let at = first_index(s, c);
    if at < s.len() {
        Some((s.take(at), s.skip(at + 1)))
    } else {
        None
    }
}

/// Splits a text at the first of a character.
pub fn divide(s: &str, c: char) -> (r: Option<(String, String)>)
    ensures
        match r {
            Some(parts) => divided(s@, c) == Some((parts.0@, parts.1@)),
            None => divided(s@, c) is None,
        },
{
    let chars = chars_of(s);
    let mut i: usize = 0;
    while i < chars.len()
        invariant
            chars@ == s@,
            i <= chars@.len(),
            forall|j: int| 0 <= j < i ==> chars@[j] != c,
        decreases chars@.len() - i,
    {
        if chars[i] == c {
            proof {
                lemma_first_index_is(s@, c, i as int);
                assert(s@.subrange(0, i as int) == s@.take(i as int));
                assert(s@.subrange(i + 1, s@.len() as int) == s@.skip(i + 1));
            }
            return Some((text_of(&chars, 0, i), text_of(&chars, i + 1, chars.len())));
        }
        i += 1;
    }
    proof {
        lemma_first_index(s@, c);
    }
    None
}

/// A text with every one of a character replaced by another.
pub open spec fn replaced(s: Seq<char>, from: char, to: char) -> Seq<char> {
    Seq::new(
        s.len(),
        |i: int|
            if s[i] == from {
                to
            } else {
                s[i]
            },
    )
}

/// Replaces every one of a character by another.
pub fn replace(s: &str, from: char, to: char) -> (r: String)
    ensures
        r@ == replaced(s@, from, to),
{
    let chars = chars_of(s);
    let mut out = String::new();
    let mut i: usize = 0;
    while i < chars.len()
        invariant
            chars@ == s@,
            i <= chars@.len(),
            out@ == replaced(s@, from, to).take(i as int),
        decreases chars@.len() - i,
    {
        if chars[i] == from {
            out.push(to);
        } else {
            out.push(chars[i]);
        }
        assert(out@ == replaced(s@, from, to).take(i + 1));
        i += 1;
    }
    assert(replaced(s@, from, to).take(s@.len() as int) == replaced(s@, from, to));
    out
}

// Reading numbers.

/// The character is a decimal digit.
pub open spec fn is_digit(c: char) -> bool {
    '0' as int <= c as int <= '9' as int
}

/// Every character is a decimal digit.
pub open spec fn all_digits(s: Seq<char>) -> bool {
    forall|i: int| 0 <= i < s.len() ==> is_digit(#[trigger] s[i])
}

/// The number that some digits write.
pub open spec fn number_of(digits: Seq<char>) -> nat
    decreases digits.len(),
{
    if digits.len() == 0 {
        0
    } else {
        number_of(digits.drop_last()) * 10 + (digits.last() as nat - '0' as nat) as nat
    }
}

/// The number that a text writes: digits, before which a plus sign may stand.
pub open spec fn unsigned(s: Seq<char>) -> Option<nat> {
    let digits = if s.len() > 0 && s[0] == '+' {
        s.skip(1)
    } else {
        s
    };
    if digits.len() > 0 && all_digits(digits) {
        Some(number_of(digits))
    } else {
        None
    }
}

/// The number that a text writes, where it has 64 bits.
pub open spec fn unsigned_64(s: Seq<char>) -> Option<u64> {
    match unsigned(s) {
        Some(n) => if n <= u64::MAX {
            Some(n as u64)
        } else {
            None
        },
        None => None,
    }
}

proof fn lemma_number_grows(digits: Seq<char>, n: int)
    requires
        0 <= n <= digits.len(),
    ensures
        number_of(digits.take(n)) <= number_of(digits),
    decreases digits.len(),
{
    if n == digits.len() {
        assert(digits.take(n) == digits);
    } else {
        assert(digits.drop_last().take(n) == digits.take(n));
        lemma_number_grows(digits.drop_last(), n);
    }
}

fn digit_of(c: char) -> (r: Option<u64>)
    ensures
        match r {
            Some(d) => is_digit(c) && d == c as nat - '0' as nat && d < 10,
            None => !is_digit(c),
        },
{
    let code: u32 = c as u32;
    if 48 <= code && code <= 57 {
        Some((code - 48) as u64)
    } else {
        None
    }
}

/// Reads a number.
pub fn parse_u64(s: &str) -> (r: Option<u64>)
    ensures
        r == unsigned_64(s@),
{
    let chars = chars_of(s);
    let from: usize = if chars.len() > 0 && chars[0] == '+' {
        1
    } else {
        0
    };
    let ghost digits = s@.skip(from as int);
    assert(s@.skip(0) == s@);
    if chars.len() == from {
        return None;
    }
    let mut value: u64 = 0;
    let mut i: usize = from;
    assert(digits.take(0) == Seq::<char>::empty());
    while i < chars.len()
        invariant
            chars@ == s@,
            from <= i <= chars@.len(),
            from < chars@.len(),
            digits == s@.skip(from as int),
            unsigned(s@) == (if all_digits(digits) {
                Some(number_of(digits))
            } else {
                None
            }),
            value == number_of(digits.take(i - from)),
            all_digits(digits.take(i - from)),
        decreases chars@.len() - i,
    {
        let ghost seen = digits.take(i - from);
        let ghost next = digits.take(i + 1 - from);
        assert(next.drop_last() == seen);
        assert(next.last() == chars@[i as int]);
        assert(digits[i - from] == chars@[i as int]);
        match digit_of(chars[i]) {
            None => {
                assert(!all_digits(digits));
                return None;
            },
            Some(d) => {
                proof {
                    lemma_number_grows(digits, i + 1 - from);
                }
                if value > u64::MAX / 10 || value * 10 > u64::MAX - d {
                    assert(number_of(next) > u64::MAX);
                    return None;
                }
                value = value * 10 + d;
                assert(all_digits(next)) by {
                    assert forall|k: int| 0 <= k < next.len() implies is_digit(
                        #[trigger] next[k],
                    ) by {
                        if k < seen.len() {
                            assert(next[k] == seen[k]);
                        }
                    }
                }
            },
        }
        i += 1;
    }
    assert(digits.take(digits.len() as int) == digits);
    Some(value)
}

/// What a number is written as is read as that number.
pub proof fn a_written_number_is_read_back(n: nat)
    ensures
        unsigned(decimal(n)) == Some(n),
    decreases n,
{
    lemma_decimal_digits(n);
}

proof fn lemma_decimal_digits(n: nat)
    ensures
        decimal(n).len() > 0,
        all_digits(decimal(n)),
        number_of(decimal(n)) == n,
    decreases n,
{
    let d = digit(n % 10);
    assert(is_digit(d) && d as nat - '0' as nat == n % 10);
    if n < 10 {
        assert(decimal(n).drop_last() == Seq::<char>::empty());
        assert(number_of(Seq::<char>::empty()) == 0);
    } else {
        lemma_decimal_digits(n / 10);
        assert(decimal(n).drop_last() == decimal(n / 10));
        assert(decimal(n).last() == d);
        assert forall|i: int| 0 <= i < decimal(n).len() implies is_digit(
            #[trigger] decimal(n)[i],
        ) by {
            if i < decimal(n / 10).len() {
                assert(decimal(n)[i] == decimal(n / 10)[i]);
            }
        }
    }
}

// Texts in texts.

/// One text stands in another at a place.
pub open spec fn stands_at(s: Seq<char>, part: Seq<char>, i: int) -> bool {
    0 <= i && i + part.len() <= s.len() && s.subrange(i, i + part.len()) == part
}

/// One text stands in another.
pub open spec fn includes(s: Seq<char>, part: Seq<char>) -> bool {
    exists|i: int| #[trigger] stands_at(s, part, i)
}

fn part_at(s: &Vec<char>, part: &Vec<char>, from: usize) -> (r: bool)
    ensures
        r == stands_at(s@, part@, from as int),
{
    if from > s.len() || s.len() - from < part.len() {
        return false;
    }
    let mut k: usize = 0;
    while k < part.len()
        invariant
            k <= part@.len(),
            from + part.len() <= s.len(),
            forall|j: int| 0 <= j < k ==> s@[from + j] == part@[j],
        decreases part@.len() - k,
    {
        if s[from + k] != part[k] {
            assert(s@.subrange(from as int, from + part@.len())[k as int] != part@[k as int]);
            return false;
        }
        k += 1;
    }
    assert(s@.subrange(from as int, from + part@.len()) == part@);
    true
}

/// Tells whether one text stands in another.
pub fn contains_text(s: &str, part: &str) -> (r: bool)
    ensures
        r == includes(s@, part@),
{
    let a = chars_of(s);
    let b = chars_of(part);
    if b.len() > a.len() {
        assert forall|i: int| !(#[trigger] stands_at(s@, part@, i)) by {}
        return false;
    }
    let last: usize = a.len() - b.len();
    let mut i: usize = 0;
    while i <= last
        invariant
            a@ == s@,
            b@ == part@,
            last + b@.len() == a@.len(),
            i <= last + 1,
            forall|j: int| 0 <= j < i ==> !(#[trigger] stands_at(s@, part@, j)),
        decreases last + 1 - i,
    {
        if part_at(&a, &b, i) {
            assert(stands_at(s@, part@, i as int));
            return true;
        }
        if i == last {
            assert forall|j: int| !(#[trigger] stands_at(s@, part@, j)) by {}
            return false;
        }
        i += 1;
    }
    false
}

/// The text ends with another.
pub open spec fn ends_with(s: Seq<char>, end: Seq<char>) -> bool {
    end.len() <= s.len() && s.skip(s.len() - end.len()) == end
}

/// Tells whether a text ends with another.
pub fn has_suffix(s: &str, end: &str) -> (r: bool)
    ensures
        r == ends_with(s@, end@),
{
    let a = chars_of(s);
    let b = chars_of(end);
    if b.len() > a.len() {
        return false;
    }
    let at: usize = a.len() - b.len();
    assert(s@.subrange(at as int, s@.len() as int) == s@.skip(at as int));
    part_at(&a, &b, at)
}

/// A text that may be missing, copied.
pub fn copy_opt(value: &Option<String>) -> (r: Option<String>)
    ensures
        opt(r) == opt(*value),
{
    match value {
        Some(value) => Some(value.clone()),
        None => None,
    }
}

// Letters without regard to case.

/// A character with an upper case letter of ASCII made lower case.
pub open spec fn lower_case(c: char) -> char {
    if 'A' as int <= c as int <= 'Z' as int {
        (c as nat + 32) as char
    } else {
        c
    }
}

/// A text with the upper case letters of ASCII made lower case.
pub open spec fn lower_cased(s: Seq<char>) -> Seq<char> {
    Seq::new(s.len(), |i: int| lower_case(s[i]))
}

fn lower_char(c: char) -> (r: char)
    ensures
        r == lower_case(c),
{
    let code: u32 = c as u32;
    if 65 <= code && code <= 90 {
        (code as u8 + 32) as char
    } else {
        c
    }
}

/// Makes the upper case letters of ASCII lower case.
pub fn lower_text(s: &str) -> (r: String)
    ensures
        r@ == lower_cased(s@),
{
    let chars = chars_of(s);
    let mut out = String::new();
    let mut i: usize = 0;
    while i < chars.len()
        invariant
            chars@ == s@,
            i <= chars@.len(),
            out@ == lower_cased(s@).take(i as int),
        decreases chars@.len() - i,
    {
        out.push(lower_char(chars[i]));
        assert(out@ == lower_cased(s@).take(i + 1));
        i += 1;
    }
    assert(lower_cased(s@).take(s@.len() as int) == lower_cased(s@));
    out
}

/// A character with a lower case letter of ASCII made upper case.
pub open spec fn upper_case(c: char) -> char {
    if 'a' as int <= c as int <= 'z' as int {
        (c as nat - 32) as char
    } else {
        c
    }
}

/// A text with the lower case letters of ASCII made upper case.
pub open spec fn upper_cased(s: Seq<char>) -> Seq<char> {
    Seq::new(s.len(), |i: int| upper_case(s[i]))
}

fn upper_char(c: char) -> (r: char)
    ensures
        r == upper_case(c),
{
    let code: u32 = c as u32;
    if 97 <= code && code <= 122 {
        (code as u8 - 32) as char
    } else {
        c
    }
}

/// Makes the lower case letters of ASCII upper case.
pub fn upper_text(s: &str) -> (r: String)
    ensures
        r@ == upper_cased(s@),
{
    let chars = chars_of(s);
    let mut out = String::new();
    let mut i: usize = 0;
    while i < chars.len()
        invariant
            chars@ == s@,
            i <= chars@.len(),
            out@ == upper_cased(s@).take(i as int),
        decreases chars@.len() - i,
    {
        out.push(upper_char(chars[i]));
        assert(out@ == upper_cased(s@).take(i + 1));
        i += 1;
    }
    assert(upper_cased(s@).take(s@.len() as int) == upper_cased(s@));
    out
}

/// A text without what it begins with, where it begins so.
pub open spec fn after_prefix(s: Seq<char>, prefix: Seq<char>) -> Option<Seq<char>> {
    if prefix.is_prefix_of(s) {
        Some(s.skip(prefix.len() as int))
    } else {
        None
    }
}

/// Takes from a text what it begins with, where it begins so.
pub fn strip_prefix(s: &str, prefix: &str) -> (r: Option<String>)
    ensures
        opt(r) == after_prefix(s@, prefix@),
{
    if !has_prefix(s, prefix) {
        return None;
    }
    let chars = chars_of(s);
    let from: usize = chars_of(prefix).len();
    let rest = text_of(&chars, from, chars.len());
    assert(s@.subrange(from as int, s@.len() as int) == s@.skip(from as int));
    Some(rest)
}

/// The first characters of a text.
pub open spec fn start_of(s: Seq<char>, count: nat) -> Seq<char> {
    if s.len() <= count {
        s
    } else {
        s.take(count as int)
    }
}

/// Takes the first characters of a text.
pub fn take_start(s: &str, count: usize) -> (r: String)
    ensures
        r@ == start_of(s@, count as nat),
{
    let chars = chars_of(s);
    if chars.len() <= count {
        return s.to_owned();
    }
    let out = text_of(&chars, 0, count);
    assert(s@.subrange(0, count as int) == s@.take(count as int));
    out
}

} // verus!
