//! What holds of every module that is previewed.

use vstd::prelude::*;

use crate::benchmark_preview;
use crate::benchmark_preview::{CaseView, TokenView};
use crate::text;

verus! {

// Tokens.

/// A text with a backslash before each of its backslashes and each closing character.
pub open spec fn escaped(value: Seq<char>, closing: char) -> Seq<char>
    decreases value.len(),
{
    if value.len() == 0 {
        Seq::empty()
    } else {
        let rest = escaped(value.drop_first(), closing);
        if value[0] == '\\' || value[0] == closing {
            seq!['\\', value[0]] + rest
        } else {
            seq![value[0]] + rest
        }
    }
}

/// Some text stands in another from a place on.
pub open spec fn stands_at(s: Seq<char>, at: int, part: Seq<char>) -> bool {
    &&& 0 <= at
    &&& at + part.len() <= s.len()
    &&& s.subrange(at, at + part.len()) == part
}

proof fn lemma_parts_stand(s: Seq<char>, at: int, first: Seq<char>, second: Seq<char>)
    requires
        stands_at(s, at, first + second),
    ensures
        stands_at(s, at, first),
        stands_at(s, at + first.len(), second),
        forall|k: int| 0 <= k < first.len() ==> s[at + k] == #[trigger] first[k],
        second.len() > 0 ==> s[at + first.len()] == second[0],
{
    let whole = first + second;
    let part = s.subrange(at, at + whole.len());
    assert forall|k: int| 0 <= k < first.len() implies s[at + k] == #[trigger] first[k] by {
        assert(part[k] == s[at + k]);
        assert(whole[k] == first[k]);
    }
    assert forall|k: int| 0 <= k < second.len() implies s[at + first.len() + k]
        == #[trigger] second[k] by {
        assert(part[first.len() + k] == s[at + first.len() + k]);
        assert(whole[first.len() + k] == second[k]);
    }
    assert(s.subrange(at, at + first.len()) == first);
    assert(s.subrange(at + first.len(), at + first.len() + second.len()) == second);
}

/// What is written between quotes, with a backslash before what must not end it, is read back as it
/// was.
pub proof fn a_quoted_text_is_read_back(s: Seq<char>, at: int, value: Seq<char>, quote: char)
    requires
        quote != '\\',
        stands_at(s, at, escaped(value, quote).push(quote)),
    ensures
        benchmark_preview::quoted_rest(s, at, quote) == (
            value,
            at + escaped(value, quote).len() + 1,
        ),
    decreases value.len(),
{
    let written = escaped(value, quote).push(quote);
    let part = s.subrange(at, at + written.len());
    if value.len() == 0 {
        assert(part[0] == s[at]);
        assert(value == Seq::<char>::empty());
    } else {
        let rest = value.drop_first();
        let tail = escaped(rest, quote).push(quote);
        if value[0] == '\\' || value[0] == quote {
            assert(written == seq!['\\', value[0]] + tail);
            lemma_parts_stand(s, at, seq!['\\', value[0]], tail);
            assert(s[at + 0] == seq!['\\', value[0]][0]);
            assert(s[at + 1] == seq!['\\', value[0]][1]);
            a_quoted_text_is_read_back(s, at + 2, rest, quote);
        } else {
            assert(written == seq![value[0]] + tail);
            lemma_parts_stand(s, at, seq![value[0]], tail);
            assert(s[at + 0] == seq![value[0]][0]);
            a_quoted_text_is_read_back(s, at + 1, rest, quote);
        }
        assert(seq![value[0]] + rest == value);
    }
}

/// A template ends at its backquote, and no earlier.
pub proof fn a_template_ends_at_its_backquote(s: Seq<char>, at: int, value: Seq<char>)
    requires
        stands_at(s, at, escaped(value, '`').push('`')),
    ensures
        benchmark_preview::template_end(s, at) == at + escaped(value, '`').len() + 1,
    decreases value.len(),
{
    let written = escaped(value, '`').push('`');
    let part = s.subrange(at, at + written.len());
    if value.len() == 0 {
        assert(part[0] == s[at]);
    } else {
        let rest = value.drop_first();
        let tail = escaped(rest, '`').push('`');
        if value[0] == '\\' || value[0] == '`' {
            assert(written == seq!['\\', value[0]] + tail);
            lemma_parts_stand(s, at, seq!['\\', value[0]], tail);
            assert(s[at + 0] == seq!['\\', value[0]][0]);
            a_template_ends_at_its_backquote(s, at + 2, rest);
        } else {
            assert(written == seq![value[0]] + tail);
            lemma_parts_stand(s, at, seq![value[0]], tail);
            assert(s[at + 0] == seq![value[0]][0]);
            a_template_ends_at_its_backquote(s, at + 1, rest);
        }
    }
}

proof fn lemma_line_end(s: Seq<char>, i: int, end: int)
    requires
        0 <= i <= end <= s.len(),
        forall|j: int| i <= j < end ==> s[j] != '\n',
        end < s.len() ==> s[end] == '\n',
    ensures
        benchmark_preview::line_end(s, i) == end,
    decreases end - i,
{
    if i < end {
        lemma_line_end(s, i + 1, end);
    }
}

/// A comment ends at a place.
pub open spec fn closes_comment(s: Seq<char>, i: int) -> bool {
    0 <= i && i + 1 < s.len() && s[i] == '*' && s[i + 1] == '/'
}

proof fn lemma_comment_end(s: Seq<char>, i: int, end: int)
    requires
        0 <= i <= end,
        closes_comment(s, end),
        forall|j: int| i <= j < end ==> !#[trigger] closes_comment(s, j),
    ensures
        benchmark_preview::comment_end(s, i) == end + 2,
    decreases end - i,
{
    if i < end {
        assert(!closes_comment(s, i));
        lemma_comment_end(s, i + 1, end);
    }
}

proof fn lemma_open_comment(s: Seq<char>, i: int)
    requires
        0 <= i <= s.len(),
        forall|j: int| i <= j ==> !#[trigger] closes_comment(s, j),
    ensures
        benchmark_preview::comment_end(s, i) == s.len(),
    decreases s.len() - i,
{
    if i + 1 < s.len() {
        assert(!closes_comment(s, i));
        lemma_open_comment(s, i + 1);
    }
}

/// White space is no token.
pub proof fn white_space_is_no_token(s: Seq<char>, i: int)
    requires
        0 <= i < s.len(),
        text::is_white(s[i]),
    ensures
        benchmark_preview::tokens_from(s, i) == benchmark_preview::tokens_from(s, i + 1),
{
}

/// What follows two slashes, to the end of the line, is no token.
pub proof fn a_line_comment_is_no_token(s: Seq<char>, i: int, end: int)
    requires
        0 <= i,
        i + 2 <= end <= s.len(),
        s[i] == '/',
        s[i + 1] == '/',
        forall|j: int| i + 2 <= j < end ==> s[j] != '\n',
        end < s.len() ==> s[end] == '\n',
    ensures
        benchmark_preview::tokens_from(s, i) == benchmark_preview::tokens_from(s, end),
{
    lemma_line_end(s, i + 2, end);
    assert(!text::is_white('/'));
}

/// A comment between a slash with an asterisk and the next asterisk with a slash is no token.
pub proof fn a_comment_is_no_token(s: Seq<char>, i: int, end: int)
    requires
        0 <= i,
        i + 2 <= end,
        i + 1 < s.len(),
        s[i] == '/',
        s[i + 1] == '*',
        closes_comment(s, end),
        forall|j: int| i + 2 <= j < end ==> !#[trigger] closes_comment(s, j),
    ensures
        benchmark_preview::tokens_from(s, i) == benchmark_preview::tokens_from(s, end + 2),
{
    lemma_comment_end(s, i + 2, end);
    assert(!text::is_white('/'));
}

/// A comment that is not closed takes the rest.
pub proof fn an_open_comment_takes_the_rest(s: Seq<char>, i: int)
    requires
        0 <= i,
        i + 1 < s.len(),
        s[i] == '/',
        s[i + 1] == '*',
        forall|j: int| i + 2 <= j ==> !#[trigger] closes_comment(s, j),
    ensures
        benchmark_preview::tokens_from(s, i).len() == 0,
{
    lemma_open_comment(s, i + 2);
    assert(!text::is_white('/'));
    assert(benchmark_preview::tokens_from(s, s.len() as int).len() == 0);
}

/// What stands between quotes is one token: the text that was written.
pub proof fn a_quoted_text_is_one_token(s: Seq<char>, i: int, value: Seq<char>, quote: char)
    requires
        quote == '\'' || quote == '"',
        stands_at(s, i, seq![quote] + escaped(value, quote).push(quote)),
    ensures
        benchmark_preview::tokens_from(s, i) == seq![TokenView::Text(value)]
            + benchmark_preview::tokens_from(s, i + escaped(value, quote).len() + 2),
{
    lemma_parts_stand(s, i, seq![quote], escaped(value, quote).push(quote));
    assert(s[i + 0] == seq![quote][0]);
    a_quoted_text_is_read_back(s, i + 1, value, quote);
    assert(!text::is_white(quote));
}

/// What stands between backquotes is no token.
pub proof fn a_template_is_no_token(s: Seq<char>, i: int, value: Seq<char>)
    requires
        stands_at(s, i, seq!['`'] + escaped(value, '`').push('`')),
    ensures
        benchmark_preview::tokens_from(s, i) == benchmark_preview::tokens_from(
            s,
            i + escaped(value, '`').len() + 2,
        ),
{
    lemma_parts_stand(s, i, seq!['`'], escaped(value, '`').push('`'));
    assert(s[i + 0] == seq!['`'][0]);
    a_template_ends_at_its_backquote(s, i + 1, value);
    assert(!text::is_white('`'));
}

/// A character that a name can begin with: a letter of ASCII, an underscore, or a dollar sign.
pub open spec fn begins_name(c: char) -> bool {
    ||| 'a' <= c <= 'z'
    ||| 'A' <= c <= 'Z'
    ||| c == '_'
    ||| c == '$'
}

/// A character that a name can go on with: one that can begin it, or a digit.
pub open spec fn continues_name(c: char) -> bool {
    begins_name(c) || '0' <= c <= '9'
}

proof fn lemma_name_end(s: Seq<char>, i: int, end: int)
    requires
        0 <= i <= end <= s.len(),
        forall|j: int| i <= j < end ==> continues_name(#[trigger] s[j]),
        end < s.len() ==> !continues_name(s[end]),
    ensures
        benchmark_preview::identifier_end(s, i) == end,
    decreases end - i,
{
    if i < end {
        assert(continues_name(s[i]));
        lemma_name_end(s, i + 1, end);
    }
}

/// A name is one token, as long as it goes on.
pub proof fn a_name_is_one_token(s: Seq<char>, i: int, end: int)
    requires
        0 <= i < end <= s.len(),
        begins_name(s[i]),
        forall|j: int| i <= j < end ==> continues_name(#[trigger] s[j]),
        end < s.len() ==> !continues_name(s[end]),
    ensures
        benchmark_preview::tokens_from(s, i) == seq![
            TokenView::Identifier(s.subrange(i, end)),
        ] + benchmark_preview::tokens_from(s, end),
{
    lemma_name_end(s, i + 1, end);
    assert(!text::is_white(s[i]));
}

/// Every other character is a token by itself.
pub proof fn another_character_is_a_sign(s: Seq<char>, i: int)
    requires
        0 <= i < s.len(),
        !text::is_white(s[i]),
        !begins_name(s[i]),
        s[i] != '\'' && s[i] != '"' && s[i] != '`',
        s[i] == '/' && i + 1 < s.len() ==> s[i + 1] != '/' && s[i + 1] != '*',
    ensures
        benchmark_preview::tokens_from(s, i) == seq![TokenView::Punct(s[i])]
            + benchmark_preview::tokens_from(s, i + 1),
{
}

// Delimiters.

/// How many more delimiters open than close from a place up to another.
pub open spec fn balance(
    tokens: Seq<TokenView>,
    from: int,
    to: int,
    left: char,
    right: char,
) -> int
    decreases to - from,
{
    if to <= from {
        0
    } else {
        balance(tokens, from, to - 1, left, right) + (if tokens[to - 1] == TokenView::Punct(left) {
            1int
        } else if tokens[to - 1] == TokenView::Punct(right) {
            -1
        } else {
            0
        })
    }
}

proof fn lemma_balance_from(
    tokens: Seq<TokenView>,
    from: int,
    to: int,
    left: char,
    right: char,
)
    requires
        from < to,
    ensures
        balance(tokens, from, to, left, right) == balance(tokens, from + 1, to, left, right) + (
        if tokens[from] == TokenView::Punct(left) {
            1int
        } else if tokens[from] == TokenView::Punct(right) {
            -1
        } else {
            0
        }),
    decreases to - from,
{
    if to == from + 1 {
        assert(balance(tokens, from, from, left, right) == 0);
        assert(balance(tokens, from + 1, to, left, right) == 0);
    } else {
        lemma_balance_from(tokens, from, to - 1, left, right);
    }
}

proof fn lemma_closing(tokens: Seq<TokenView>, i: int, depth: int, left: char, right: char)
    requires
        left != right,
        0 <= i,
        depth >= 1,
    ensures
        match benchmark_preview::closing_from(tokens, i, depth, left, right) {
            Some(close) => i <= close < tokens.len() && depth + balance(
                tokens,
                i,
                close + 1,
                left,
                right,
            ) == 0 && forall|j: int|
                i <= j <= close ==> depth + #[trigger] balance(tokens, i, j, left, right) > 0,
            None => forall|j: int|
                i <= j <= tokens.len() ==> depth + #[trigger] balance(tokens, i, j, left, right)
                    > 0,
        },
    decreases tokens.len() - i,
{
    assert(balance(tokens, i, i, left, right) == 0);
    if i < tokens.len() {
        let after = depth + if tokens[i] == TokenView::Punct(left) {
            1int
        } else if tokens[i] == TokenView::Punct(right) {
            -1
        } else {
            0
        };
        lemma_balance_from(tokens, i, i + 1, left, right);
        assert(balance(tokens, i + 1, i + 1, left, right) == 0);
        if after > 0 {
            lemma_closing(tokens, i + 1, after, left, right);
            match benchmark_preview::closing_from(tokens, i, depth, left, right) {
                Some(close) => {
                    lemma_balance_from(tokens, i, close + 1, left, right);
                    assert forall|j: int| i <= j <= close implies depth + #[trigger] balance(
                        tokens,
                        i,
                        j,
                        left,
                        right,
                    ) > 0 by {
                        if j > i {
                            lemma_balance_from(tokens, i, j, left, right);
                            assert(after + balance(tokens, i + 1, j, left, right) > 0);
                        }
                    }
                },
                None => {
                    assert forall|j: int| i <= j <= tokens.len() implies depth
                        + #[trigger] balance(tokens, i, j, left, right) > 0 by {
                        if j > i {
                            lemma_balance_from(tokens, i, j, left, right);
                            assert(after + balance(tokens, i + 1, j, left, right) > 0);
                        }
                    }
                },
            }
        }
    }
}

/// A delimiter is closed at the first place where as many have closed as opened since; it is left
/// open only if there is no such place.
pub proof fn a_delimiter_closes_where_its_kind_is_balanced(
    tokens: Seq<TokenView>,
    open: int,
    left: char,
    right: char,
)
    requires
        left != right,
        0 <= open < tokens.len(),
        tokens[open] == TokenView::Punct(left),
    ensures
        match benchmark_preview::closing_from(tokens, open, 0, left, right) {
            Some(close) => open < close < tokens.len() && balance(
                tokens,
                open,
                close + 1,
                left,
                right,
            ) == 0 && forall|j: int|
                open < j <= close ==> #[trigger] balance(tokens, open, j, left, right) > 0,
            None => forall|j: int|
                open < j <= tokens.len() ==> #[trigger] balance(tokens, open, j, left, right) > 0,
        },
{
    lemma_closing(tokens, open + 1, 1, left, right);
    match benchmark_preview::closing_from(tokens, open, 0, left, right) {
        Some(close) => {
            lemma_balance_from(tokens, open, close + 1, left, right);
            assert forall|j: int| open < j <= close implies #[trigger] balance(
                tokens,
                open,
                j,
                left,
                right,
            ) > 0 by {
                lemma_balance_from(tokens, open, j, left, right);
                assert(1 + balance(tokens, open + 1, j, left, right) > 0);
            }
        },
        None => {
            assert forall|j: int| open < j <= tokens.len() implies #[trigger] balance(
                tokens,
                open,
                j,
                left,
                right,
            ) > 0 by {
                lemma_balance_from(tokens, open, j, left, right);
                assert(1 + balance(tokens, open + 1, j, left, right) > 0);
            }
        },
    }
}

// Members.

/// No delimiter that opened from a place on is open behind another.
pub open spec fn level(tokens: Seq<TokenView>, start: int, i: int) -> bool {
    &&& balance(tokens, start, i + 1, '{', '}') == 0
    &&& balance(tokens, start, i + 1, '[', ']') == 0
    &&& balance(tokens, start, i + 1, '(', ')') == 0
}

/// A member with a name, which a sign follows, stands at a place.
pub open spec fn is_member(
    tokens: Seq<TokenView>,
    start: int,
    i: int,
    name: Seq<char>,
    sign: char,
) -> bool {
    &&& level(tokens, start, i)
    &&& (tokens[i] == TokenView::Identifier(name) || tokens[i] == TokenView::Text(name))
    &&& i + 1 < tokens.len()
    &&& tokens[i + 1] == TokenView::Punct(sign)
}

proof fn lemma_member(
    tokens: Seq<TokenView>,
    start: int,
    i: int,
    end: int,
    room: int,
    depths: (int, int, int),
    name: Seq<char>,
    sign: char,
)
    requires
        0 <= start <= i,
        room >= 0,
        end <= tokens.len(),
        depths == (
            balance(tokens, start, i, '{', '}'),
            balance(tokens, start, i, '[', ']'),
            balance(tokens, start, i, '(', ')'),
        ),
    ensures
        match benchmark_preview::member_from(tokens, i, end, room, depths, name, sign) {
            Some(p) => i <= p && p + room < end && is_member(tokens, start, p, name, sign)
                && forall|j: int|
                i <= j < p ==> !#[trigger] is_member(tokens, start, j, name, sign),
            None => forall|j: int|
                i <= j && j + room < end ==> !#[trigger] is_member(tokens, start, j, name, sign),
        },
    decreases end - i,
{
    if i + room < end {
        let now = benchmark_preview::deeper(depths, tokens[i]);
        assert(now == (
            balance(tokens, start, i + 1, '{', '}'),
            balance(tokens, start, i + 1, '[', ']'),
            balance(tokens, start, i + 1, '(', ')'),
        ));
        if !is_member(tokens, start, i, name, sign) {
            lemma_member(tokens, start, i + 1, end, room, now, name, sign);
        }
    }
}

/// A property is the first member of its name before a colon, outside every delimiter that opened
/// since; its value stands behind the colon.
pub proof fn a_property_is_found_by_its_name(
    tokens: Seq<TokenView>,
    start: int,
    end: int,
    name: Seq<char>,
)
    requires
        0 <= start,
        end <= tokens.len(),
    ensures
        match benchmark_preview::property_value(tokens, start, end, name) {
            Some(v) => start + 2 <= v < end && is_member(tokens, start, v - 2, name, ':')
                && forall|j: int|
                start <= j < v - 2 ==> !#[trigger] is_member(tokens, start, j, name, ':'),
            None => forall|j: int|
                start <= j && j + 2 < end ==> !#[trigger] is_member(tokens, start, j, name, ':'),
        },
{
    lemma_member(tokens, start, start, end, 2, (0int, 0int, 0int), name, ':');
}

/// A property or a method with a name stands at a place: the name before a colon, or before a round
/// bracket.
pub open spec fn is_named_member(
    tokens: Seq<TokenView>,
    start: int,
    end: int,
    i: int,
    name: Seq<char>,
) -> bool {
    ||| i + 2 < end && is_member(tokens, start, i, name, ':')
    ||| i + 1 < end && is_member(tokens, start, i, name, '(')
}

/// A member is present if it is a property or a method.
pub proof fn a_member_is_a_property_or_a_method(
    tokens: Seq<TokenView>,
    start: int,
    end: int,
    name: Seq<char>,
)
    requires
        0 <= start,
        end <= tokens.len(),
    ensures
        benchmark_preview::member_present(tokens, start, end, name) <==> exists|i: int|
            start <= i && #[trigger] is_named_member(tokens, start, end, i, name),
{
    let none = (0int, 0int, 0int);
    lemma_member(tokens, start, start, end, 2, none, name, ':');
    lemma_member(tokens, start, start, end, 1, none, name, '(');
    if benchmark_preview::member_present(tokens, start, end, name) {
        let i = match benchmark_preview::property_value(tokens, start, end, name) {
            Some(v) => v - 2,
            None => benchmark_preview::member_from(tokens, start, end, 1, none, name, '(')->0,
        };
        assert(is_named_member(tokens, start, end, i, name));
    } else {
        assert forall|i: int| start <= i implies !#[trigger] is_named_member(
            tokens,
            start,
            end,
            i,
            name,
        ) by {
            assert(i + 2 < end ==> !is_member(tokens, start, i, name, ':'));
            assert(i + 1 < end ==> !is_member(tokens, start, i, name, '('));
        }
    }
}

/// A text property is what is quoted behind the colon; there is none where something else stands.
pub proof fn a_text_property_is_what_is_quoted(
    tokens: Seq<TokenView>,
    start: int,
    end: int,
    name: Seq<char>,
    value: Seq<char>,
)
    ensures
        benchmark_preview::text_property(tokens, start, end, name) == Some(value) <==> (
        benchmark_preview::property_value(tokens, start, end, name) is Some && tokens[
            benchmark_preview::property_value(tokens, start, end, name)->0
        ] == TokenView::Text(value)),
{
}

/// The elements of an array stand between its square brackets.
pub proof fn elements_stand_between_brackets(
    tokens: Seq<TokenView>,
    start: int,
    end: int,
    name: Seq<char>,
)
    requires
        0 <= start,
        end <= tokens.len(),
        benchmark_preview::array_elements(tokens, start, end, name) is Some,
    ensures
        ({
            let (from, to) = benchmark_preview::array_elements(tokens, start, end, name)->0;
            &&& start + 3 <= from <= to <= end
            &&& is_member(tokens, start, from - 3, name, ':')
            &&& tokens[from - 1] == TokenView::Punct('[')
            &&& to < tokens.len() && tokens[to] == TokenView::Punct(']')
            &&& balance(tokens, from - 1, to + 1, '[', ']') == 0
        }),
{
    a_property_is_found_by_its_name(tokens, start, end, name);
    let (from, to) = benchmark_preview::array_elements(tokens, start, end, name)->0;
    a_delimiter_closes_where_its_kind_is_balanced(tokens, from - 1, '[', ']');
    benchmark_preview::a_closing_delimiter_follows_its_opening(tokens, from - 1, 0, '[', ']');
}

// Cases.

/// An object from one place to another declares a case.
pub open spec fn declares(
    tokens: Seq<TokenView>,
    open: int,
    close: int,
    case: CaseView,
) -> bool {
    &&& 0 <= open < close < tokens.len()
    &&& tokens[open] == TokenView::Punct('{')
    &&& tokens[close] == TokenView::Punct('}')
    &&& balance(tokens, open, close + 1, '{', '}') == 0
    &&& benchmark_preview::text_property(tokens, open + 1, close, "id"@) == Some(case.id)
    &&& case.setup == benchmark_preview::member_present(tokens, open + 1, close, "setup"@)
    &&& case.exact == (match benchmark_preview::property_value(
        tokens,
        open + 1,
        close,
        "expect"@,
    ) {
        Some(v) => v + 1 < tokens.len() && tokens[v] == TokenView::Identifier("exact"@)
            && tokens[v + 1] == TokenView::Punct('('),
        None => false,
    })
}

/// Every case that is listed is declared by an object among the elements: one with a quoted identity.
pub proof fn every_listed_case_is_declared(
    tokens: Seq<TokenView>,
    from: int,
    to: int,
    k: int,
) -> (object: (int, int))
    requires
        0 <= from,
        to <= tokens.len(),
        0 <= k < benchmark_preview::cases_from(tokens, from, to).len(),
    ensures
        from <= object.0 < object.1 <= to,
        declares(
            tokens,
            object.0,
            object.1,
            benchmark_preview::cases_from(tokens, from, to)[k],
        ),
    decreases to - from,
{
    if tokens[from] != TokenView::Punct('{') {
        every_listed_case_is_declared(tokens, from + 1, to, k)
    } else {
        a_delimiter_closes_where_its_kind_is_balanced(tokens, from, '{', '}');
        let close = benchmark_preview::closing_from(tokens, from, 0, '{', '}')->0;
        benchmark_preview::a_closing_delimiter_follows_its_opening(tokens, from, 0, '{', '}');
        a_property_is_found_by_its_name(tokens, from + 1, close, "expect"@);
        match benchmark_preview::case_in(tokens, from, close) {
            Some(case) => {
                if k == 0 {
                    (from, close)
                } else {
                    every_listed_case_is_declared(tokens, close + 1, to, k - 1)
                }
            },
            None => every_listed_case_is_declared(tokens, close + 1, to, k),
        }
    }
}

/// An object with a quoted identity is listed where it stands among the elements, before the cases
/// that follow it; other tokens are passed over.
pub proof fn every_declared_case_is_listed(
    tokens: Seq<TokenView>,
    from: int,
    to: int,
    close: int,
    case: CaseView,
)
    requires
        0 <= from < close <= to <= tokens.len(),
        declares(tokens, from, close, case),
        forall|j: int| from < j <= close ==> #[trigger] balance(tokens, from, j, '{', '}') > 0,
    ensures
        benchmark_preview::cases_from(tokens, from, to) == seq![case]
            + benchmark_preview::cases_from(tokens, close + 1, to),
{
    a_delimiter_closes_where_its_kind_is_balanced(tokens, from, '{', '}');
    let found = benchmark_preview::closing_from(tokens, from, 0, '{', '}');
    assert(balance(tokens, from, close + 1, '{', '}') == 0);
    assert(found == Some(close));
    a_property_is_found_by_its_name(tokens, from + 1, close, "expect"@);
    assert(benchmark_preview::case_in(tokens, from, close) == Some(case));
    if close >= to {
        assert(benchmark_preview::cases_from(tokens, close + 1, to) == Seq::<CaseView>::empty());
    }
}

// Fixtures.

/// The function that names fixtures is called with a text at a place.
pub open spec fn names_fixture(tokens: Seq<TokenView>, i: int, source: Seq<char>) -> bool {
    &&& 0 <= i
    &&& i + 2 < tokens.len()
    &&& tokens[i] == TokenView::Identifier("fixture"@)
    &&& tokens[i + 1] == TokenView::Punct('(')
    &&& tokens[i + 2] == TokenView::Text(source)
}

/// Some call names a fixture.
pub open spec fn is_named(tokens: Seq<TokenView>, source: Seq<char>) -> bool {
    exists|i: int| #[trigger] names_fixture(tokens, i, source)
}

/// The fixtures that are listed are exactly those that a call names.
pub proof fn every_named_fixture_is_listed(tokens: Seq<TokenView>, n: int, source: Seq<char>)
    requires
        n + 2 <= tokens.len(),
    ensures
        benchmark_preview::fixtures_before(tokens, n).contains(source) <==> exists|i: int|
            i < n && #[trigger] names_fixture(tokens, i, source),
    decreases n,
{
    if n > 0 {
        every_named_fixture_is_listed(tokens, n - 1, source);
        let earlier = benchmark_preview::fixtures_before(tokens, n - 1);
        let all = benchmark_preview::fixtures_before(tokens, n);
        let here = names_fixture(tokens, n - 1, source);
        if all.contains(source) {
            if earlier.contains(source) {
                let i = choose|i: int| i < n - 1 && #[trigger] names_fixture(tokens, i, source);
                assert(i < n && names_fixture(tokens, i, source));
            } else {
                let k = choose|k: int| 0 <= k < all.len() && all[k] == source;
                assert(k < earlier.len() ==> earlier[k] == source);
                assert(here);
            }
        }
        if exists|i: int| i < n && #[trigger] names_fixture(tokens, i, source) {
            let i = choose|i: int| i < n && #[trigger] names_fixture(tokens, i, source);
            if i < n - 1 {
                assert(earlier.contains(source));
                let k = choose|k: int| 0 <= k < earlier.len() && earlier[k] == source;
                assert(all[k] == source);
            } else if !earlier.contains(source) {
                assert(all == earlier.push(source));
                assert(all[earlier.len() as int] == source);
            }
        }
    } else {
        assert(benchmark_preview::fixtures_before(tokens, n) == Seq::<Seq<char>>::empty());
    }
}

// The definition.

/// A benchmark is defined at a place: by a call with an object that is written out.
pub open spec fn defines(tokens: Seq<TokenView>, i: int) -> bool {
    &&& 0 <= i
    &&& i + 2 < tokens.len()
    &&& tokens[i] == TokenView::Identifier("defineBrowserBenchmark"@)
    &&& tokens[i + 1] == TokenView::Punct('(')
    &&& tokens[i + 2] == TokenView::Punct('{')
}

/// The definition that counts is the first.
pub proof fn the_first_definition_counts(tokens: Seq<TokenView>, i: int)
    requires
        0 <= i,
    ensures
        match benchmark_preview::definition_from(tokens, i) {
            Some(p) => i <= p && defines(tokens, p) && forall|j: int|
                i <= j < p ==> !#[trigger] defines(tokens, j),
            None => forall|j: int| i <= j ==> !#[trigger] defines(tokens, j),
        },
    decreases tokens.len() - i,
{
    if i < tokens.len() && !defines(tokens, i) {
        the_first_definition_counts(tokens, i + 1);
    }
}

/// What a module declares is read from its first definition: the quoted identity and the cases of
/// that object. Without such a definition nothing is told but the fixtures.
pub proof fn a_module_is_told_by_its_definition(
    parsed: benchmark_preview::ParsedBenchmark,
    source: Seq<char>,
)
    requires
        benchmark_preview::is_parsed(parsed, benchmark_preview::tokens_of(source)),
    ensures
        parsed.literal_definition <==> parsed.id is Some,
        (forall|j: int| !#[trigger] defines(benchmark_preview::tokens_of(source), j))
            ==> parsed.id is None && parsed.cases@.len() == 0,
        forall|i: int|
            0 <= i < parsed.fixtures@.len() ==> is_named(
                benchmark_preview::tokens_of(source),
                (#[trigger] parsed.fixtures@[i])@,
            ),
{
    let tokens = benchmark_preview::tokens_of(source);
    the_first_definition_counts(tokens, 0);
    assert forall|i: int| 0 <= i < parsed.fixtures@.len() implies is_named(
        tokens,
        (#[trigger] parsed.fixtures@[i])@,
    ) by {
        let named = text::views(parsed.fixtures@);
        assert(named[i] == parsed.fixtures@[i]@);
        assert(named.contains(parsed.fixtures@[i]@));
        every_named_fixture_is_listed(tokens, tokens.len() as int - 2, parsed.fixtures@[i]@);
    }
}

/// The identity that is told is the one that the first definition quotes.
pub proof fn an_identity_is_quoted_in_the_definition(
    parsed: benchmark_preview::ParsedBenchmark,
    source: Seq<char>,
) -> (places: (int, int))
    requires
        benchmark_preview::is_parsed(parsed, benchmark_preview::tokens_of(source)),
        parsed.id is Some,
    ensures
        ({
            let tokens = benchmark_preview::tokens_of(source);
            let (call, value) = places;
            &&& defines(tokens, call)
            &&& forall|j: int| j < call ==> !#[trigger] defines(tokens, j)
            &&& call + 5 <= value < tokens.len()
            &&& is_member(tokens, call + 3, value - 2, "id"@, ':')
            &&& tokens[value] == TokenView::Text(parsed.id->0@)
        }),
{
    let tokens = benchmark_preview::tokens_of(source);
    the_first_definition_counts(tokens, 0);
    let call = benchmark_preview::definition_from(tokens, 0)->0;
    let close = benchmark_preview::closing_from(tokens, call + 2, 0, '{', '}')->0;
    benchmark_preview::a_closing_delimiter_follows_its_opening(tokens, call + 2, 0, '{', '}');
    a_property_is_found_by_its_name(tokens, call + 3, close, "id"@);
    (call, benchmark_preview::property_value(tokens, call + 3, close, "id"@)->0)
}

/// Every case that is told is declared by an object in the first definition's array of cases.
pub proof fn a_told_case_is_declared_in_the_definition(
    parsed: benchmark_preview::ParsedBenchmark,
    source: Seq<char>,
    k: int,
) -> (places: (int, int, int, int))
    requires
        benchmark_preview::is_parsed(parsed, benchmark_preview::tokens_of(source)),
        0 <= k < parsed.cases@.len(),
    ensures
        ({
            let tokens = benchmark_preview::tokens_of(source);
            let case = parsed.cases@[k];
            let (call, from, open, close) = places;
            &&& defines(tokens, call)
            &&& forall|j: int| j < call ==> !#[trigger] defines(tokens, j)
            &&& call + 6 <= from <= open < close < tokens.len()
            &&& is_member(tokens, call + 3, from - 3, "cases"@, ':')
            &&& tokens[from - 1] == TokenView::Punct('[')
            &&& declares(
                tokens,
                open,
                close,
                (CaseView { id: case.id@, setup: case.setup, exact: case.exact }),
            )
        }),
{
    let tokens = benchmark_preview::tokens_of(source);
    let case = parsed.cases@[k];
    the_first_definition_counts(tokens, 0);
    let call = benchmark_preview::definition_from(tokens, 0)->0;
    let close = benchmark_preview::closing_from(tokens, call + 2, 0, '{', '}')->0;
    benchmark_preview::a_closing_delimiter_follows_its_opening(tokens, call + 2, 0, '{', '}');
    let views = benchmark_preview::case_views(parsed.cases@);
    assert(views.len() == parsed.cases@.len());
    assert(views[k] == CaseView { id: case.id@, setup: case.setup, exact: case.exact });
    elements_stand_between_brackets(tokens, call + 3, close, "cases"@);
    let (from, to) = benchmark_preview::array_elements(tokens, call + 3, close, "cases"@)->0;
    let object = every_listed_case_is_declared(tokens, from, to, k);
    (call, from, object.0, object.1)
}

} // verus!
