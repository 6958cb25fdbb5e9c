//! What can be told of a benchmark module without running it.

use vstd::prelude::*;
use vstd::string::*;

use crate::text;

verus! {

// Tokens.

/// A token of TypeScript, as far as a preview tells them apart.
#[derive(Clone, Debug)]
pub enum Token {
    Identifier(String),
    Text(String),
    Punct(char),
}

/// A token, viewed.
pub enum TokenView {
    Identifier(Seq<char>),
    Text(Seq<char>),
    Punct(char),
}

impl View for Token {
    type V = TokenView;

    open spec fn view(&self) -> TokenView {
        match self {
            Token::Identifier(name) => TokenView::Identifier(name@),
            Token::Text(value) => TokenView::Text(value@),
            Token::Punct(c) => TokenView::Punct(*c),
        }
    }
}

/// Tokens, viewed.
pub open spec fn token_views(tokens: Seq<Token>) -> Seq<TokenView> {
    Seq::new(tokens.len(), |i: int| tokens[i]@)
}

/// Where the line of a place ends: at a line break or at the end.
pub open spec fn line_end(s: Seq<char>, i: int) -> int
    decreases s.len() - i,
{
    if i >= s.len() || s[i] == '\n' {
        i
    } else {
        line_end(s, i + 1)
    }
}

/// Where a comment that goes up to `*/` ends, from a place in it: after these, or at the end.
pub open spec fn comment_end(s: Seq<char>, i: int) -> int
    decreases s.len() - i,
{
    if i + 1 >= s.len() {
        s.len() as int
    } else if s[i] == '*' && s[i + 1] == '/' {
        i + 2
    } else {
        comment_end(s, i + 1)
    }
}

/// The rest of a quoted text from a place in it, with the place after its end. A backslash stands
/// for the character after it.
pub open spec fn quoted_rest(s: Seq<char>, i: int, quote: char) -> (Seq<char>, int)
    decreases s.len() - i,
{
    if i >= s.len() {
        (Seq::empty(), i)
    } else if s[i] == quote {
        (Seq::empty(), i + 1)
    } else if s[i] == '\\' && i + 1 < s.len() {
        let (rest, end) = quoted_rest(s, i + 2, quote);
        (seq![s[i + 1]] + rest, end)
    } else {
        let (rest, end) = quoted_rest(s, i + 1, quote);
        (seq![s[i]] + rest, end)
    }
}

/// Where a template ends, from a place in it: after a backtick that no backslash stands before, or
/// at the end.
pub open spec fn template_end(s: Seq<char>, i: int) -> int
    decreases s.len() - i,
{
    if i >= s.len() {
        s.len() as int
    } else if s[i] == '\\' {
        if i + 2 <= s.len() {
            template_end(s, i + 2)
        } else {
            s.len() as int
        }
    } else if s[i] == '`' {
        i + 1
    } else {
        template_end(s, i + 1)
    }
}

/// The character can begin an identifier.
pub open spec fn begins_identifier(c: char) -> bool {
    ||| 'a' as int <= c as int <= 'z' as int
    ||| 'A' as int <= c as int <= 'Z' as int
    ||| c == '_'
    ||| c == '$'
}

/// The character can stand in an identifier.
pub open spec fn continues_identifier(c: char) -> bool {
    begins_identifier(c) || text::is_digit(c)
}

/// Where an identifier ends, from a place in it.
pub open spec fn identifier_end(s: Seq<char>, i: int) -> int
    decreases s.len() - i,
{
    if i >= s.len() || !continues_identifier(s[i]) {
        i
    } else {
        identifier_end(s, i + 1)
    }
}

/// What stands at a place: a token, if it is one, and where the next thing stands.
pub open spec fn lexeme(s: Seq<char>, i: int) -> (Option<TokenView>, int) {
    let c = s[i];
    if text::is_white(c) {
        (None, i + 1)
    } else if c == '/' && i + 1 < s.len() && s[i + 1] == '/' {
        (None, line_end(s, i + 2))
    } else if c == '/' && i + 1 < s.len() && s[i + 1] == '*' {
        (None, comment_end(s, i + 2))
    } else if c == '\'' || c == '"' {
        let (value, end) = quoted_rest(s, i + 1, c);
        (Some(TokenView::Text(value)), end)
    } else if c == '`' {
        (None, template_end(s, i + 1))
    } else if begins_identifier(c) {
        let end = identifier_end(s, i + 1);
        (Some(TokenView::Identifier(s.subrange(i, end))), end)
    } else {
        (Some(TokenView::Punct(c)), i + 1)
    }
}

/// The tokens of a source from a place on.
pub open spec fn tokens_from(s: Seq<char>, i: int) -> Seq<TokenView>
    decreases s.len() - i,
{
    if i < 0 || i >= s.len() {
        Seq::empty()
    } else {
        let (token, next) = lexeme(s, i);
        let rest = if i < next <= s.len() {
            tokens_from(s, next)
        } else {
            Seq::empty()
        };
        match token {
            Some(token) => seq![token] + rest,
            None => rest,
        }
    }
}

/// The tokens of a source.
pub open spec fn tokens_of(s: Seq<char>) -> Seq<TokenView> {
    tokens_from(s, 0)
}

fn find_line_end(chars: &Vec<char>, from: usize) -> (r: usize)
    requires
        from <= chars@.len(),
    ensures
        r == line_end(chars@, from as int),
        from <= r <= chars@.len(),
{
    let mut i: usize = from;
    while i < chars.len() && chars[i] != '\n'
        invariant
            from <= i <= chars@.len(),
            line_end(chars@, from as int) == line_end(chars@, i as int),
        decreases chars@.len() - i,
    {
        i += 1;
    }
    i
}

fn find_comment_end(chars: &Vec<char>, from: usize) -> (r: usize)
    requires
        from <= chars@.len(),
    ensures
        r == comment_end(chars@, from as int),
        from <= r <= chars@.len(),
{
    let mut i: usize = from;
    while i < chars.len() && i + 1 < chars.len() && !(chars[i] == '*' && chars[i + 1] == '/')
        invariant
            from <= i <= chars@.len(),
            comment_end(chars@, from as int) == comment_end(chars@, i as int),
        decreases chars@.len() - i,
    {
        i += 1;
    }
    if chars.len() - i >= 2 {
        i + 2
    } else {
        chars.len()
    }
}

fn read_quoted(chars: &Vec<char>, from: usize, quote: char) -> (r: (String, usize))
    requires
        from <= chars@.len(),
    ensures
        quoted_rest(chars@, from as int, quote) == (r.0@, r.1 as int),
        from <= r.1 <= chars@.len(),
{
    let mut value = String::new();
    let mut i: usize = from;
    assert(quoted_rest(chars@, from as int, quote).0 == value@ + quoted_rest(
        chars@,
        i as int,
        quote,
    ).0);
    while i < chars.len()
        invariant
            from <= i <= chars@.len(),
            quoted_rest(chars@, from as int, quote).0 == value@ + quoted_rest(
                chars@,
                i as int,
                quote,
            ).0,
            quoted_rest(chars@, from as int, quote).1 == quoted_rest(chars@, i as int, quote).1,
        decreases chars@.len() - i,
    {
        let c = chars[i];
        let ghost before = value@;
        if c == quote {
            assert(value@ + Seq::<char>::empty() == value@);
            return (value, i + 1);
        }
        if c == '\\' && i < chars.len() - 1 {
            value.push(chars[i + 1]);
            proof {
                let rest = quoted_rest(chars@, i + 2, quote).0;
                assert(before + (seq![chars@[i + 1]] + rest) == before.push(chars@[i + 1]) + rest);
            }
            i += 2;
        } else {
            value.push(c);
            proof {
                let rest = quoted_rest(chars@, i + 1, quote).0;
                assert(before + (seq![c] + rest) == before.push(c) + rest);
            }
            i += 1;
        }
    }
    assert(value@ + Seq::<char>::empty() == value@);
    (value, i)
}

fn find_template_end(chars: &Vec<char>, from: usize) -> (r: usize)
    requires
        from <= chars@.len(),
    ensures
        r == template_end(chars@, from as int),
        from <= r <= chars@.len(),
{
    let mut i: usize = from;
    while i < chars.len()
        invariant
            from <= i <= chars@.len(),
            template_end(chars@, from as int) == template_end(chars@, i as int),
        decreases chars@.len() - i,
    {
        let c = chars[i];
        if c == '\\' {
            if i < chars.len() - 1 {
                i += 2;
            } else {
                return chars.len();
            }
        } else if c == '`' {
            return i + 1;
        } else {
            i += 1;
        }
    }
    i
}

fn starts_identifier(c: char) -> (r: bool)
    ensures
        r == begins_identifier(c),
{
    let code: u32 = c as u32;
    (97 <= code && code <= 122) || (65 <= code && code <= 90) || c == '_' || c == '$'
}

fn extends_identifier(c: char) -> (r: bool)
    ensures
        r == continues_identifier(c),
{
    let code: u32 = c as u32;
    starts_identifier(c) || (48 <= code && code <= 57)
}

fn find_identifier_end(chars: &Vec<char>, from: usize) -> (r: usize)
    requires
        from <= chars@.len(),
    ensures
        r == identifier_end(chars@, from as int),
        from <= r <= chars@.len(),
{
    let mut i: usize = from;
    while i < chars.len() && extends_identifier(chars[i])
        invariant
            from <= i <= chars@.len(),
            identifier_end(chars@, from as int) == identifier_end(chars@, i as int),
        decreases chars@.len() - i,
    {
        i += 1;
    }
    i
}

fn read_lexeme(chars: &Vec<char>, i: usize) -> (r: (Option<Token>, usize))
    requires
        i < chars@.len(),
    ensures
        match r.0 {
            Some(token) => lexeme(chars@, i as int) == (Some(token@), r.1 as int),
            None => lexeme(chars@, i as int) == (None::<TokenView>, r.1 as int),
        },
        i < r.1 <= chars@.len(),
{
    let c = chars[i];
    let followed = i < chars.len() - 1;
    if text::white(c) {
        (None, i + 1)
    } else if c == '/' && followed && chars[i + 1] == '/' {
        (None, find_line_end(chars, i + 2))
    } else if c == '/' && followed && chars[i + 1] == '*' {
        (None, find_comment_end(chars, i + 2))
    } else if c == '\'' || c == '"' {
        let (value, end) = read_quoted(chars, i + 1, c);
        (Some(Token::Text(value)), end)
    } else if c == '`' {
        (None, find_template_end(chars, i + 1))
    } else if starts_identifier(c) {
        let end = find_identifier_end(chars, i + 1);
        (Some(Token::Identifier(text::text_of(chars, i, end))), end)
    } else {
        (Some(Token::Punct(c)), i + 1)
    }
}

/// Splits a source into tokens. White space, comments, and templates are passed over.
pub fn tokenize_typescript(source: &str) -> (r: Vec<Token>)
    ensures
        token_views(r@) == tokens_of(source@),
{
    let chars = text::chars_of(source);
    let mut tokens: Vec<Token> = Vec::new();
    let mut i: usize = 0;
    assert(tokens_of(source@) == token_views(tokens@) + tokens_from(source@, 0));
    while i < chars.len()
        invariant
            chars@ == source@,
            i <= chars@.len(),
            tokens_of(source@) == token_views(tokens@) + tokens_from(source@, i as int),
        decreases chars@.len() - i,
    {
        let ghost before = token_views(tokens@);
        let (token, next) = read_lexeme(&chars, i);
        if let Some(token) = token {
            tokens.push(token);
            proof {
                let rest = tokens_from(source@, next as int);
                assert(token_views(tokens@) == before.push(token@));
                assert(before + (seq![token@] + rest) == before.push(token@) + rest);
            }
        }
        i = next;
    }
    assert(token_views(tokens@) + Seq::<TokenView>::empty() == token_views(tokens@));
    tokens
}

// Structure.

/// The token is a sign.
pub open spec fn is_sign(tokens: Seq<TokenView>, i: int, c: char) -> bool {
    0 <= i < tokens.len() && tokens[i] == TokenView::Punct(c)
}

/// The token is an identifier with a name.
pub open spec fn is_name(tokens: Seq<TokenView>, i: int, name: Seq<char>) -> bool {
    0 <= i < tokens.len() && tokens[i] == TokenView::Identifier(name)
}

/// The token names a member: as an identifier or as a text.
pub open spec fn names_member(token: TokenView, name: Seq<char>) -> bool {
    token == TokenView::Identifier(name) || token == TokenView::Text(name)
}

fn sign_at(tokens: &Vec<Token>, i: usize, c: char) -> (r: bool)
    ensures
        r == is_sign(token_views(tokens@), i as int, c),
{
    if i >= tokens.len() {
        return false;
    }
    assert(token_views(tokens@)[i as int] == tokens@[i as int]@);
    match &tokens[i] {
        Token::Punct(found) => *found == c,
        _ => false,
    }
}

fn name_at(tokens: &Vec<Token>, i: usize, name: &str) -> (r: bool)
    ensures
        r == is_name(token_views(tokens@), i as int, name@),
{
    if i >= tokens.len() {
        return false;
    }
    assert(token_views(tokens@)[i as int] == tokens@[i as int]@);
    match &tokens[i] {
        Token::Identifier(found) => text::same(found, name),
        _ => false,
    }
}

fn member_named(token: &Token, name: &str) -> (r: bool)
    ensures
        r == names_member(token@, name@),
{
    match token {
        Token::Identifier(found) => text::same(found, name),
        Token::Text(found) => text::same(found, name),
        Token::Punct(_) => false,
    }
}

/// Where the delimiter that closes another stands, from a place on at which `depth` of them are
/// open.
pub open spec fn closing_from(
    tokens: Seq<TokenView>,
    i: int,
    depth: int,
    left: char,
    right: char,
) -> Option<int>
    decreases tokens.len() - i,
{
    if i >= tokens.len() {
        None
    } else if is_sign(tokens, i, left) {
        closing_from(tokens, i + 1, depth + 1, left, right)
    } else if is_sign(tokens, i, right) {
        if depth == 0 {
            None
        } else if depth == 1 {
            Some(i)
        } else {
            closing_from(tokens, i + 1, depth - 1, left, right)
        }
    } else {
        closing_from(tokens, i + 1, depth, left, right)
    }
}

/// Finds the delimiter that closes the one at a place.
pub fn matching_delimiter(tokens: &Vec<Token>, open: usize, left: char, right: char) -> (r: Option<
    usize,
>)
    ensures
        match closing_from(token_views(tokens@), open as int, 0, left, right) {
            Some(close) => r is Some && r->0 == close && open <= close < tokens@.len(),
            None => r is None,
        },
{
    let ghost all = token_views(tokens@);
    let mut depth: usize = 0;
    let mut i: usize = open;
    while i < tokens.len()
        invariant
            open <= i,
            open <= tokens@.len() ==> i <= tokens@.len(),
            depth <= i - open,
            all == token_views(tokens@),
            closing_from(all, open as int, 0, left, right) == closing_from(
                all,
                i as int,
                depth as int,
                left,
                right,
            ),
        decreases tokens@.len() - i,
    {
        if sign_at(tokens, i, left) {
            depth += 1;
        } else if sign_at(tokens, i, right) {
            if depth == 0 {
                return None;
            }
            if depth == 1 {
                return Some(i);
            }
            depth -= 1;
        }
        i += 1;
    }
    None
}

/// How many delimiters of each kind are open.
#[derive(Clone, Copy, Debug, Eq, PartialEq, Structural)]
pub struct Depths {
    pub braces: i128,
    pub brackets: i128,
    pub parentheses: i128,
}

/// How many delimiters of each kind are open, as integers.
pub open spec fn deeper(depths: (int, int, int), token: TokenView) -> (int, int, int) {
    match token {
        TokenView::Punct('{') => (depths.0 + 1, depths.1, depths.2),
        TokenView::Punct('}') => (depths.0 - 1, depths.1, depths.2),
        TokenView::Punct('[') => (depths.0, depths.1 + 1, depths.2),
        TokenView::Punct(']') => (depths.0, depths.1 - 1, depths.2),
        TokenView::Punct('(') => (depths.0, depths.1, depths.2 + 1),
        TokenView::Punct(')') => (depths.0, depths.1, depths.2 - 1),
        _ => depths,
    }
}

impl Depths {
    /// The numbers of open delimiters.
    pub open spec fn ints(self) -> (int, int, int) {
        (self.braces as int, self.brackets as int, self.parentheses as int)
    }

    /// No number is larger than a bound.
    pub open spec fn within(self, bound: int) -> bool {
        &&& -bound <= self.braces <= bound
        &&& -bound <= self.brackets <= bound
        &&& -bound <= self.parentheses <= bound
    }

    fn start() -> (r: Depths)
        ensures
            r.ints() == (0int, 0int, 0int),
    {
        Depths { braces: 0, brackets: 0, parentheses: 0 }
    }

    fn after(self, token: &Token) -> (r: Depths)
        requires
            self.within(usize::MAX as int),
        ensures
            r.ints() == deeper(self.ints(), token@),
            forall|bound: int| self.within(bound) ==> #[trigger] r.within(bound + 1),
    {
        let mut out = self;
        match token {
            Token::Punct(c) => {
                if *c == '{' {
                    out.braces = out.braces + 1;
                } else if *c == '}' {
                    out.braces = out.braces - 1;
                } else if *c == '[' {
                    out.brackets = out.brackets + 1;
                } else if *c == ']' {
                    out.brackets = out.brackets - 1;
                } else if *c == '(' {
                    out.parentheses = out.parentheses + 1;
                } else if *c == ')' {
                    out.parentheses = out.parentheses - 1;
                }
            },
            _ => {},
        }
        out
    }

    fn closed(self) -> (r: bool)
        ensures
            r == (self.ints() == (0int, 0int, 0int)),
    {
        self.braces == 0 && self.brackets == 0 && self.parentheses == 0
    }
}

/// Where a member that a sign follows stands, from a place up to `end`, outside of everything that
/// opens after the start. `room` tokens have to follow the member.
pub open spec fn member_from(
    tokens: Seq<TokenView>,
    i: int,
    end: int,
    room: int,
    depths: (int, int, int),
    name: Seq<char>,
    sign: char,
) -> Option<int>
    decreases end - i,
{
    if room < 0 || i + room >= end {
        None
    } else {
        let now = deeper(depths, tokens[i]);
        if now == (0int, 0int, 0int) && names_member(tokens[i], name) && is_sign(
            tokens,
            i + 1,
            sign,
        ) {
            Some(i)
        } else {
            member_from(tokens, i + 1, end, room, now, name, sign)
        }
    }
}

fn find_member(
    tokens: &Vec<Token>,
    start: usize,
    end: usize,
    room: usize,
    name: &str,
    sign: char,
) -> (r: Option<usize>)
    requires
        end <= tokens@.len(),
        1 <= room <= 2,
    ensures
        match member_from(
            token_views(tokens@),
            start as int,
            end as int,
            room as int,
            (0int, 0int, 0int),
            name@,
            sign,
        ) {
            Some(i) => r is Some && r->0 == i && start <= i && i + room < end,
            None => r is None,
        },
{
    let ghost all = token_views(tokens@);
    let mut depths = Depths::start();
    let mut i: usize = start;
    while i < end && room < end - i
        invariant
            start <= i,
            end <= tokens@.len(),
            1 <= room <= 2,
            all == token_views(tokens@),
            depths.within(i - start),
            member_from(
                all,
                start as int,
                end as int,
                room as int,
                (0int, 0int, 0int),
                name@,
                sign,
            ) == member_from(
                all,
                i as int,
                end as int,
                room as int,
                depths.ints(),
                name@,
                sign,
            ),
        decreases end - i,
    {
        assert(all[i as int] == tokens@[i as int]@);
        let ghost before = depths;
        depths = depths.after(&tokens[i]);
        assert(before.within(i - start) ==> depths.within((i - start) + 1));
        if depths.closed() && member_named(&tokens[i], name) && sign_at(tokens, i + 1, sign) {
            return Some(i);
        }
        i += 1;
    }
    None
}

/// Where the value of a property stands.
pub open spec fn property_value(tokens: Seq<TokenView>, start: int, end: int, name: Seq<char>) -> Option<
    int,
> {
    match member_from(tokens, start, end, 2, (0int, 0int, 0int), name, ':') {
        Some(i) => Some(i + 2),
        None => None,
    }
}

/// Finds the value of a property.
pub fn property_value_index(tokens: &Vec<Token>, start: usize, end: usize, name: &str) -> (r: Option<
    usize,
>)
    requires
        end <= tokens@.len(),
    ensures
        match property_value(token_views(tokens@), start as int, end as int, name@) {
            Some(i) => r is Some && r->0 == i && start + 2 <= i < end,
            None => r is None,
        },
{
    match find_member(tokens, start, end, 2, name, ':') {
        Some(i) => Some(i + 2),
        None => None,
    }
}

/// The value of a property that is a text.
pub open spec fn text_property(tokens: Seq<TokenView>, start: int, end: int, name: Seq<char>) -> Option<
    Seq<char>,
> {
    match property_value(tokens, start, end, name) {
        Some(i) => match tokens[i] {
            TokenView::Text(value) => Some(value),
            _ => None,
        },
        None => None,
    }
}

/// The value of a property that is a text.
pub fn string_property(tokens: &Vec<Token>, start: usize, end: usize, name: &str) -> (r: Option<
    String,
>)
    requires
        end <= tokens@.len(),
    ensures
        text::opt(r) == text_property(token_views(tokens@), start as int, end as int, name@),
{
    match property_value_index(tokens, start, end, name) {
        Some(i) => {
            assert(token_views(tokens@)[i as int] == tokens@[i as int]@);
            match &tokens[i] {
                Token::Text(value) => Some(value.clone()),
                _ => None,
            }
        },
        None => None,
    }
}

/// Where the elements of a property that is an array stand.
pub open spec fn array_elements(tokens: Seq<TokenView>, start: int, end: int, name: Seq<char>) -> Option<
    (int, int),
> {
    match property_value(tokens, start, end, name) {
        Some(open) => if !is_sign(tokens, open, '[') {
            None
        } else {
            match closing_from(tokens, open, 0, '[', ']') {
                Some(close) => if close <= end {
                    Some((open + 1, close))
                } else {
                    None
                },
                None => None,
            }
        },
        None => None,
    }
}

/// Finds the elements of a property that is an array.
pub fn array_property(tokens: &Vec<Token>, start: usize, end: usize, name: &str) -> (r: Option<
    (usize, usize),
>)
    requires
        end <= tokens@.len(),
    ensures
        match array_elements(token_views(tokens@), start as int, end as int, name@) {
            Some(elements) => match r {
                Some((from, to)) => from == elements.0 && to == elements.1 && to <= end,
                None => false,
            },
            None => r is None,
        },
{
    let open: usize = match property_value_index(tokens, start, end, name) {
        Some(open) => open,
        None => {
            return None;
        },
    };
    if !sign_at(tokens, open, '[') {
        return None;
    }
    match matching_delimiter(tokens, open, '[', ']') {
        Some(close) => {
            if close <= end {
                Some((open + 1, close))
            } else {
                None
            }
        },
        None => None,
    }
}

/// There is a member with a name: a property or a method.
pub open spec fn member_present(tokens: Seq<TokenView>, start: int, end: int, name: Seq<char>) -> bool {
    property_value(tokens, start, end, name) is Some || member_from(
        tokens,
        start,
        end,
        1,
        (0int, 0int, 0int),
        name,
        '(',
    ) is Some
}

/// Tells whether there is a member with a name: a property or a method.
pub fn has_member(tokens: &Vec<Token>, start: usize, end: usize, name: &str) -> (r: bool)
    requires
        end <= tokens@.len(),
    ensures
        r == member_present(token_views(tokens@), start as int, end as int, name@),
{
    property_value_index(tokens, start, end, name).is_some() || find_member(
        tokens,
        start,
        end,
        1,
        name,
        '(',
    ).is_some()
}

/// The value of a property is the call of a function.
pub open spec fn calls(
    tokens: Seq<TokenView>,
    start: int,
    end: int,
    property: Seq<char>,
    function: Seq<char>,
) -> bool {
    match property_value(tokens, start, end, property) {
        Some(i) => is_name(tokens, i, function) && is_sign(tokens, i + 1, '('),
        None => false,
    }
}

/// Tells whether the value of a property is the call of a function.
pub fn property_calls(
    tokens: &Vec<Token>,
    start: usize,
    end: usize,
    property: &str,
    function: &str,
) -> (r: bool)
    requires
        end <= tokens@.len(),
    ensures
        r == calls(token_views(tokens@), start as int, end as int, property@, function@),
{
    match property_value_index(tokens, start, end, property) {
        Some(i) => name_at(tokens, i, function) && sign_at(tokens, i + 1, '('),
        None => false,
    }
}

// Benchmarks.

/// A case as a module declares it.
#[derive(Clone, Debug)]
pub struct CasePreview {
    pub id: String,
    pub setup: bool,
    pub exact: bool,
}

/// A case, viewed.
pub struct CaseView {
    pub id: Seq<char>,
    pub setup: bool,
    pub exact: bool,
}

/// Cases, viewed.
pub open spec fn case_views(cases: Seq<CasePreview>) -> Seq<CaseView> {
    Seq::new(
        cases.len(),
        |i: int| CaseView { id: cases[i].id@, setup: cases[i].setup, exact: cases[i].exact },
    )
}

/// What a module declares, as far as it can be told without running it.
#[derive(Clone, Debug)]
pub struct ParsedBenchmark {
    pub id: Option<String>,
    pub cases: Vec<CasePreview>,
    pub fixtures: Vec<String>,
    /// The definition is written out.
    pub literal_definition: bool,
}

/// The case that the object between two places declares, if it names itself.
pub open spec fn case_in(tokens: Seq<TokenView>, open: int, close: int) -> Option<CaseView> {
    match text_property(tokens, open + 1, close, "id"@) {
        Some(id) => Some(
            CaseView {
                id,
                setup: member_present(tokens, open + 1, close, "setup"@),
                exact: calls(tokens, open + 1, close, "expect"@, "exact"@),
            },
        ),
        None => None,
    }
}

/// The cases that the elements from a place up to `end` declare.
pub open spec fn cases_from(tokens: Seq<TokenView>, i: int, end: int) -> Seq<CaseView>
    decreases end - i,
{
    if i >= end {
        Seq::empty()
    } else if !is_sign(tokens, i, '{') {
        cases_from(tokens, i + 1, end)
    } else {
        match closing_from(tokens, i, 0, '{', '}') {
            None => Seq::empty(),
            Some(close) => if close > end || close < i {
                Seq::empty()
            } else {
                let rest = if close < end {
                    cases_from(tokens, close + 1, end)
                } else {
                    Seq::empty()
                };
                match case_in(tokens, i, close) {
                    Some(case) => seq![case] + rest,
                    None => rest,
                }
            },
        }
    }
}

/// The cases that the elements between two places declare.
pub fn parse_cases(tokens: &Vec<Token>, start: usize, end: usize) -> (r: Vec<CasePreview>)
    requires
        end <= tokens@.len(),
    ensures
        case_views(r@) == cases_from(token_views(tokens@), start as int, end as int),
{
    let ghost all = token_views(tokens@);
    let mut cases: Vec<CasePreview> = Vec::new();
    let mut i: usize = start;
    assert(cases_from(all, start as int, end as int) == case_views(cases@) + cases_from(
        all,
        i as int,
        end as int,
    ));
    while i < end
        invariant
            start <= i,
            end <= tokens@.len(),
            all == token_views(tokens@),
            cases_from(all, start as int, end as int) == case_views(cases@) + cases_from(
                all,
                i as int,
                end as int,
            ),
        decreases end - i,
    {
        if !sign_at(tokens, i, '{') {
            i += 1;
        } else {
            let ghost before = case_views(cases@);
            let close: usize = match matching_delimiter(tokens, i, '{', '}') {
                Some(close) => close,
                None => {
                    assert(before + Seq::<CaseView>::empty() == before);
                    return cases;
                },
            };
            if close > end {
                assert(before + Seq::<CaseView>::empty() == before);
                return cases;
            }
            let ghost rest = if close < end {
                cases_from(all, close + 1, end as int)
            } else {
                Seq::empty()
            };
            if let Some(id) = string_property(tokens, i + 1, close, "id") {
                let setup = has_member(tokens, i + 1, close, "setup");
                let exact = property_calls(tokens, i + 1, close, "expect", "exact");
                cases.push(CasePreview { id, setup, exact });
                proof {
                    let case = CaseView { id: id@, setup, exact };
                    assert(case_views(cases@) == before.push(case));
                    assert(before + (seq![case] + rest) == before.push(case) + rest);
                }
            }
            i = if close < end {
                close + 1
            } else {
                end
            };
        }
    }
    assert(case_views(cases@) + Seq::<CaseView>::empty() == case_views(cases@));
    cases
}

/// The fixtures that the first `n` tokens name: the texts that `fixture` is called with, each once.
pub open spec fn fixtures_before(tokens: Seq<TokenView>, n: int) -> Seq<Seq<char>>
    decreases n,
{
    if n <= 0 {
        Seq::empty()
    } else {
        let earlier = fixtures_before(tokens, n - 1);
        if is_name(tokens, n - 1, "fixture"@) && is_sign(tokens, n, '(') && n + 1 < tokens.len() {
            match tokens[n + 1] {
                TokenView::Text(source) => if earlier.contains(source) {
                    earlier
                } else {
                    earlier.push(source)
                },
                _ => earlier,
            }
        } else {
            earlier
        }
    }
}

fn contains_text(items: &Vec<String>, item: &str) -> (r: bool)
    ensures
        r == text::views(items@).contains(item@),
{
    let ghost all = text::views(items@);
    let mut i: usize = 0;
    while i < items.len()
        invariant
            i <= items@.len(),
            all == text::views(items@),
            forall|j: int| 0 <= j < i ==> all[j] != item@,
        decreases items@.len() - i,
    {
        if text::same(&items[i], item) {
            assert(all[i as int] == item@);
            return true;
        }
        i += 1;
    }
    false
}

/// The fixtures that a module names.
fn parse_fixtures(tokens: &Vec<Token>) -> (r: Vec<String>)
    ensures
        text::views(r@) == fixtures_before(token_views(tokens@), tokens@.len() as int - 2),
{
    let ghost all = token_views(tokens@);
    let mut out: Vec<String> = Vec::new();
    let mut i: usize = 0;
    assert(text::views(out@) == Seq::<Seq<char>>::empty());
    if tokens.len() < 2 {
        return out;
    }
    let count: usize = tokens.len() - 2;
    while i < count
        invariant
            i <= count,
            count + 2 == tokens.len(),
            all == token_views(tokens@),
            text::views(out@) == fixtures_before(all, i as int),
        decreases count - i,
    {
        if name_at(tokens, i, "fixture") && sign_at(tokens, i + 1, '(') {
            assert(all[i + 2] == tokens@[i + 2]@);
            match &tokens[i + 2] {
                Token::Text(source) => {
                    let ghost before = text::views(out@);
                    if !contains_text(&out, source) {
                        out.push(source.clone());
                        assert(text::views(out@) == before.push(source@));
                    }
                },
                _ => {},
            }
        }
        i += 1;
    }
    out
}

/// Where the definition of a benchmark is called with an object written out, from a place on.
pub open spec fn definition_from(tokens: Seq<TokenView>, i: int) -> Option<int>
    decreases tokens.len() - i,
{
    if i >= tokens.len() {
        None
    } else if is_name(tokens, i, "defineBrowserBenchmark"@) && is_sign(tokens, i + 1, '(')
        && is_sign(tokens, i + 2, '{') {
        Some(i)
    } else {
        definition_from(tokens, i + 1)
    }
}

fn find_definition(tokens: &Vec<Token>) -> (r: Option<usize>)
    ensures
        match definition_from(token_views(tokens@), 0) {
            Some(i) => r is Some && r->0 == i && i + 2 < tokens@.len(),
            None => r is None,
        },
{
    let ghost all = token_views(tokens@);
    let mut i: usize = 0;
    while i < tokens.len()
        invariant
            i <= tokens@.len(),
            all == token_views(tokens@),
            definition_from(all, 0) == definition_from(all, i as int),
        decreases tokens@.len() - i,
    {
        if tokens.len() - i > 2 && name_at(tokens, i, "defineBrowserBenchmark") && sign_at(
            tokens,
            i + 1,
            '(',
        ) && sign_at(tokens, i + 2, '{') {
            return Some(i);
        }
        i += 1;
    }
    None
}

/// The parsed benchmark is what some tokens declare.
pub open spec fn is_parsed(parsed: ParsedBenchmark, tokens: Seq<TokenView>) -> bool {
    &&& text::views(parsed.fixtures@) == fixtures_before(tokens, tokens.len() as int - 2)
    &&& parsed.literal_definition == parsed.id is Some
    &&& match definition_from(tokens, 0) {
        None => parsed.id is None && parsed.cases@.len() == 0,
        Some(call) => match closing_from(tokens, call + 2, 0, '{', '}') {
            None => parsed.id is None && parsed.cases@.len() == 0,
            Some(close) => {
                &&& text::opt(parsed.id) == text_property(tokens, call + 3, close, "id"@)
                &&& case_views(parsed.cases@) == match array_elements(
                    tokens,
                    call + 3,
                    close,
                    "cases"@,
                ) {
                    Some((from, to)) => cases_from(tokens, from, to),
                    None => Seq::empty(),
                }
            },
        },
    }
}

/// Tells what a module declares, as far as it can be told without running it.
pub fn parse_benchmark_source(source: &str) -> (r: ParsedBenchmark)
    ensures
        is_parsed(r, tokens_of(source@)),
{
    let tokens = tokenize_typescript(source);
    let fixtures = parse_fixtures(&tokens);
    let call: usize = match find_definition(&tokens) {
        Some(call) => call,
        None => {
            return ParsedBenchmark {
                id: None,
                cases: Vec::new(),
                fixtures,
                literal_definition: false,
            };
        },
    };
    let open: usize = call + 2;
    let close: usize = match matching_delimiter(&tokens, open, '{', '}') {
        Some(close) => close,
        None => {
            return ParsedBenchmark {
                id: None,
                cases: Vec::new(),
                fixtures,
                literal_definition: false,
            };
        },
    };
    let id = string_property(&tokens, open + 1, close, "id");
    let cases: Vec<CasePreview> = match array_property(&tokens, open + 1, close, "cases") {
        Some((from, to)) => parse_cases(&tokens, from, to),
        None => Vec::new(),
    };
    proof {
        if array_elements(token_views(tokens@), open + 1, close as int, "cases"@) is None {
            assert(case_views(cases@) == Seq::<CaseView>::empty());
        }
    }
    ParsedBenchmark { literal_definition: id.is_some(), id, cases, fixtures }
}

// Laws.

/// The delimiter that closes another stands after it, and is the right one.
pub proof fn a_closing_delimiter_follows_its_opening(
    tokens: Seq<TokenView>,
    i: int,
    depth: int,
    left: char,
    right: char,
)
    requires
        0 <= i,
        closing_from(tokens, i, depth, left, right) is Some,
    ensures
        i <= closing_from(tokens, i, depth, left, right)->0 < tokens.len(),
        is_sign(tokens, closing_from(tokens, i, depth, left, right)->0, right),
    decreases tokens.len() - i,
{
    if is_sign(tokens, i, left) {
        a_closing_delimiter_follows_its_opening(tokens, i + 1, depth + 1, left, right);
    } else if is_sign(tokens, i, right) {
        if depth != 1 {
            a_closing_delimiter_follows_its_opening(tokens, i + 1, depth - 1, left, right);
        }
    } else {
        a_closing_delimiter_follows_its_opening(tokens, i + 1, depth, left, right);
    }
}

/// A module names every fixture once.
pub proof fn fixtures_are_listed_once(tokens: Seq<TokenView>, n: int)
    ensures
        fixtures_before(tokens, n).no_duplicates(),
    decreases n,
{
    if n > 0 {
        fixtures_are_listed_once(tokens, n - 1);
    }
}

} // verus!
