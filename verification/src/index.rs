//! The index of a template: its text and the tokens found in it.

use crate::option::TemplateNestOption;
use crate::text::{
    chars_of, has_at, matches_at, skip_white, string_of_range, trim, trimmed_end_of,
};
use vstd::prelude::*;

verus! {

/// How tokens are written: the text that opens one, the text that closes
/// one, the text that escapes one (empty: none does), and whether the column
/// of each token is recorded.
pub struct Syntax {
    pub open: Seq<char>,
    pub close: Seq<char>,
    pub escape: Seq<char>,
    pub fixed_indent: bool,
}

/// The syntax as characters that can be compared one by one.
pub struct TokenSyntax {
    pub open: Vec<char>,
    pub close: Vec<char>,
    pub escape: Vec<char>,
    pub fixed_indent: bool,
}

impl View for TokenSyntax {
    type V = Syntax;

    open spec fn view(&self) -> Syntax {
        Syntax {
            open: self.open@,
            close: self.close@,
            escape: self.escape@,
            fixed_indent: self.fixed_indent,
        }
    }
}

impl TemplateNestOption {
    /// The token syntax that these settings describe.
    pub open spec fn syntax(&self) -> Syntax {
        Syntax {
            open: self.delimiters.0@,
            close: self.delimiters.1@,
            escape: self.token_escape_char@,
            fixed_indent: self.fixed_indent,
        }
    }

    /// The token syntax that these settings describe.
    pub fn token_syntax(&self) -> (syntax: TokenSyntax)
        ensures
            syntax@ == self.syntax(),
    {
        TokenSyntax {
            open: chars_of(self.delimiters.0.as_str()),
            close: chars_of(self.delimiters.1.as_str()),
            escape: chars_of(self.token_escape_char.as_str()),
            fixed_indent: self.fixed_indent,
        }
    }
}

/// One occurrence of a token in a template. `start` and `end` bound what
/// rendering replaces, counted in characters from the start of the text. For
/// an escaped token that is the escape text in front of it, and the name is
/// empty.
#[derive(Debug)]
pub struct Token {
    pub name: String,
    pub start: usize,
    pub end: usize,
    pub indent_level: usize,
    pub escaped: bool,
}

/// The mathematical value of a `Token`.
pub struct TokenView {
    pub name: Seq<char>,
    pub start: int,
    pub end: int,
    pub indent_level: nat,
    pub escaped: bool,
}

impl View for Token {
    type V = TokenView;

    open spec fn view(&self) -> TokenView {
        TokenView {
            name: self.name@,
            start: self.start as int,
            end: self.end as int,
            indent_level: self.indent_level as nat,
            escaped: self.escaped,
        }
    }
}

/// How many positions after `from` the first occurrence of `pattern` at or
/// after `from` stands. Where there is none, `from` plus the result is a
/// position at which the pattern does not stand.
pub open spec fn steps_to(text: Seq<char>, pattern: Seq<char>, from: int) -> nat
    decreases text.len() - from,
{
    if from >= text.len() || matches_at(text, pattern, from) {
        0
    } else {
        1 + steps_to(text, pattern, from + 1)
    }
}

/// Whether `text[from..to]` holds no line feed.
pub open spec fn one_line(text: Seq<char>, from: int, to: int) -> bool {
    forall|k: int| from <= k < to && 0 <= k < text.len() ==> text[k] != '\n'
}

/// Where the token that opens at `pos` closes: the first position, at least
/// one character behind the opening text, where the closing text stands,
/// provided that no line feed stands in between. `None` where no token opens
/// at `pos`.
pub open spec fn closing(text: Seq<char>, syntax: Syntax, pos: int) -> Option<int> {
    let inside = pos + syntax.open.len();
    let close = inside + 1 + steps_to(text, syntax.close, inside + 1);
    if matches_at(text, syntax.open, pos) && matches_at(text, syntax.close, close) && one_line(
        text,
        inside,
        close,
    ) {
        Some(close)
    } else {
        None
    }
}

/// The number of characters between `pos` and the start of its line.
pub open spec fn column(text: Seq<char>, pos: int) -> nat
    decreases pos,
{
    if pos <= 0 || pos > text.len() {
        0
    } else if text[pos - 1] == '\n' {
        0
    } else {
        1 + column(text, pos - 1)
    }
}

/// Whether the token that opens at `pos` is escaped: the escape text is not
/// empty and stands directly in front of `pos`, at or behind `floor`, where
/// the token before it ended.
pub open spec fn is_escaped(text: Seq<char>, syntax: Syntax, floor: int, pos: int) -> bool {
    &&& syntax.escape.len() > 0
    &&& floor + syntax.escape.len() <= pos
    &&& matches_at(text, syntax.escape, pos - syntax.escape.len())
}

/// The token that opens at `pos` and closes at `close`, the token before it
/// having ended at `floor`.
pub open spec fn token_at(text: Seq<char>, syntax: Syntax, floor: int, pos: int, close: int) -> TokenView {
    if is_escaped(text, syntax, floor, pos) {
        TokenView {
            name: Seq::empty(),
            start: pos - syntax.escape.len(),
            end: pos,
            indent_level: 0,
            escaped: true,
        }
    } else {
        TokenView {
            name: trim(text.subrange(pos + syntax.open.len(), close)),
            start: pos,
            end: close + syntax.close.len(),
            indent_level: if syntax.fixed_indent {
                column(text, pos)
            } else {
                0
            },
            escaped: false,
        }
    }
}

/// The tokens of `text` that open at or behind `cursor`, from left to right,
/// none overlapping another: the first that opens, then those behind its
/// end. `floor` is where the token before them ended.
pub open spec fn tokens_from(text: Seq<char>, syntax: Syntax, floor: int, cursor: int) -> Seq<
    TokenView,
>
    decreases text.len() - cursor,
{
    if cursor < 0 || cursor >= text.len() {
        Seq::empty()
    } else {
        match closing(text, syntax, cursor) {
            Some(close) => {
                let next = close + syntax.close.len();
                seq![token_at(text, syntax, floor, cursor, close)] + tokens_from(
                    text,
                    syntax,
                    next,
                    next,
                )
            },
            None => tokens_from(text, syntax, floor, cursor + 1),
        }
    }
}

/// The tokens of `text`.
pub open spec fn tokens_of(text: Seq<char>, syntax: Syntax) -> Seq<TokenView> {
    tokens_from(text, syntax, 0, 0)
}

/// Whether the spans lie within a text of length `len`, each at or behind
/// `floor`, in ascending order and without overlap.
pub open spec fn spans_ordered(tokens: Seq<TokenView>, floor: int, len: int) -> bool {
    &&& forall|i: int|
        0 <= i < tokens.len() ==> floor <= (#[trigger] tokens[i]).start <= tokens[i].end <= len
    &&& forall|i: int, j: int|
        0 <= i < j < tokens.len() ==> (#[trigger] tokens[i]).end <= (#[trigger] tokens[j]).start
}

/// `steps_to` finds the first occurrence: the pattern stands at no position
/// from `from` up to the one it gives.
pub proof fn steps_to_is_first(text: Seq<char>, pattern: Seq<char>, from: int)
    ensures
        forall|k: int|
            from <= k < from + steps_to(text, pattern, from) ==> !matches_at(text, pattern, k),
    decreases text.len() - from,
{
    if !(from >= text.len() || matches_at(text, pattern, from)) {
        steps_to_is_first(text, pattern, from + 1);
    }
}

/// The spans of the tokens found in a text are in order, without overlap and
/// within the text.
pub proof fn tokens_from_ordered(text: Seq<char>, syntax: Syntax, floor: int, cursor: int)
    requires
        0 <= floor <= cursor,
    ensures
        spans_ordered(tokens_from(text, syntax, floor, cursor), floor, text.len() as int),
    decreases text.len() - cursor,
{
    if cursor < text.len() {
        match closing(text, syntax, cursor) {
            Some(close) => {
                let next = close + syntax.close.len();
                let first = token_at(text, syntax, floor, cursor, close);
                let rest = tokens_from(text, syntax, next, next);
                tokens_from_ordered(text, syntax, next, next);
                let all = tokens_from(text, syntax, floor, cursor);
                assert(all == seq![first] + rest);
                assert(floor <= first.start <= first.end <= next <= text.len());
                assert forall|i: int| 0 <= i < all.len() implies floor <= (#[trigger] all[i]).start
                    <= all[i].end <= text.len() by {
                    if i > 0 {
                        assert(all[i] == rest[i - 1]);
                    }
                }
                assert forall|i: int, j: int| 0 <= i < j < all.len() implies (#[trigger] all[i]).end
                    <= (#[trigger] all[j]).start by {
                    assert(all[j] == rest[j - 1]);
                    if i > 0 {
                        assert(all[i] == rest[i - 1]);
                    }
                }
            },
            None => {
                tokens_from_ordered(text, syntax, floor, cursor + 1);
            },
        }
    }
}

/// Finds where the token that opens at `pos` closes, if one opens there.
pub fn find_closing(text: &Vec<char>, syntax: &TokenSyntax, pos: usize) -> (found: Option<usize>)
    ensures
        match found {
            Some(close) => closing(text@, syntax@, pos as int) == Some(close as int),
            None => closing(text@, syntax@, pos as int) is None,
        },
{
    if !has_at(text, &syntax.open, pos) {
        return None;
    }
    let len: usize = text.len();
    assert(pos + syntax.open@.len() <= len);
    let inside: usize = pos + syntax.open.len();
    if inside >= len {
        return None;
    }
    let mut close: usize = inside + 1;
    loop
        invariant
            inside < close <= text.len(),
            inside == pos + syntax.open@.len(),
            matches_at(text@, syntax.open@, pos as int),
            one_line(text@, inside as int, close - 1),
            inside + 1 + steps_to(text@, syntax.close@, inside + 1) == close + steps_to(
                text@,
                syntax.close@,
                close as int,
            ),
        decreases text.len() - close,
    {
        if text[close - 1] == '\n' {
            return None;
        }
        if has_at(text, &syntax.close, close) {
            return Some(close);
        }
        if close == text.len() {
            return None;
        }
        close += 1;
    }
}

/// Counts the characters between `pos` and the start of its line.
pub fn column_of(text: &Vec<char>, pos: usize) -> (count: usize)
    requires
        pos <= text.len(),
    ensures
        count == column(text@, pos as int),
{
    let mut count: usize = 0;
    while count < pos && text[pos - count - 1] != '\n'
        invariant
            count <= pos <= text.len(),
            column(text@, pos as int) == count + column(text@, pos - count),
        decreases pos - count,
    {
        count += 1;
    }
    count
}

/// Builds the token that opens at `pos` and closes at `close`.
fn make_token(text: &Vec<char>, syntax: &TokenSyntax, floor: usize, pos: usize, close: usize) -> (token:
    Token)
    requires
        floor <= pos,
        closing(text@, syntax@, pos as int) == Some(close as int),
    ensures
        token@ == token_at(text@, syntax@, floor as int, pos as int, close as int),
{
    assert(matches_at(text@, syntax@.open, pos as int));
    assert(matches_at(text@, syntax@.close, close as int));
    let len: usize = text.len();
    assert(close + syntax.close@.len() <= len);
    let width: usize = syntax.escape.len();
    if width > 0 && width <= pos - floor && has_at(text, &syntax.escape, pos - width) {
        return Token {
            name: String::new(),
            start: pos - width,
            end: pos,
            indent_level: 0,
            escaped: true,
        };
    }
    let inside: usize = pos + syntax.open.len();
    let kept: usize = trimmed_end_of(text, inside, close);
    let first: usize = skip_white(text, inside, inside + kept);
    let name = string_of_range(text, first, inside + kept);
    let indent_level: usize = if syntax.fixed_indent {
        column_of(text, pos)
    } else {
        0
    };
    proof {
        let interior = text@.subrange(inside as int, close as int);
        assert(interior.take(kept as int) =~= text@.subrange(inside as int, inside + kept));
        assert(interior.take(kept as int).skip(first - inside) =~= text@.subrange(
            first as int,
            inside + kept,
        ));
    }
    Token { name, start: pos, end: close + syntax.close.len(), indent_level, escaped: false }
}

/// The views of the tokens, in order.
pub open spec fn token_views(tokens: Seq<Token>) -> Seq<TokenView> {
    tokens.map_values(|t: Token| t@)
}

/// Finds the tokens of `text`, from left to right.
pub fn scan(text: &Vec<char>, syntax: &TokenSyntax) -> (tokens: Vec<Token>)
    ensures
        token_views(tokens@) == tokens_of(text@, syntax@),
        spans_ordered(token_views(tokens@), 0, text@.len() as int),
{
    let mut tokens: Vec<Token> = Vec::new();
    let mut floor: usize = 0;
    let mut cursor: usize = 0;
    assert(token_views(tokens@) =~= Seq::empty());
    while cursor < text.len()
        invariant
            floor <= cursor,
            token_views(tokens@) + tokens_from(text@, syntax@, floor as int, cursor as int)
                == tokens_of(text@, syntax@),
        decreases text.len() - cursor,
    {
        match find_closing(text, syntax, cursor) {
            Some(close) => {
                let token = make_token(text, syntax, floor, cursor, close);
                let ghost before = token_views(tokens@);
                tokens.push(token);
                let next: usize = close + syntax.close.len();
                proof {
                    assert(token_views(tokens@) =~= before.push(token@));
                    assert(before.push(token@) + tokens_from(text@, syntax@, next as int, next as int)
                        =~= before + (seq![token@] + tokens_from(
                        text@,
                        syntax@,
                        next as int,
                        next as int,
                    )));
                }
                floor = next;
                cursor = next;
            },
            None => {
                cursor += 1;
            },
        }
    }
    proof {
        assert(token_views(tokens@) + Seq::<TokenView>::empty() =~= token_views(tokens@));
        tokens_from_ordered(text@, syntax@, 0, 0);
    }
    tokens
}

/// An indexed template: its text, the tokens found in it from left to
/// right, and the time at which its file was last modified.
#[derive(Debug)]
pub struct TemplateIndex {
    pub contents: Vec<char>,
    pub tokens: Vec<Token>,
    pub last_modified: u64,
}

/// The mathematical value of a `TemplateIndex`.
pub struct IndexView {
    pub contents: Seq<char>,
    pub tokens: Seq<TokenView>,
    pub last_modified: u64,
}

impl View for TemplateIndex {
    type V = IndexView;

    open spec fn view(&self) -> IndexView {
        IndexView {
            contents: self.contents@,
            tokens: token_views(self.tokens@),
            last_modified: self.last_modified,
        }
    }
}

impl IndexView {
    /// The spans of the tokens lie within the text, in ascending order and
    /// without overlap.
    pub open spec fn wf(self) -> bool {
        spans_ordered(self.tokens, 0, self.contents.len() as int)
    }

    /// The names of the tokens that are not escaped.
    pub open spec fn known_names(self) -> Set<Seq<char>> {
        Set::new(
            |name: Seq<char>|
                exists|i: int|
                    0 <= i < self.tokens.len() && !(#[trigger] self.tokens[i]).escaped
                        && self.tokens[i].name == name,
        )
    }
}

/// The index of a template with the given text.
pub open spec fn indexed(contents: Seq<char>, syntax: Syntax, last_modified: u64) -> IndexView {
    IndexView { contents, tokens: tokens_of(contents, syntax), last_modified }
}

/// Every index of a text is well formed.
pub proof fn indexed_wf(contents: Seq<char>, syntax: Syntax, last_modified: u64)
    ensures
        indexed(contents, syntax, last_modified).wf(),
{
    tokens_from_ordered(contents, syntax, 0, 0);
}

/// Indexes a template: finds the tokens of `contents` as the settings write
/// them.
pub fn index(option: &TemplateNestOption, contents: &str, last_modified: u64) -> (found:
    TemplateIndex)
    ensures
        found@ == indexed(contents@, option.syntax(), last_modified),
        found@.wf(),
{
    let syntax = option.token_syntax();
    let text = chars_of(contents);
    let tokens = scan(&text, &syntax);
    TemplateIndex { contents: text, tokens, last_modified }
}

impl TemplateIndex {
    /// Whether the template has a token of this name that is not escaped.
    pub fn knows(&self, name: &String) -> (known: bool)
        ensures
            known == self@.known_names().contains(name@),
    {
        let mut i: usize = 0;
        while i < self.tokens.len()
            invariant
                i <= self.tokens.len(),
                forall|k: int|
                    0 <= k < i ==> (#[trigger] self@.tokens[k]).escaped || self@.tokens[k].name
                        != name@,
            decreases self.tokens.len() - i,
        {
            if !self.tokens[i].escaped && self.tokens[i].name == *name {
                assert(self@.tokens[i as int] == self.tokens@[i as int]@);
                return true;
            }
            assert(self@.tokens[i as int] == self.tokens@[i as int]@);
            i += 1;
        }
        false
    }
}

} // verus!
