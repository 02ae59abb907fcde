//! The template language: literal text with directives in braces.
//!
//! | Directive     | Stands for                            |
//! |---------------|---------------------------------------|
//! | `{:provider}` | the scheme                            |
//! | `{:first}`    | the first path segment                |
//! | `{:last}`     | the last path segment                 |
//! | `{:all}`      | the path, segments joined by `/`      |
//! | `{:url}`      | the identifier as it was given        |
//! | `{N}`         | the path segment at zero-based `N`    |
//!
//! A `{` opens a directive and the next `}` closes it; a `}` outside a
//! directive is literal text. A template is compiled once and rendered
//! against any number of identifiers. Rendering never fails: what an
//! identifier lacks renders as nothing.

use vstd::prelude::*;
use vstd::string::*;
use crate::identifier::{IdentifierView, ParsedIdentifier};
use crate::text::{chars_of, find_from, first_index_of, lemma_first_index_of_is_first, spells};

verus! {

/// The named parts of an identifier that a directive can ask for.
#[derive(Debug, Clone, Copy, PartialEq, Eq)]
pub enum NamedKey {
    Provider,
    Last,
    First,
    All,
    Url,
}

/// One piece of a compiled template.
#[derive(Debug, Clone, PartialEq, Eq)]
pub enum TemplateToken {
    /// Text that is copied to the output as it is.
    Literal(String),
    /// A named part of the identifier.
    Named(NamedKey),
    /// The path segment at a zero-based index.
    Indexed(usize),
}

/// The mathematical value of a token.
pub enum TokenView {
    Literal(Seq<char>),
    Named(NamedKey),
    Indexed(nat),
}

impl View for TemplateToken {
    type V = TokenView;

    open spec fn view(&self) -> TokenView {
        match self {
            TemplateToken::Literal(text) => TokenView::Literal(text@),
            TemplateToken::Named(key) => TokenView::Named(*key),
            TemplateToken::Indexed(index) => TokenView::Indexed(*index as nat),
        }
    }
}

/// Why a template did not compile: the directive at fault, braces included
/// (up to the end of the template where the closing brace is missing), and
/// the index of its opening brace, counted in characters.
#[derive(Debug, Clone, PartialEq, Eq)]
pub struct InvalidTemplate {
    pub fragment: String,
    pub position: usize,
}

/// The mathematical value of an `InvalidTemplate`.
pub struct InvalidTemplateView {
    pub fragment: Seq<char>,
    pub position: nat,
}

impl View for InvalidTemplate {
    type V = InvalidTemplateView;

    open spec fn view(&self) -> InvalidTemplateView {
        InvalidTemplateView { fragment: self.fragment@, position: self.position as nat }
    }
}

/// What each token of `tokens` stands for.
pub open spec fn token_views(tokens: Seq<TemplateToken>) -> Seq<TokenView> {
    tokens.map_values(|token: TemplateToken| token@)
}

/// A template, compiled: its tokens in source order.
#[derive(Debug, Clone, PartialEq, Eq)]
pub struct CompiledTemplate {
    tokens: Vec<TemplateToken>,
}

impl View for CompiledTemplate {
    type V = Seq<TokenView>;

    closed spec fn view(&self) -> Seq<TokenView> {
        token_views(self.tokens@)
    }
}

/// The key that `name` spells, if any. Names are case-sensitive.
pub open spec fn named_key(name: Seq<char>) -> Option<NamedKey> {
    if name == "provider"@ {
        Some(NamedKey::Provider)
    } else if name == "last"@ {
        Some(NamedKey::Last)
    } else if name == "first"@ {
        Some(NamedKey::First)
    } else if name == "all"@ {
        Some(NamedKey::All)
    } else if name == "url"@ {
        Some(NamedKey::Url)
    } else {
        None
    }
}

/// `c` is one of `0` to `9`.
pub open spec fn is_digit(c: char) -> bool {
    '0' <= c <= '9'
}

/// The number that the digit `c` stands for.
pub open spec fn digit_value(c: char) -> nat {
    (c as int - '0' as int) as nat
}

/// `body` is a decimal literal: one digit or more, and nothing else.
pub open spec fn is_index_literal(body: Seq<char>) -> bool {
    &&& body.len() > 0
    &&& forall|i: int| 0 <= i < body.len() ==> is_digit(#[trigger] body[i])
}

/// The number that the decimal digits stand for.
pub open spec fn decimal_value(digits: Seq<char>) -> nat
    decreases digits.len(),
{
    if digits.len() == 0 {
        0
    } else {
        decimal_value(digits.drop_last()) * 10 + digit_value(digits.last())
    }
}

/// `n`, or the largest `usize` where `n` is larger still. No path has that
/// many segments, so the stored index selects what `n` would: nothing.
pub open spec fn saturated(n: nat) -> nat {
    if n > usize::MAX {
        usize::MAX as nat
    } else {
        n
    }
}

/// The token that a directive with this text between its braces stands for;
/// `None` where the text is neither `:` and a name nor a decimal literal.
pub open spec fn directive(body: Seq<char>) -> Option<TokenView> {
    if body.len() > 0 && body[0] == ':' {
        match named_key(body.skip(1)) {
            Some(key) => Some(TokenView::Named(key)),
            None => None,
        }
    } else if is_index_literal(body) {
        Some(TokenView::Indexed(saturated(decimal_value(body))))
    } else {
        None
    }
}

/// `token` in front of the tokens of `rest`; the error of `rest` where it is one.
pub open spec fn prepend(
    token: TokenView,
    rest: Result<Seq<TokenView>, InvalidTemplateView>,
) -> Result<Seq<TokenView>, InvalidTemplateView> {
    match rest {
        Ok(tokens) => Ok(seq![token] + tokens),
        Err(invalid) => Err(invalid),
    }
}

/// The tokens of `rest`, the part of a template that starts at index `at` of
/// it; or the leftmost directive that is unterminated or not recognised.
pub open spec fn tokens_from(rest: Seq<char>, at: nat) -> Result<
    Seq<TokenView>,
    InvalidTemplateView,
>
    decreases rest.len(),
{
    if rest.len() == 0 {
        Ok(Seq::empty())
    } else if rest[0] == '{' {
        let close = first_index_of(rest, '}');
        if close < rest.len() {
            match directive(rest.subrange(1, close as int)) {
                Some(token) => prepend(
                    token,
                    tokens_from(rest.skip(close as int + 1), at + close + 1),
                ),
                None => Err(
                    InvalidTemplateView { fragment: rest.take(close as int + 1), position: at },
                ),
            }
        } else {
            Err(InvalidTemplateView { fragment: rest, position: at })
        }
    } else {
        let open = first_index_of(rest, '{');
        proof {
            lemma_first_index_of_is_first(rest, '{');
        }
        prepend(
            TokenView::Literal(rest.take(open as int)),
            tokens_from(rest.skip(open as int), at + open),
        )
    }
}

/// What compiling `source` gives: its tokens, or why it is not a template.
pub open spec fn tokens_of(source: Seq<char>) -> Result<Seq<TokenView>, InvalidTemplateView> {
    tokens_from(source, 0)
}

/// The text that `key` names in `identifier`.
pub open spec fn named_text(key: NamedKey, identifier: IdentifierView) -> Seq<char> {
    match key {
        NamedKey::Provider => identifier.provider(),
        NamedKey::Last => identifier.last(),
        NamedKey::First => identifier.first(),
        NamedKey::All => identifier.all(),
        NamedKey::Url => identifier.url(),
    }
}

/// The text that `token` contributes when rendered against `identifier`.
pub open spec fn token_text(token: TokenView, identifier: IdentifierView) -> Seq<char> {
    match token {
        TokenView::Literal(text) => text,
        TokenView::Named(key) => named_text(key, identifier),
        TokenView::Indexed(index) => identifier.segment(index),
    }
}

/// The texts of the tokens against `identifier`, one after the other.
pub open spec fn render_tokens(tokens: Seq<TokenView>, identifier: IdentifierView) -> Seq<char>
    decreases tokens.len(),
{
    if tokens.len() == 0 {
        Seq::empty()
    } else {
        render_tokens(tokens.drop_last(), identifier) + token_text(tokens.last(), identifier)
    }
}

/// The tokens `done`, followed by those of `rest`.
spec fn followed_by(
    done: Seq<TokenView>,
    rest: Result<Seq<TokenView>, InvalidTemplateView>,
) -> Result<Seq<TokenView>, InvalidTemplateView> {
    match rest {
        Ok(tokens) => Ok(done + tokens),
        Err(invalid) => Err(invalid),
    }
}

proof fn lemma_followed_by_push(
    done: Seq<TokenView>,
    token: TokenView,
    rest: Result<Seq<TokenView>, InvalidTemplateView>,
)
    ensures
        followed_by(done.push(token), rest) == followed_by(done, prepend(token, rest)),
{
    match rest {
        Ok(tokens) => {
            assert(done.push(token) + tokens =~= done + (seq![token] + tokens));
        },
        Err(_) => {},
    }
}

/// The index that the digits of `chars` from `from` up to `to` spell.
fn parse_index(chars: &Vec<char>, from: usize, to: usize) -> (index: Option<usize>)
    requires
        from <= to <= chars@.len(),
    ensures
        match index {
            Some(i) => {
                &&& is_index_literal(chars@.subrange(from as int, to as int))
                &&& i == saturated(decimal_value(chars@.subrange(from as int, to as int)))
            },
            None => !is_index_literal(chars@.subrange(from as int, to as int)),
        },
{
    let ghost body = chars@.subrange(from as int, to as int);
    if from == to {
        return None;
    }
    let mut acc: usize = 0;
    let mut k: usize = from;
    assert(chars@.subrange(from as int, from as int) =~= Seq::<char>::empty());
    while k < to
        invariant
            from <= k <= to <= chars@.len(),
            body == chars@.subrange(from as int, to as int),
            forall|j: int| from <= j < k ==> is_digit(chars@[j]),
            acc == saturated(decimal_value(chars@.subrange(from as int, k as int))),
        decreases to - k,
    {
        let c = chars[k];
        if !('0' <= c && c <= '9') {
            assert(!is_digit(body[k - from]));
            return None;
        }
        let d: usize = (c as u32 - '0' as u32) as usize;
        proof {
            let next = chars@.subrange(from as int, k + 1);
            assert(next.drop_last() =~= chars@.subrange(from as int, k as int));
            assert(next.last() == c);
            assert(d == digit_value(c));
        }
        acc = if acc <= (usize::MAX - d) / 10 {
            acc * 10 + d
        } else {
            usize::MAX
        };
        k += 1;
    }
    assert forall|i: int| 0 <= i < body.len() implies is_digit(#[trigger] body[i]) by {
        assert(body[i] == chars@[from + i]);
    }
    Some(acc)
}

/// The key that the characters of `chars` from `from` up to `to` spell.
fn parse_named_key(chars: &Vec<char>, from: usize, to: usize) -> (key: Option<NamedKey>)
    requires
        from <= to <= chars@.len(),
    ensures
        key == named_key(chars@.subrange(from as int, to as int)),
{
    if spells(chars, from, to, "provider") {
        Some(NamedKey::Provider)
    } else if spells(chars, from, to, "last") {
        Some(NamedKey::Last)
    } else if spells(chars, from, to, "first") {
        Some(NamedKey::First)
    } else if spells(chars, from, to, "all") {
        Some(NamedKey::All)
    } else if spells(chars, from, to, "url") {
        Some(NamedKey::Url)
    } else {
        None
    }
}

/// The token of the directive whose body is `chars` from `from` up to `to`.
fn parse_directive(chars: &Vec<char>, from: usize, to: usize) -> (token: Option<TemplateToken>)
    requires
        from <= to <= chars@.len(),
    ensures
        match token {
            Some(t) => directive(chars@.subrange(from as int, to as int)) == Some(t@),
            None => directive(chars@.subrange(from as int, to as int)) is None,
        },
{
    let ghost body = chars@.subrange(from as int, to as int);
    if from < to && chars[from] == ':' {
        assert(body.skip(1) =~= chars@.subrange(from + 1, to as int));
        match parse_named_key(chars, from + 1, to) {
            Some(key) => Some(TemplateToken::Named(key)),
            None => None,
        }
    } else {
        match parse_index(chars, from, to) {
            Some(index) => Some(TemplateToken::Indexed(index)),
            None => None,
        }
    }
}

/// Compiles a template. It fails on the leftmost directive that has no
/// closing brace, or whose body is neither `:` and one of the five names nor
/// a decimal literal; otherwise it gives the tokens in source order.
pub fn compile_template(source: &str) -> (result: Result<CompiledTemplate, InvalidTemplate>)
    ensures
        match result {
            Ok(template) => tokens_of(source@) == Ok::<Seq<TokenView>, InvalidTemplateView>(
                template@,
            ),
            Err(invalid) => tokens_of(source@) == Err::<Seq<TokenView>, InvalidTemplateView>(
                invalid@,
            ),
        },
{
    let chars = chars_of(source);
    let n = chars.len();
    let ghost s = source@;
    let mut tokens: Vec<TemplateToken> = Vec::new();
    let mut pos: usize = 0;
    proof {
        assert(s.skip(0) =~= s);
        assert(token_views(tokens@) =~= Seq::<TokenView>::empty());
        assert(followed_by(token_views(tokens@), tokens_from(s, 0)) == tokens_from(s, 0)) by {
            match tokens_from(s, 0) {
                Ok(all) => {
                    assert(Seq::<TokenView>::empty() + all =~= all);
                },
                Err(_) => {},
            }
        }
    }
    while pos < n
        invariant
            s == source@,
            chars@ == s,
            n == s.len(),
            pos <= n,
            followed_by(token_views(tokens@), tokens_from(s.skip(pos as int), pos as nat))
                == tokens_of(s),
        decreases n - pos,
    {
        let ghost rest = s.skip(pos as int);
        let ghost done = token_views(tokens@);
        if chars[pos] == '{' {
            let close = find_from(&chars, pos, '}');
            let ghost c = (close - pos) as nat;
            if close == n {
                let fragment = source.substring_char(pos, n).to_owned();
                assert(s.subrange(pos as int, n as int) =~= rest);
                return Err(InvalidTemplate { fragment, position: pos });
            }
            proof {
                assert(rest.subrange(1, c as int) =~= s.subrange(pos + 1, close as int));
                assert(rest.skip(c as int + 1) =~= s.skip(close + 1));
                assert(rest.take(c as int + 1) =~= s.subrange(pos as int, close + 1));
            }
            match parse_directive(&chars, pos + 1, close) {
                Some(token) => {
                    proof {
                        lemma_followed_by_push(
                            done,
                            token@,
                            tokens_from(s.skip(close + 1), (close + 1) as nat),
                        );
                    }
                    tokens.push(token);
                    assert(token_views(tokens@) =~= done.push(token@));
                    pos = close + 1;
                },
                None => {
                    let fragment = source.substring_char(pos, close + 1).to_owned();
                    return Err(InvalidTemplate { fragment, position: pos });
                },
            }
        } else {
            let open = find_from(&chars, pos, '{');
            let ghost o = (open - pos) as nat;
            let text = source.substring_char(pos, open).to_owned();
            let token = TemplateToken::Literal(text);
            proof {
                assert(rest.take(o as int) =~= s.subrange(pos as int, open as int));
                assert(rest.skip(o as int) =~= s.skip(open as int));
                lemma_followed_by_push(done, token@, tokens_from(s.skip(open as int), open as nat));
            }
            tokens.push(token);
            assert(token_views(tokens@) =~= done.push(token@));
            pos = open;
        }
    }
    proof {
        match tokens_from(s.skip(pos as int), pos as nat) {
            Ok(none) => {
                assert(token_views(tokens@) + none =~= token_views(tokens@));
            },
            Err(_) => {},
        }
    }
    Ok(CompiledTemplate { tokens })
}

impl CompiledTemplate {
    /// The tokens, in source order.
    pub fn tokens(&self) -> (tokens: &Vec<TemplateToken>)
        ensures
            token_views(tokens@) == self@,
    {
        &self.tokens
    }
}

/// Renders `template` against `identifier`: the text of each token, in order.
pub fn render(template: &CompiledTemplate, identifier: &ParsedIdentifier) -> (out: String)
    ensures
        out@ == render_tokens(template@, identifier@),
{
    let n = template.tokens.len();
    let ghost tokens = template@;
    let mut out = String::new();
    let mut i: usize = 0;
    assert(tokens.take(0) =~= Seq::<TokenView>::empty());
    while i < n
        invariant
            tokens == template@,
            n == tokens.len(),
            i <= n,
            out@ == render_tokens(tokens.take(i as int), identifier@),
        decreases n - i,
    {
        proof {
            assert(tokens.take(i + 1).drop_last() =~= tokens.take(i as int));
            assert(tokens.take(i + 1).last() == template.tokens@[i as int]@);
        }
        match &template.tokens[i] {
            TemplateToken::Literal(text) => {
                out.append(text.as_str());
            },
            TemplateToken::Named(key) => {
                match key {
                    NamedKey::Provider => out.append(identifier.provider()),
                    NamedKey::Last => out.append(identifier.last()),
                    NamedKey::First => out.append(identifier.first()),
                    NamedKey::All => {
                        let all = identifier.all();
                        out.append(all.as_str());
                    },
                    NamedKey::Url => out.append(identifier.url()),
                }
            },
            TemplateToken::Indexed(index) => {
                out.append(identifier.segment(*index));
            },
        }
        i += 1;
    }
    assert(tokens.take(n as int) =~= tokens);
    out
}

} // verus!
