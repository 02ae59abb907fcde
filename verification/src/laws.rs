//! What holds of every identifier and every template, proved once for all.

use vstd::prelude::*;
use crate::identifier::{
    delimiter_at, first_delimiter, has_delimiter, is_first_delimiter, join_segments,
    lemma_first_delimiter, parse, split_path, IdentifierView,
};
use crate::template::{
    directive, render_tokens, saturated, token_text, tokens_from, tokens_of, CompiledTemplate,
    InvalidTemplateView, TokenView,
};
use crate::text::{first_index_of, lemma_first_index_of, lemma_first_index_of_is_first};

verus! {

/// No segment is empty and none holds a slash.
pub open spec fn clean_segments(segments: Seq<Seq<char>>) -> bool {
    forall|i: int|
        0 <= i < segments.len() ==> {
            &&& (#[trigger] segments[i]).len() > 0
            &&& forall|j: int| 0 <= j < segments[i].len() ==> segments[i][j] != '/'
        }
}

/// A string that holds `://` has a leftmost one, at or before any other.
pub proof fn delimiter_has_first(s: Seq<char>, i: int)
    requires
        delimiter_at(s, i),
    ensures
        has_delimiter(s),
        is_first_delimiter(s, first_delimiter(s)),
        first_delimiter(s) <= i,
    decreases i,
{
    if forall|j: int| 0 <= j < i ==> !delimiter_at(s, j) {
        lemma_first_delimiter(s, i);
    } else {
        let j = choose|j: int| 0 <= j < i && delimiter_at(s, j);
        delimiter_has_first(s, j);
    }
}

/// The provider of an identifier that holds `://` is the text before the
/// leftmost `://`.
pub proof fn provider_is_text_before_delimiter(s: Seq<char>)
    requires
        has_delimiter(s),
    ensures
        is_first_delimiter(s, first_delimiter(s)),
        parse(s).provider() == s.take(first_delimiter(s)),
{
    let i = choose|i: int| delimiter_at(s, i);
    delimiter_has_first(s, i);
    assert(s.subrange(0, first_delimiter(s)) =~= s.take(first_delimiter(s)));
}

/// An identifier without `://` has no provider, and all of it is path.
pub proof fn no_delimiter_no_provider(s: Seq<char>)
    requires
        !has_delimiter(s),
    ensures
        parse(s).provider() == Seq::<char>::empty(),
        parse(s).segments == split_path(s),
{
}

/// `all` is the segments joined by `/`, and `url` is the identifier as it
/// was given.
pub proof fn all_joins_segments_and_url_is_raw(s: Seq<char>)
    ensures
        parse(s).all() == join_segments(parse(s).segments),
        parse(s).url() == s,
{
}

/// Splitting a path gives segments that are not empty and hold no slash.
pub proof fn split_path_is_clean(p: Seq<char>)
    ensures
        clean_segments(split_path(p)),
    decreases p.len(),
{
    if p.len() > 0 {
        let k = first_index_of(p, '/');
        lemma_first_index_of_is_first(p, '/');
        let rest = if k < p.len() {
            split_path(p.skip(k as int + 1))
        } else {
            Seq::empty()
        };
        if k < p.len() {
            split_path_is_clean(p.skip(k as int + 1));
        }
        if k > 0 {
            let all = seq![p.take(k as int)] + rest;
            assert forall|i: int| 0 <= i < all.len() implies {
                &&& (#[trigger] all[i]).len() > 0
                &&& forall|j: int| 0 <= j < all[i].len() ==> all[i][j] != '/'
            } by {
                if i > 0 {
                    assert(all[i] == rest[i - 1]);
                }
            }
        }
    }
}

/// The segments of every identifier are not empty and hold no slash.
pub proof fn segments_are_clean(s: Seq<char>)
    ensures
        clean_segments(parse(s).segments),
{
    split_path_is_clean(crate::identifier::path_of(s));
}

/// Joining starts with the first segment; the others follow a slash.
pub proof fn join_from_the_front(segments: Seq<Seq<char>>)
    requires
        segments.len() > 0,
    ensures
        join_segments(segments) == if segments.len() == 1 {
            segments[0]
        } else {
            segments[0] + seq!['/'] + join_segments(segments.drop_first())
        },
    decreases segments.len(),
{
    let front = segments.drop_last();
    let back = segments.drop_first();
    if segments.len() == 2 {
        assert(join_segments(front) == segments[0]);
        assert(join_segments(back) == segments[1]);
    } else if segments.len() > 2 {
        join_from_the_front(front);
        assert(front.drop_first() =~= back.drop_last());
        assert(join_segments(back) == join_segments(back.drop_last()) + seq!['/'] + back.last());
        assert(join_segments(segments) =~= segments[0] + seq!['/'] + join_segments(back));
    }
}

/// Clean segments, joined and split again, are what they were.
pub proof fn split_inverts_join(segments: Seq<Seq<char>>)
    requires
        clean_segments(segments),
    ensures
        split_path(join_segments(segments)) == segments,
    decreases segments.len(),
{
    if segments.len() == 0 {
    } else {
        let head = segments[0];
        let p = join_segments(segments);
        join_from_the_front(segments);
        if segments.len() == 1 {
            lemma_first_index_of(p, '/', p.len() as int);
            assert(p.take(p.len() as int) =~= p);
            assert(split_path(p) =~= segments);
        } else {
            let tail = segments.drop_first();
            assert(clean_segments(tail)) by {
                assert forall|i: int| 0 <= i < tail.len() implies {
                    &&& (#[trigger] tail[i]).len() > 0
                    &&& forall|j: int| 0 <= j < tail[i].len() ==> tail[i][j] != '/'
                } by {
                    assert(tail[i] == segments[i + 1]);
                }
            }
            split_inverts_join(tail);
            let k = head.len() as int;
            assert(p[k] == '/');
            assert forall|j: int| 0 <= j < k implies p[j] != '/' by {
                assert(p[j] == head[j]);
            }
            lemma_first_index_of(p, '/', k);
            assert(p.take(k) =~= head);
            assert(p.skip(k + 1) =~= join_segments(tail));
            assert(split_path(p) =~= segments);
        }
    }
}

/// The path that `all` names parses to the identifier's own segments.
pub proof fn all_splits_into_segments(s: Seq<char>)
    ensures
        split_path(parse(s).all()) == parse(s).segments,
{
    segments_are_clean(s);
    split_inverts_join(parse(s).segments);
}

/// Two templates compiled from one source render alike against every
/// identifier.
pub proof fn same_source_renders_alike(
    first: CompiledTemplate,
    second: CompiledTemplate,
    source: Seq<char>,
    identifier: IdentifierView,
)
    requires
        tokens_of(source) == Ok::<Seq<TokenView>, InvalidTemplateView>(first@),
        tokens_of(source) == Ok::<Seq<TokenView>, InvalidTemplateView>(second@),
    ensures
        first@ == second@,
        render_tokens(first@, identifier) == render_tokens(second@, identifier),
{
}

/// An index at or past the number of segments renders as nothing.
pub proof fn index_out_of_range_renders_empty(index: nat, identifier: IdentifierView)
    requires
        index >= identifier.segments.len(),
    ensures
        token_text(TokenView::Indexed(index), identifier) == Seq::<char>::empty(),
        render_tokens(seq![TokenView::Indexed(index)], identifier) == Seq::<char>::empty(),
{
    let tokens = seq![TokenView::Indexed(index)];
    assert(render_tokens(tokens.drop_last(), identifier) == Seq::<char>::empty());
    assert(render_tokens(tokens, identifier) =~= Seq::<char>::empty());
}

/// An index literal too large to store selects what the stored index does.
pub proof fn saturated_index_selects_the_same(index: nat, identifier: IdentifierView)
    requires
        identifier.segments.len() <= usize::MAX,
    ensures
        identifier.segment(saturated(index)) == identifier.segment(index),
{
}

/// A template without an opening brace compiles, and renders to itself
/// against every identifier.
pub proof fn plain_text_renders_to_itself(source: Seq<char>, identifier: IdentifierView)
    requires
        forall|i: int| 0 <= i < source.len() ==> source[i] != '{',
    ensures
        tokens_of(source) is Ok,
        render_tokens(tokens_of(source)->Ok_0, identifier) == source,
{
    if source.len() > 0 {
        let n = source.len() as int;
        lemma_first_index_of(source, '{', n);
        assert(source.take(n) =~= source);
        assert(source.skip(n).len() == 0);
        let tokens = seq![TokenView::Literal(source)];
        assert(tokens_from(source.skip(n), n as nat) == Ok::<Seq<TokenView>, InvalidTemplateView>(
            Seq::empty(),
        ));
        assert(seq![TokenView::Literal(source)] + Seq::<TokenView>::empty() =~= tokens);
        assert(tokens_of(source) == Ok::<Seq<TokenView>, InvalidTemplateView>(tokens));
        assert(render_tokens(tokens.drop_last(), identifier) == Seq::<char>::empty());
        assert(render_tokens(tokens, identifier) =~= source);
    }
}

/// Rendering one run of tokens after another gives the two texts in a row.
pub proof fn render_is_concatenation(
    front: Seq<TokenView>,
    back: Seq<TokenView>,
    identifier: IdentifierView,
)
    ensures
        render_tokens(front + back, identifier) == render_tokens(front, identifier)
            + render_tokens(back, identifier),
    decreases back.len(),
{
    if back.len() == 0 {
        assert(front + back =~= front);
        assert(render_tokens(front, identifier) + Seq::<char>::empty() =~= render_tokens(
            front,
            identifier,
        ));
    } else {
        render_is_concatenation(front, back.drop_last(), identifier);
        assert((front + back).drop_last() =~= front + back.drop_last());
        assert((front + back).last() == back.last());
        assert(render_tokens(front + back, identifier) =~= render_tokens(front, identifier)
            + render_tokens(back, identifier));
    }
}

/// The token at `i`, where it is a literal, is not empty, holds no opening
/// brace, and is not followed by another literal.
pub open spec fn tidy_at(tokens: Seq<TokenView>, i: int) -> bool {
    match tokens[i] {
        TokenView::Literal(text) => {
            &&& text.len() > 0
            &&& forall|j: int| 0 <= j < text.len() ==> text[j] != '{'
            &&& i + 1 < tokens.len() ==> !(tokens[i + 1] is Literal)
        },
        _ => true,
    }
}

/// Every literal is as long as it can be: none is empty, none holds an
/// opening brace, and no two stand side by side.
pub open spec fn tidy_tokens(tokens: Seq<TokenView>) -> bool {
    forall|i: int| 0 <= i < tokens.len() ==> #[trigger] tidy_at(tokens, i)
}

/// The tokens of any part of a template are tidy, and where the part opens
/// with a brace they open with a directive.
pub proof fn tokens_from_are_tidy(rest: Seq<char>, at: nat)
    ensures
        tokens_from(rest, at) matches Ok(tokens) ==> {
            &&& tidy_tokens(tokens)
            &&& rest.len() > 0 && rest[0] == '{' ==> tokens.len() > 0 && !(tokens[0] is Literal)
        },
    decreases rest.len(),
{
    if rest.len() == 0 {
    } else if rest[0] == '{' {
        let close = first_index_of(rest, '}');
        if close < rest.len() {
            match directive(rest.subrange(1, close as int)) {
                Some(token) => {
                    let tail = tokens_from(rest.skip(close as int + 1), at + close + 1);
                    tokens_from_are_tidy(rest.skip(close as int + 1), at + close + 1);
                    if let Ok(after) = tail {
                        let tokens = seq![token] + after;
                        assert(!(token is Literal));
                        assert forall|i: int| 0 <= i < tokens.len() implies #[trigger] tidy_at(
                            tokens,
                            i,
                        ) by {
                            if i > 0 {
                                assert(tidy_at(after, i - 1));
                                assert(tokens[i] == after[i - 1]);
                                if i + 1 < tokens.len() {
                                    assert(tokens[i + 1] == after[i]);
                                }
                            }
                        }
                    }
                },
                None => {},
            }
        }
    } else {
        let open = first_index_of(rest, '{');
        lemma_first_index_of_is_first(rest, '{');
        let text = rest.take(open as int);
        let tail = tokens_from(rest.skip(open as int), at + open);
        tokens_from_are_tidy(rest.skip(open as int), at + open);
        if let Ok(after) = tail {
            let tokens = seq![TokenView::Literal(text)] + after;
            assert forall|i: int| 0 <= i < tokens.len() implies #[trigger] tidy_at(tokens, i) by {
                if i > 0 {
                    assert(tidy_at(after, i - 1));
                    assert(tokens[i] == after[i - 1]);
                    if i + 1 < tokens.len() {
                        assert(tokens[i + 1] == after[i]);
                    }
                } else {
                    if after.len() > 0 {
                        assert(tokens[1] == after[0]);
                        assert(rest.skip(open as int).len() > 0);
                        assert(rest.skip(open as int)[0] == '{');
                    }
                }
            }
        }
    }
}

/// The tokens of a compiled template are tidy.
pub proof fn compiled_tokens_are_tidy(source: Seq<char>)
    ensures
        tokens_of(source) matches Ok(tokens) ==> tidy_tokens(tokens),
{
    tokens_from_are_tidy(source, 0);
}

/// The fragment opens with a brace and stands in `source` at the position
/// that goes with it.
pub open spec fn located(source: Seq<char>, invalid: InvalidTemplateView) -> bool {
    &&& invalid.fragment.len() > 0
    &&& invalid.fragment[0] == '{'
    &&& invalid.position + invalid.fragment.len() <= source.len()
    &&& source.subrange(
        invalid.position as int,
        (invalid.position + invalid.fragment.len()) as int,
    ) == invalid.fragment
}

/// A fault found in the part of `source` from `at` on is located in `source`.
pub proof fn invalid_from_is_located(source: Seq<char>, at: nat)
    requires
        at <= source.len(),
    ensures
        tokens_from(source.skip(at as int), at) matches Err(invalid) ==> located(source, invalid),
    decreases source.len() - at,
{
    let rest = source.skip(at as int);
    if rest.len() == 0 {
    } else if rest[0] == '{' {
        let close = first_index_of(rest, '}');
        if close < rest.len() {
            match directive(rest.subrange(1, close as int)) {
                Some(token) => {
                    invalid_from_is_located(source, at + close + 1);
                    assert(rest.skip(close as int + 1) =~= source.skip((at + close + 1) as int));
                },
                None => {
                    assert(rest.take(close as int + 1) =~= source.subrange(
                        at as int,
                        (at + close + 1) as int,
                    ));
                },
            }
        } else {
            assert(rest =~= source.subrange(at as int, (at + rest.len()) as int));
        }
    } else {
        let open = first_index_of(rest, '{');
        lemma_first_index_of_is_first(rest, '{');
        invalid_from_is_located(source, at + open);
        assert(rest.skip(open as int) =~= source.skip((at + open) as int));
    }
}

/// What a failed compilation reports is a piece of the template: it opens
/// with a brace and stands at the reported position.
pub proof fn invalid_template_is_located(source: Seq<char>)
    ensures
        tokens_of(source) matches Err(invalid) ==> located(source, invalid),
{
    invalid_from_is_located(source, 0);
    assert(source.skip(0) =~= source);
}

} // verus!
