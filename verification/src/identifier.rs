//! Provider identifiers: strings of the form `<scheme>://<path>`, where the
//! path is a `/`-separated list of segments.
//!
//! Parsing is lenient and total. Empty path components (from leading,
//! doubled or trailing slashes) are dropped, so no segment is ever empty.

use vstd::prelude::*;
use vstd::string::*;
use crate::text::{chars_of, first_index_of, lemma_first_index_of};

verus! {

/// The delimiter `://` stands in `s` at index `i`.
pub open spec fn delimiter_at(s: Seq<char>, i: int) -> bool {
    &&& 0 <= i
    &&& i + 3 <= s.len()
    &&& s[i] == ':'
    &&& s[i + 1] == '/'
    &&& s[i + 2] == '/'
}

/// `s` holds the delimiter `://` somewhere.
pub open spec fn has_delimiter(s: Seq<char>) -> bool {
    exists|i: int| delimiter_at(s, i)
}

/// The delimiter stands at `i` and nowhere before.
pub open spec fn is_first_delimiter(s: Seq<char>, i: int) -> bool {
    &&& delimiter_at(s, i)
    &&& forall|j: int| 0 <= j < i ==> !delimiter_at(s, j)
}

/// The index of the leftmost `://` in `s`, where there is one.
pub open spec fn first_delimiter(s: Seq<char>) -> int {
    choose|i: int| is_first_delimiter(s, i)
}

/// The part of `s` before the leftmost `://`; empty where `s` has none.
pub open spec fn scheme_of(s: Seq<char>) -> Seq<char> {
    if has_delimiter(s) {
        s.subrange(0, first_delimiter(s))
    } else {
        Seq::empty()
    }
}

/// The part of `s` after the leftmost `://`; all of `s` where it has none.
pub open spec fn path_of(s: Seq<char>) -> Seq<char> {
    if has_delimiter(s) {
        s.subrange(first_delimiter(s) + 3, s.len() as int)
    } else {
        s
    }
}

/// The non-empty components of `p` between slashes, in order.
pub open spec fn split_path(p: Seq<char>) -> Seq<Seq<char>>
    decreases p.len(),
{
    if p.len() == 0 {
        Seq::empty()
    } else {
        let k = first_index_of(p, '/');
        let rest = if k < p.len() {
            split_path(p.skip(k as int + 1))
        } else {
            Seq::empty()
        };
        if k == 0 {
            rest
        } else {
            seq![p.take(k as int)] + rest
        }
    }
}

/// The segments, with one `/` between each two neighbours.
pub open spec fn join_segments(segments: Seq<Seq<char>>) -> Seq<char>
    decreases segments.len(),
{
    if segments.len() == 0 {
        Seq::empty()
    } else if segments.len() == 1 {
        segments[0]
    } else {
        join_segments(segments.drop_last()) + seq!['/'] + segments.last()
    }
}

/// What each string of `strings` holds.
pub open spec fn views(strings: Seq<String>) -> Seq<Seq<char>> {
    strings.map_values(|s: String| s@)
}

/// The mathematical value of a parsed identifier.
pub struct IdentifierView {
    pub scheme: Seq<char>,
    pub segments: Seq<Seq<char>>,
    pub raw: Seq<char>,
}

impl IdentifierView {
    /// The scheme.
    pub open spec fn provider(self) -> Seq<char> {
        self.scheme
    }

    /// The first segment; empty where there is none.
    pub open spec fn first(self) -> Seq<char> {
        if self.segments.len() > 0 {
            self.segments[0]
        } else {
            Seq::empty()
        }
    }

    /// The last segment; empty where there is none.
    pub open spec fn last(self) -> Seq<char> {
        if self.segments.len() > 0 {
            self.segments[self.segments.len() - 1]
        } else {
            Seq::empty()
        }
    }

    /// The path: the segments joined by `/`.
    pub open spec fn all(self) -> Seq<char> {
        join_segments(self.segments)
    }

    /// The identifier as it was given.
    pub open spec fn url(self) -> Seq<char> {
        self.raw
    }

    /// The segment at `index`; empty where `index` is out of range.
    pub open spec fn segment(self, index: nat) -> Seq<char> {
        if index < self.segments.len() {
            self.segments[index as int]
        } else {
            Seq::empty()
        }
    }
}

/// What parsing makes of the raw identifier `s`.
pub open spec fn parse(s: Seq<char>) -> IdentifierView {
    IdentifierView { scheme: scheme_of(s), segments: split_path(path_of(s)), raw: s }
}

/// The leftmost delimiter is the one that `first_delimiter` names.
pub proof fn lemma_first_delimiter(s: Seq<char>, i: int)
    requires
        is_first_delimiter(s, i),
    ensures
        has_delimiter(s),
        first_delimiter(s) == i,
{
    let k = first_delimiter(s);
    assert(is_first_delimiter(s, k));
    if k < i {
        assert(!delimiter_at(s, k));
    }
    if i < k {
        assert(!delimiter_at(s, i));
    }
}

/// A provider identifier, taken apart.
#[derive(Debug, PartialEq, Eq)]
pub struct ParsedIdentifier {
    scheme: String,
    segments: Vec<String>,
    raw: String,
}

impl View for ParsedIdentifier {
    type V = IdentifierView;

    closed spec fn view(&self) -> IdentifierView {
        IdentifierView { scheme: self.scheme@, segments: views(self.segments@), raw: self.raw@ }
    }
}

impl Clone for ParsedIdentifier {
    fn clone(&self) -> (copy: Self)
        ensures
            copy@ == self@,
    {
        proof {
            use_type_invariant(self);
        }
        let n = self.segments.len();
        let mut segments: Vec<String> = Vec::new();
        let mut i: usize = 0;
        while i < n
            invariant
                n == self.segments@.len(),
                i <= n,
                segments@ == self.segments@.take(i as int),
            decreases n - i,
        {
            segments.push(self.segments[i].clone());
            assert(segments@ =~= self.segments@.take(i + 1));
            i += 1;
        }
        assert(segments@ =~= self.segments@);
        ParsedIdentifier { scheme: self.scheme.clone(), segments, raw: self.raw.clone() }
    }
}

impl ParsedIdentifier {
    /// Scheme and segments are those that parsing finds in `raw`.
    #[verifier::type_invariant]
    closed spec fn derived_from_raw(&self) -> bool {
        self@ == parse(self.raw@)
    }

    /// The protocol before `://`; empty where the identifier has none.
    pub fn scheme(&self) -> (r: &str)
        ensures
            r@ == self@.scheme,
    {
        self.scheme.as_str()
    }

    /// The segments of the path, in order. None of them is empty.
    pub fn segments(&self) -> (r: &Vec<String>)
        ensures
            views(r@) == self@.segments,
    {
        &self.segments
    }

    /// The identifier as it was given. Everything else is derived from it.
    pub fn raw(&self) -> (r: &str)
        ensures
            r@ == self@.raw,
            self@ == parse(r@),
    {
        proof {
            use_type_invariant(self);
        }
        self.raw.as_str()
    }

    /// The segment at `index`; empty where the path has no such segment.
    pub fn segment(&self, index: usize) -> (r: &str)
        ensures
            r@ == self@.segment(index as nat),
    {
        if index < self.segments.len() {
            self.segments[index].as_str()
        } else {
            proof {
                reveal_strlit("");
            }
            assert(""@ =~= Seq::<char>::empty());
            ""
        }
    }

    /// The scheme, under the name that templates use.
    pub fn provider(&self) -> (r: &str)
        ensures
            r@ == self@.provider(),
    {
        self.scheme.as_str()
    }

    /// The first segment; empty where there is none.
    pub fn first(&self) -> (r: &str)
        ensures
            r@ == self@.first(),
    {
        self.segment(0)
    }

    /// The last segment; empty where there is none.
    pub fn last(&self) -> (r: &str)
        ensures
            r@ == self@.last(),
    {
        let n = self.segments.len();
        if n > 0 {
            self.segment(n - 1)
        } else {
            self.segment(0)
        }
    }

    /// The path without the scheme: the segments joined by `/`.
    pub fn all(&self) -> (r: String)
        ensures
            r@ == self@.all(),
    {
        let n = self.segments.len();
        let ghost segs = views(self.segments@);
        let mut out = String::new();
        let mut i: usize = 0;
        assert(segs.take(0) =~= Seq::<Seq<char>>::empty());
        while i < n
            invariant
                n == self.segments@.len(),
                segs == views(self.segments@),
                i <= n,
                out@ == join_segments(segs.take(i as int)),
            decreases n - i,
        {
            proof {
                assert(segs.take(i + 1).drop_last() =~= segs.take(i as int));
                assert(segs.take(i + 1).last() == self.segments@[i as int]@);
                reveal_strlit("/");
                assert("/"@ =~= seq!['/']);
            }
            if i > 0 {
                out.append("/");
            }
            out.append(self.segments[i].as_str());
            assert(out@ =~= join_segments(segs.take(i + 1)));
            i += 1;
        }
        assert(segs.take(n as int) =~= segs);
        out
    }

    /// The identifier as it was given.
    pub fn url(&self) -> (r: &str)
        ensures
            r@ == self@.url(),
    {
        self.raw.as_str()
    }
}

/// The index of the leftmost `://` in `chars`, if there is one.
fn find_delimiter(chars: &Vec<char>) -> (found: Option<usize>)
    ensures
        match found {
            Some(i) => is_first_delimiter(chars@, i as int),
            None => !has_delimiter(chars@),
        },
{
    let n = chars.len();
    let mut i: usize = 0;
    while i < n
        invariant
            n == chars@.len(),
            i <= n,
            forall|j: int| 0 <= j < i ==> !delimiter_at(chars@, j),
        decreases n - i,
    {
        if n - i >= 3 && chars[i] == ':' && chars[i + 1] == '/' && chars[i + 2] == '/' {
            return Some(i);
        }
        i += 1;
    }
    None
}

/// The segments of the path that starts at `start` in `raw`.
fn split_segments(raw: &str, chars: &Vec<char>, start: usize) -> (segments: Vec<String>)
    requires
        chars@ == raw@,
        start <= chars@.len(),
    ensures
        views(segments@) == split_path(raw@.subrange(start as int, raw@.len() as int)),
{
    let n = chars.len();
    let ghost s = raw@;
    let mut segments: Vec<String> = Vec::new();
    let mut begin: usize = start;
    let mut j: usize = start;
    assert(views(segments@) =~= Seq::<Seq<char>>::empty());
    while j < n
        invariant
            s == raw@,
            chars@ == s,
            n == s.len(),
            start <= begin <= j <= n,
            forall|t: int| begin <= t < j ==> s[t] != '/',
            views(segments@) + split_path(s.subrange(begin as int, n as int)) == split_path(
                s.subrange(start as int, n as int),
            ),
        decreases n - j,
    {
        if chars[j] == '/' {
            let ghost p = s.subrange(begin as int, n as int);
            let ghost k = j - begin;
            proof {
                lemma_first_index_of(p, '/', k);
                assert(p.skip(k + 1) =~= s.subrange(j + 1, n as int));
                assert(p.take(k) =~= s.subrange(begin as int, j as int));
            }
            if begin < j {
                let ghost before = segments@;
                let piece = raw.substring_char(begin, j).to_owned();
                segments.push(piece);
                assert(views(segments@) =~= views(before) + seq![p.take(k)]);
            }
            begin = j + 1;
        }
        j += 1;
    }
    let ghost p = s.subrange(begin as int, n as int);
    if begin < n {
        let ghost before = segments@;
        proof {
            lemma_first_index_of(p, '/', p.len() as int);
            assert(p.take(p.len() as int) =~= p);
        }
        let piece = raw.substring_char(begin, n).to_owned();
        segments.push(piece);
        assert(views(segments@) =~= views(before) + seq![p]);
    }
    segments
}

/// Parses a provider identifier. Every string is accepted: one without `://`
/// is all path, and the empty string has no scheme and no segments.
pub fn parse_identifier(raw: &str) -> (parsed: ParsedIdentifier)
    ensures
        parsed@ == parse(raw@),
{
    let chars = chars_of(raw);
    match find_delimiter(&chars) {
        Some(i) => {
            proof {
                lemma_first_delimiter(raw@, i as int);
            }
            let n = chars.len();
            assert(i + 3 <= n);
            let scheme = raw.substring_char(0, i).to_owned();
            let segments = split_segments(raw, &chars, i + 3);
            ParsedIdentifier { scheme, segments, raw: raw.to_owned() }
        },
        None => {
            let segments = split_segments(raw, &chars, 0);
            assert(raw@.subrange(0, raw@.len() as int) =~= raw@);
            ParsedIdentifier { scheme: String::new(), segments, raw: raw.to_owned() }
        },
    }
}

} // verus!
