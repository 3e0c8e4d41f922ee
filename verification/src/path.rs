//! Paths and path segments.
//!
//! Two parsers live here.  Registration paths (`/projects/{id}`) are split
//! on `/` into typed segments: literals, single-segment variables in
//! braces, and a trailing wildcard `{name:.*}`; malformed registration
//! paths are programming errors.  Request paths are normalized instead:
//! empty segments collapse, dot-segments are rejected, and every remaining
//! segment is percent-decoded.

use vstd::prelude::*;

use crate::decode::decoded_of;
use crate::decode::percent_decode_segment;
use crate::util::str_eq;

verus! {

// ---------------------------------------------------------------------
// Finding a character and splitting on a separator
// ---------------------------------------------------------------------

/// The index of the first occurrence of `c` in `s`, or `-1`.
pub open spec fn find_char(s: Seq<char>, c: char) -> int
    decreases s.len(),
{
    if s.len() == 0 {
        -1
    } else if s[0] == c {
        0
    } else {
        let r = find_char(s.drop_first(), c);
        if r == -1 {
            -1
        } else {
            r + 1
        }
    }
}

/// `find_char` returns `-1` exactly when `c` is absent, and otherwise the
/// first index holding `c`.
pub proof fn lemma_find_char(s: Seq<char>, c: char)
    ensures
        find_char(s, c) == -1 ==> forall|i: int| 0 <= i < s.len() ==> s[i] != c,
        find_char(s, c) != -1 ==> 0 <= find_char(s, c) < s.len() && s[find_char(s, c)] == c
            && forall|i: int| 0 <= i < find_char(s, c) ==> s[i] != c,
    decreases s.len(),
{
    if s.len() > 0 && s[0] != c {
        lemma_find_char(s.drop_first(), c);
        let rf = find_char(s.drop_first(), c);
        assert(find_char(s, c) == if rf == -1 {
            -1
        } else {
            rf + 1
        });
        if rf == -1 {
            assert forall|i: int| 0 <= i < s.len() implies s[i] != c by {
                if i > 0 {
                    assert(s.drop_first()[i - 1] == s[i]);
                }
            }
        } else {
            assert(s[rf + 1] == s.drop_first()[rf]);
            assert forall|i: int| 0 <= i < rf + 1 implies s[i] != c by {
                if i > 0 {
                    assert(s.drop_first()[i - 1] == s[i]);
                }
            }
        }
    }
}

/// Find the first occurrence of `c` in a string slice.
pub fn find_char_in(s: &str, c: char) -> (r: Option<usize>)
    ensures
        match r {
            Some(i) => find_char(s@, c) == i,
            None => find_char(s@, c) == -1,
        },
{
    let n = s.unicode_len();
    let mut i: usize = 0;
    while i < n
        invariant
            i <= n,
            n == s@.len(),
            forall|j: int| 0 <= j < i ==> s@[j] != c,
        decreases n - i,
    {
        if s.get_char(i) == c {
            proof {
                lemma_find_char(s@, c);
            }
            return Some(i);
        }
        i = i + 1;
    }
    proof {
        lemma_find_char(s@, c);
        if find_char(s@, c) != -1 {
            assert(s@[find_char(s@, c)] != c);
        }
    }
    None
}

/// The parts of `s` between occurrences of `sep`: always one more part
/// than there are separators, and empty parts where separators meet.
pub open spec fn split_char_seq(s: Seq<char>, sep: char) -> Seq<Seq<char>>
    decreases s.len(),
{
    if s.len() == 0 {
        seq![Seq::<char>::empty()]
    } else if s[0] == sep {
        seq![Seq::<char>::empty()] + split_char_seq(s.drop_first(), sep)
    } else {
        let r = split_char_seq(s.drop_first(), sep);
        seq![seq![s[0]] + r[0]] + r.drop_first()
    }
}

/// Splitting yields at least one part.
pub proof fn lemma_split_len(s: Seq<char>, sep: char)
    ensures
        split_char_seq(s, sep).len() >= 1,
    decreases s.len(),
{
    if s.len() > 0 {
        lemma_split_len(s.drop_first(), sep);
    }
}

/// Splitting peels off everything before the first separator.
pub proof fn lemma_split_at_sep(s: Seq<char>, sep: char)
    ensures
        find_char(s, sep) == -1 ==> split_char_seq(s, sep) == seq![s],
        find_char(s, sep) >= 0 ==> split_char_seq(s, sep) == seq![s.take(find_char(s, sep))]
            + split_char_seq(s.skip(find_char(s, sep) + 1), sep),
    decreases s.len(),
{
    lemma_find_char(s, sep);
    lemma_split_len(s, sep);
    if s.len() == 0 {
        assert(s =~= Seq::<char>::empty());
        assert(split_char_seq(s, sep) =~~= seq![s]);
    } else if s[0] == sep {
        assert(s.skip(1) =~= s.drop_first());
        assert(s.take(0) =~= Seq::<char>::empty());
        assert(split_char_seq(s, sep) =~~= seq![s.take(0)] + split_char_seq(s.skip(1), sep));
    } else {
        lemma_split_at_sep(s.drop_first(), sep);
        lemma_split_len(s.drop_first(), sep);
        lemma_find_char(s.drop_first(), sep);
        let f = find_char(s, sep);
        let rf = find_char(s.drop_first(), sep);
        let r = split_char_seq(s.drop_first(), sep);
        assert(f == if rf == -1 {
            -1
        } else {
            rf + 1
        });
        if f == -1 {
            assert(rf == -1);
            assert(r == seq![s.drop_first()]);
            assert(seq![s[0]] + s.drop_first() =~= s);
            assert(r.drop_first() =~= Seq::<Seq<char>>::empty());
            assert(split_char_seq(s, sep) =~~= seq![s]);
        } else {
            assert(f >= 1);
            assert(rf == f - 1);
            assert(r == seq![s.drop_first().take(f - 1)] + split_char_seq(
                s.drop_first().skip(f - 1 + 1),
                sep,
            ));
            assert(seq![s[0]] + r[0] =~= s.take(f)) by {
                assert(r[0] == s.drop_first().take(f - 1));
                assert(forall|i: int| 0 <= i < f - 1 ==> s.drop_first()[i] == s[i + 1]);
            };
            assert(s.drop_first().skip(f) =~= s.skip(f + 1));
            assert(r.drop_first() =~= split_char_seq(s.drop_first().skip(f), sep)) by {
                assert(r.len() == 1 + split_char_seq(s.drop_first().skip(f), sep).len());
            };
            assert(split_char_seq(s, sep) =~~= seq![s.take(f)] + split_char_seq(
                s.skip(f + 1),
                sep,
            ));
        }
    }
}

/// Split a string slice on a separator character.
pub fn split_on_char<'a>(s: &'a str, sep: char) -> (r: Vec<&'a str>)
    ensures
        r.deep_view() == split_char_seq(s@, sep),
    decreases s@.len(),
{
    let n = s.unicode_len();
    proof {
        lemma_find_char(s@, sep);
        lemma_split_at_sep(s@, sep);
    }
    match find_char_in(s, sep) {
        None => {
            let mut v: Vec<&str> = Vec::new();
            v.push(s);
            proof {
                assert(v.deep_view() =~= seq![s@]);
            }
            v
        },
        Some(i) => {
            let first = s.substring_char(0, i);
            let rest = s.substring_char(i + 1, n);
            let mut v = split_on_char(rest, sep);
            v.insert(0, first);
            proof {
                assert(first@ =~= s@.take(i as int));
                assert(rest@ =~= s@.skip(i + 1));
                assert(v.deep_view() =~= seq![s@.take(i as int)] + split_char_seq(
                    s@.skip(i + 1),
                    sep,
                ));
            }
            v
        },
    }
}

// ---------------------------------------------------------------------
// Registration-path segments
// ---------------------------------------------------------------------

/// A segment of a registration path: a literal string, a variable that
/// matches one segment, or a wildcard variable that matches every
/// remaining segment.
#[derive(Debug, Clone, PartialEq, Eq)]
pub enum PathSegment {
    /// a path segment for a literal string
    Literal(String),
    /// a path segment for a variable
    VarnameSegment(String),
    /// a path segment that matches all remaining components for a variable
    VarnameWildcard(String),
}

/// The mathematical value of a [`PathSegment`].
pub enum PathSegmentView {
    Literal(Seq<char>),
    VarnameSegment(Seq<char>),
    VarnameWildcard(Seq<char>),
}

impl View for PathSegment {
    type V = PathSegmentView;

    open spec fn view(&self) -> PathSegmentView {
        match self {
            PathSegment::Literal(s) => PathSegmentView::Literal(s@),
            PathSegment::VarnameSegment(s) => PathSegmentView::VarnameSegment(s@),
            PathSegment::VarnameWildcard(s) => PathSegmentView::VarnameWildcard(s@),
        }
    }
}

/// Whether a raw segment engages the brace syntax at either end.
pub open spec fn seg_braced(s: Seq<char>) -> bool {
    s.len() > 0 && (s[0] == '{' || s.last() == '}')
}

/// The text between the braces of a braced segment.
pub open spec fn seg_inner(s: Seq<char>) -> Seq<char> {
    s.subrange(1, s.len() - 1)
}

/// A raw registration segment is valid when it either uses no braces, or
/// is fully braced with a non-empty variable name and, if a pattern is
/// given after a colon, the pattern `.*`.
pub open spec fn valid_route_segment(s: Seq<char>) -> bool {
    seg_braced(s) ==> {
        &&& s[0] == '{'
        &&& s.last() == '}'
        &&& {
            let inner = seg_inner(s);
            let ci = find_char(inner, ':');
            if ci == -1 {
                inner.len() > 0
            } else {
                ci > 0 && inner.skip(ci + 1) == seq!['.', '*']
            }
        }
    }
}

/// The segment a valid raw registration segment denotes.
pub open spec fn segment_view(s: Seq<char>) -> PathSegmentView {
    if seg_braced(s) {
        let inner = seg_inner(s);
        let ci = find_char(inner, ':');
        if ci == -1 {
            PathSegmentView::VarnameSegment(inner)
        } else {
            PathSegmentView::VarnameWildcard(inner.take(ci))
        }
    } else {
        PathSegmentView::Literal(s)
    }
}

/// A programming error in a registration path or in the routes registered
/// on it.  These abort startup; they are never returned to HTTP clients.
#[derive(Debug, Clone, PartialEq, Eq)]
pub enum RouteError {
    /// the path does not begin with `/`
    NotAbsolute { path: String },
    /// an interior segment of the path is empty
    EmptySegment { path: String },
    /// a braced segment does not begin with `{`
    MissingLeadingBrace,
    /// a braced segment does not end with `}`
    MissingTrailingBrace,
    /// a braced segment has nothing before its colon
    EmptyVariableName,
    /// a pattern other than `.*` follows the colon
    UnsupportedPattern,
    /// a position already routed under one variable name is reused under
    /// another
    InconsistentVariableName { path: String, new_name: String, old_name: String },
    /// segments follow a wildcard variable
    SegmentsAfterWildcard { path: String, name: String },
    /// one variable name is used twice in a single path
    DuplicateVariableName { path: String, name: String },
    /// a second route for the same path, method and version predicate
    DuplicateRoute { path: String, method: String },
    /// a second route for the same path and method with an overlapping
    /// version predicate
    OverlappingVersions { path: String, method: String },
}

/// The mathematical value of a [`RouteError`].
pub enum RouteErrorView {
    NotAbsolute(Seq<char>),
    EmptySegment(Seq<char>),
    MissingLeadingBrace,
    MissingTrailingBrace,
    EmptyVariableName,
    UnsupportedPattern,
    InconsistentVariableName(Seq<char>, Seq<char>, Seq<char>),
    SegmentsAfterWildcard(Seq<char>, Seq<char>),
    DuplicateVariableName(Seq<char>, Seq<char>),
    DuplicateRoute(Seq<char>, Seq<char>),
    OverlappingVersions(Seq<char>, Seq<char>),
}

impl View for RouteError {
    type V = RouteErrorView;

    open spec fn view(&self) -> RouteErrorView {
        match self {
            RouteError::NotAbsolute { path } => RouteErrorView::NotAbsolute(path@),
            RouteError::EmptySegment { path } => RouteErrorView::EmptySegment(path@),
            RouteError::MissingLeadingBrace => RouteErrorView::MissingLeadingBrace,
            RouteError::MissingTrailingBrace => RouteErrorView::MissingTrailingBrace,
            RouteError::EmptyVariableName => RouteErrorView::EmptyVariableName,
            RouteError::UnsupportedPattern => RouteErrorView::UnsupportedPattern,
            RouteError::InconsistentVariableName { path, new_name, old_name } =>
                RouteErrorView::InconsistentVariableName(path@, new_name@, old_name@),
            RouteError::SegmentsAfterWildcard { path, name } =>
                RouteErrorView::SegmentsAfterWildcard(path@, name@),
            RouteError::DuplicateVariableName { path, name } =>
                RouteErrorView::DuplicateVariableName(path@, name@),
            RouteError::DuplicateRoute { path, method } => RouteErrorView::DuplicateRoute(
                path@,
                method@,
            ),
            RouteError::OverlappingVersions { path, method } =>
                RouteErrorView::OverlappingVersions(path@, method@),
        }
    }
}

/// The first complaint about a malformed braced segment: the brace that
/// is missing, the empty variable name, or the unsupported pattern.
pub open spec fn seg_err_view(s: Seq<char>) -> RouteErrorView {
    if s[0] != '{' {
        RouteErrorView::MissingLeadingBrace
    } else if s.last() != '}' {
        RouteErrorView::MissingTrailingBrace
    } else {
        let inner = seg_inner(s);
        let ci = find_char(inner, ':');
        if ci <= 0 {
            RouteErrorView::EmptyVariableName
        } else {
            RouteErrorView::UnsupportedPattern
        }
    }
}


/// How a programming error reads when registration aborts startup.
pub open spec fn route_error_message(e: RouteErrorView) -> Seq<char> {
    match e {
        RouteErrorView::NotAbsolute(path) => "route paths must begin with a '/': '"@ + path
            + "'"@,
        RouteErrorView::EmptySegment(path) => "path segments may not be empty: '"@ + path
            + "'"@,
        RouteErrorView::MissingLeadingBrace =>
            "HTTP URI path segment variable missing leading \"{\""@,
        RouteErrorView::MissingTrailingBrace =>
            "HTTP URI path segment variable missing trailing \"}\""@,
        RouteErrorView::EmptyVariableName =>
            "HTTP URI path segment variable name must not be empty"@,
        RouteErrorView::UnsupportedPattern =>
            "Only the pattern '.*' is currently supported"@,
        RouteErrorView::InconsistentVariableName(path, new_name, old_name) => "URI path \""@
            + path + "\": attempted to use variable name \""@ + new_name
            + "\", but a different name (\""@ + old_name
            + "\") has already been used for this"@,
        RouteErrorView::SegmentsAfterWildcard(path, name) => "URI path \""@ + path
            + "\": attempted to match segments after the wildcard variable \""@ + name
            + "\""@,
        RouteErrorView::DuplicateVariableName(path, name) => "URI path \""@ + path
            + "\": variable name \""@ + name + "\" is used more than once"@,
        RouteErrorView::DuplicateRoute(path, method) => "URI path \""@ + path
            + "\": attempted to create duplicate route for method \""@ + method + "\""@,
        RouteErrorView::OverlappingVersions(path, method) => "URI path \""@ + path
            + "\": attempted to register multiple handlers for method \""@ + method
            + "\" with overlapping version ranges"@,
    }
}

impl RouteError {
    /// The message that describes the programming error, quoting the
    /// offending path and the conflicting element.
    pub fn message(&self) -> (m: String)
        ensures
            m@ == route_error_message(self@),
    {
        proof {
            reveal_strlit("route paths must begin with a '/': '");
            reveal_strlit("path segments may not be empty: '");
            reveal_strlit("'");
            reveal_strlit("HTTP URI path segment variable missing leading \"{\"");
            reveal_strlit("HTTP URI path segment variable missing trailing \"}\"");
            reveal_strlit("HTTP URI path segment variable name must not be empty");
            reveal_strlit("Only the pattern '.*' is currently supported");
            reveal_strlit("URI path \"");
            reveal_strlit("\": attempted to use variable name \"");
            reveal_strlit("\", but a different name (\"");
            reveal_strlit("\") has already been used for this");
            reveal_strlit("\": attempted to match segments after the wildcard variable \"");
            reveal_strlit("\"");
            reveal_strlit("\": variable name \"");
            reveal_strlit("\" is used more than once");
            reveal_strlit("\": attempted to create duplicate route for method \"");
            reveal_strlit("\": attempted to register multiple handlers for method \"");
            reveal_strlit("\" with overlapping version ranges");
        }
        match self {
            RouteError::NotAbsolute { path } => {
                let m = String::from_str("route paths must begin with a '/': '");
                let m = m.concat(path.as_str());
                m.concat("'")
            },
            RouteError::EmptySegment { path } => {
                let m = String::from_str("path segments may not be empty: '");
                let m = m.concat(path.as_str());
                m.concat("'")
            },
            RouteError::MissingLeadingBrace => String::from_str(
                "HTTP URI path segment variable missing leading \"{\"",
            ),
            RouteError::MissingTrailingBrace => String::from_str(
                "HTTP URI path segment variable missing trailing \"}\"",
            ),
            RouteError::EmptyVariableName => String::from_str(
                "HTTP URI path segment variable name must not be empty",
            ),
            RouteError::UnsupportedPattern => String::from_str(
                "Only the pattern '.*' is currently supported",
            ),
            RouteError::InconsistentVariableName { path, new_name, old_name } => {
                let m = String::from_str("URI path \"");
                let m = m.concat(path.as_str());
                let m = m.concat("\": attempted to use variable name \"");
                let m = m.concat(new_name.as_str());
                let m = m.concat("\", but a different name (\"");
                let m = m.concat(old_name.as_str());
                m.concat("\") has already been used for this")
            },
            RouteError::SegmentsAfterWildcard { path, name } => {
                let m = String::from_str("URI path \"");
                let m = m.concat(path.as_str());
                let m = m.concat(
                    "\": attempted to match segments after the wildcard variable \"",
                );
                let m = m.concat(name.as_str());
                m.concat("\"")
            },
            RouteError::DuplicateVariableName { path, name } => {
                let m = String::from_str("URI path \"");
                let m = m.concat(path.as_str());
                let m = m.concat("\": variable name \"");
                let m = m.concat(name.as_str());
                m.concat("\" is used more than once")
            },
            RouteError::DuplicateRoute { path, method } => {
                let m = String::from_str("URI path \"");
                let m = m.concat(path.as_str());
                let m = m.concat("\": attempted to create duplicate route for method \"");
                let m = m.concat(method.as_str());
                m.concat("\"")
            },
            RouteError::OverlappingVersions { path, method } => {
                let m = String::from_str("URI path \"");
                let m = m.concat(path.as_str());
                let m = m.concat(
                    "\": attempted to register multiple handlers for method \"",
                );
                let m = m.concat(method.as_str());
                m.concat("\" with overlapping version ranges")
            },
        }
    }
}

/// Classify one raw registration segment, reporting the first way in which
/// it is malformed.
pub fn try_segment(segment: &str) -> (r: Result<PathSegment, RouteError>)
    ensures
        match r {
            Ok(ps) => valid_route_segment(segment@) && ps@ == segment_view(segment@),
            Err(e) => !valid_route_segment(segment@) && seg_braced(segment@) && e@
                == seg_err_view(segment@),
        },
{
    let n = segment.unicode_len();
    if n == 0 {
        let s = String::new();
        proof {
            assert(s@ =~= segment@);
        }
        return Ok(PathSegment::Literal(s));
    }
    let starts = segment.get_char(0) == '{';
    let ends = segment.get_char(n - 1) == '}';
    if !starts && !ends {
        return Ok(PathSegment::Literal(String::from_str(segment)));
    }
    if !starts {
        return Err(RouteError::MissingLeadingBrace);
    }
    if !ends {
        return Err(RouteError::MissingTrailingBrace);
    }
    let inner = segment.substring_char(1, n - 1);
    proof {
        assert(inner@ =~= seg_inner(segment@));
    }
    match find_char_in(inner, ':') {
        None => {
            if inner.unicode_len() == 0 {
                Err(RouteError::EmptyVariableName)
            } else {
                Ok(PathSegment::VarnameSegment(String::from_str(inner)))
            }
        },
        Some(ci) => {
            if ci == 0 {
                proof {
                    lemma_find_char(inner@, ':');
                }
                return Err(RouteError::EmptyVariableName);
            }
            proof {
                lemma_find_char(inner@, ':');
            }
            let name = inner.substring_char(0, ci);
            let pat = inner.substring_char(ci + 1, inner.unicode_len());
            proof {
                assert(name@ =~= seg_inner(segment@).take(ci as int));
                assert(pat@ =~= seg_inner(segment@).skip(ci + 1));
                reveal_strlit(".*");
            }
            if str_eq(pat, ".*") {
                proof {
                    assert(pat@ =~= seq!['.', '*']);
                }
                Ok(PathSegment::VarnameWildcard(String::from_str(name)))
            } else {
                proof {
                    assert(seg_inner(segment@).skip(ci + 1) != seq!['.', '*']) by {
                        assert(".*"@ =~= seq!['.', '*']);
                    };
                }
                Err(RouteError::UnsupportedPattern)
            }
        },
    }
}

impl PathSegment {
    /// Classify a raw registration segment known to be well-formed:
    /// determine whether it is a literal, a variable, or a wildcard.
    pub fn from(segment: &str) -> (r: PathSegment)
        requires
            valid_route_segment(segment@),
        ensures
            r@ == segment_view(segment@),
    {
        match try_segment(segment) {
            Ok(ps) => ps,
            Err(_) => vstd::pervasive::unreached(),
        }
    }
}

// ---------------------------------------------------------------------
// Registration paths
// ---------------------------------------------------------------------

/// The raw segments of a registration path: the parts between slashes,
/// without the empty part before the leading slash, and without a single
/// trailing empty part (a trailing slash is tolerated and ignored).
pub open spec fn route_parts(p: Seq<char>) -> Seq<Seq<char>> {
    let parts = split_char_seq(p, '/').drop_first();
    if parts.len() > 0 && parts.last().len() == 0 {
        parts.drop_last()
    } else {
        parts
    }
}

/// A registration path must begin with `/`, and only its final part may be
/// empty.
pub open spec fn valid_route_path(p: Seq<char>) -> bool {
    &&& p.len() > 0
    &&& p[0] == '/'
    &&& forall|i: int|
        0 <= i < split_char_seq(p, '/').drop_first().len() - 1
            ==> #[trigger] split_char_seq(p, '/').drop_first()[i].len() > 0
}

/// Split a registration path into raw segments, reporting a path that does
/// not begin with `/` or has an empty interior segment.
pub fn try_route_path<'a>(path: &'a str) -> (r: Result<Vec<&'a str>, RouteError>)
    ensures
        match r {
            Ok(v) => valid_route_path(path@) && v.deep_view() == route_parts(path@),
            Err(e) => !valid_route_path(path@) && match e {
                RouteError::NotAbsolute { path: p } => p@ == path@ && !(path@.len() > 0
                    && path@[0] == '/'),
                RouteError::EmptySegment { path: p } => p@ == path@ && path@.len() > 0
                    && path@[0] == '/',
                _ => false,
            },
        },
{
    let n = path.unicode_len();
    if n == 0 || path.get_char(0) != '/' {
        return Err(RouteError::NotAbsolute { path: String::from_str(path) });
    }
    let mut parts = split_on_char(path, '/');
    proof {
        lemma_split_len(path@, '/');
        lemma_split_at_sep(path@, '/');
        lemma_find_char(path@, '/');
        assert(find_char(path@, '/') == 0);
        assert(parts.deep_view().len() >= 2);
    }
    let _lead = parts.remove(0);
    let ghost whole = parts.deep_view();
    proof {
        assert(whole =~= split_char_seq(path@, '/').drop_first());
    }
    let mut i: usize = 0;
    while i < parts.len() - 1
        invariant
            whole == parts.deep_view(),
            whole == split_char_seq(path@, '/').drop_first(),
            i <= parts@.len(),
            parts@.len() >= 1,
            forall|j: int| 0 <= j < i ==> #[trigger] whole[j].len() > 0,
            path@.len() > 0 && path@[0] == '/',
        decreases parts@.len() - i,
    {
        if parts[i].unicode_len() == 0 {
            proof {
                assert(split_char_seq(path@, '/').drop_first()[i as int].len() == 0);
            }
            return Err(RouteError::EmptySegment { path: String::from_str(path) });
        }
        i = i + 1;
    }
    if parts.len() > 0 && parts[parts.len() - 1].unicode_len() == 0 {
        let _last = parts.pop();
        proof {
            assert(parts.deep_view() =~= whole.drop_last());
        }
    }
    Ok(parts)
}

/// Split a registration path known to be well-formed into raw segments.
pub fn route_path_to_segments<'a>(path: &'a str) -> (r: Vec<&'a str>)
    requires
        valid_route_path(path@),
    ensures
        r.deep_view() == route_parts(path@),
{
    match try_route_path(path) {
        Ok(v) => v,
        Err(_) => vstd::pervasive::unreached(),
    }
}

// ---------------------------------------------------------------------
// Request paths
// ---------------------------------------------------------------------

/// A path from an HTTP request, as opposed to a path that defines a route.
#[derive(Debug, Clone, Copy)]
pub struct InputPath<'a>(pub &'a str);

impl<'a> View for InputPath<'a> {
    type V = Seq<char>;

    closed spec fn view(&self) -> Seq<char> {
        self.0@
    }
}

impl<'a> From<&'a str> for InputPath<'a> {
    fn from(s: &'a str) -> (r: Self) {
        InputPath(s)
    }
}

impl<'a> vstd::std_specs::convert::FromSpecImpl<&'a str> for InputPath<'a> {
    open spec fn obeys_from_spec() -> bool {
        true
    }

    open spec fn from_spec(s: &'a str) -> Self {
        InputPath(s)
    }
}

/// Why a request path was rejected.
#[derive(Debug, Clone, Copy, PartialEq, Eq, Structural)]
pub enum InputError {
    /// the path holds a `.` or `..` segment
    DotSegment,
    /// a segment percent-decodes to bytes that are not UTF-8
    InvalidEncoding,
}

/// Normalize the raw parts of a request path: empty parts are dropped,
/// dot-segments are rejected, and every remaining part is percent-decoded;
/// the first offending part (in path order) decides the error.
pub open spec fn decode_parts(parts: Seq<Seq<char>>) -> Result<Seq<Seq<char>>, InputError>
    decreases parts.len(),
{
    if parts.len() == 0 {
        Ok(Seq::empty())
    } else {
        let h = parts[0];
        if h.len() == 0 {
            decode_parts(parts.drop_first())
        } else if h == seq!['.'] || h == seq!['.', '.'] {
            Err(InputError::DotSegment)
        } else {
            match decoded_of(h) {
                None => Err(InputError::InvalidEncoding),
                Some(d) => match decode_parts(parts.drop_first()) {
                    Err(e) => Err(e),
                    Ok(rest) => Ok(seq![d] + rest),
                },
            }
        }
    }
}

/// The normalized segments of a request path, or the reason it is
/// rejected.
pub open spec fn input_segments_spec(p: Seq<char>) -> Result<Seq<Seq<char>>, InputError> {
    decode_parts(split_char_seq(p, '/'))
}

/// The mathematical value of a parse result.
pub open spec fn segments_result_view(r: Result<Vec<String>, InputError>) -> Result<
    Seq<Seq<char>>,
    InputError,
> {
    match r {
        Ok(v) => Ok(v.deep_view()),
        Err(e) => Err(e),
    }
}

fn decode_from(parts: &Vec<&str>, i: usize) -> (r: Result<Vec<String>, InputError>)
    requires
        i <= parts@.len(),
    ensures
        segments_result_view(r) == decode_parts(parts.deep_view().skip(i as int)),
    decreases parts@.len() - i,
{
    proof {
        reveal_strlit(".");
        reveal_strlit("..");
    }
    if i == parts.len() {
        let r: Vec<String> = Vec::new();
        proof {
            assert(parts.deep_view().skip(i as int) =~= Seq::<Seq<char>>::empty());
            assert(r.deep_view() =~= Seq::<Seq<char>>::empty());
        }
        Ok(r)
    } else {
        let h: &str = parts[i];
        let ghost tail = parts.deep_view().skip(i as int);
        proof {
            assert(tail[0] == h@);
            assert(tail.drop_first() =~= parts.deep_view().skip(i + 1));
        }
        if h.unicode_len() == 0 {
            decode_from(parts, i + 1)
        } else if str_eq(h, ".") || str_eq(h, "..") {
            proof {
                assert("."@ =~= seq!['.']);
                assert(".."@ =~= seq!['.', '.']);
            }
            Err(InputError::DotSegment)
        } else {
            proof {
                assert(h@ != seq!['.'] && h@ != seq!['.', '.']) by {
                    assert("."@ =~= seq!['.']);
                    assert(".."@ =~= seq!['.', '.']);
                };
            }
            match percent_decode_segment(h) {
                None => Err(InputError::InvalidEncoding),
                Some(d) => match decode_from(parts, i + 1) {
                    Err(e) => Err(e),
                    Ok(mut v) => {
                        let ghost rest = v.deep_view();
                        v.insert(0, d);
                        proof {
                            assert(v.deep_view() =~= seq![d@] + rest);
                        }
                        Ok(v)
                    },
                },
            }
        }
    }
}

/// Any two parses of the same request path agree: the parser's contract
/// pins its result to `input_segments_spec`, so parsing a path twice
/// yields the same segment list.
pub proof fn lemma_parse_deterministic(
    p: Seq<char>,
    r1: Result<Seq<Seq<char>>, InputError>,
    r2: Result<Seq<Seq<char>>, InputError>,
)
    requires
        r1 == input_segments_spec(p),
        r2 == input_segments_spec(p),
    ensures
        r1 == r2,
{
}

/// Normalize a request path into decoded segments: split on `/`, drop
/// empty segments, reject dot-segments, percent-decode the rest.
pub fn input_path_to_segments(path: &InputPath) -> (r: Result<Vec<String>, InputError>)
    ensures
        segments_result_view(r) == input_segments_spec(path@),
{
    let parts = split_on_char(path.0, '/');
    proof {
        assert(parts.deep_view().skip(0) =~= parts.deep_view());
    }
    decode_from(&parts, 0)
}

} // verus!
