//! Scene paths: hierarchical, content-addressed identity for scene nodes.
//!
//! A path is rendered as a slash-separated string, `/Root/Header/Title`. The
//! root is `/`. Each segment is a name, a name with a disambiguating index
//! (`Title#2`), or a sibling-order key in brackets (`[b]`).
use vstd::prelude::*;

use crate::text::{
    chars_of, decimal, is_digit, lemma_u16_round_trip, parse_u16, push_decimal, same_text,
    string_of, u16_of,
};

verus! {

/// Sibling-order key of a node within its parent.
#[derive(Debug, PartialEq, Eq, Hash, Default)]
pub struct OrderKey(pub String);

impl View for OrderKey {
    type V = Seq<char>;

    open spec fn view(&self) -> Seq<char> {
        self.0@
    }
}

impl Clone for OrderKey {
    fn clone(&self) -> (r: Self)
        ensures
            r@ == self@,
    {
        OrderKey(self.0.clone())
    }
}

/// A single segment of a [`ScenePath`].
///
/// A node whose variant carries a human-facing name gets a `Named` segment; one
/// without a name falls back to its sibling-order key. Same-named siblings are
/// told apart by `index`, which is 0 for the first of them.
#[derive(Debug, PartialEq, Eq, Hash)]
pub enum PathPart {
    /// The variant carries a human-facing name.
    Named { name: String, index: u16 },
    /// The variant has no human-facing name: use the sibling-order key.
    Ordered { key: OrderKey },
}

/// What a [`PathPart`] holds.
pub enum PathPartView {
    Named { name: Seq<char>, index: u16 },
    Ordered { key: Seq<char> },
}

impl View for PathPart {
    type V = PathPartView;

    open spec fn view(&self) -> PathPartView {
        match self {
            PathPart::Named { name, index } => PathPartView::Named { name: name@, index: *index },
            PathPart::Ordered { key } => PathPartView::Ordered { key: key@ },
        }
    }
}

impl Clone for PathPart {
    fn clone(&self) -> (r: Self)
        ensures
            r@ == self@,
    {
        match self {
            PathPart::Named { name, index } => PathPart::Named {
                name: name.clone(),
                index: *index,
            },
            PathPart::Ordered { key } => PathPart::Ordered { key: key.clone() },
        }
    }
}

/// What a sequence of segments holds.
pub open spec fn part_views(parts: Seq<PathPart>) -> Seq<PathPartView> {
    parts.map_values(|p: PathPart| p@)
}

/// Hierarchical, content-addressed identity for a scene node. The empty path is
/// the scene root, the synthetic parent of all top-level nodes.
#[derive(Debug, PartialEq, Eq, Hash, Default)]
pub struct ScenePath {
    parts: Vec<PathPart>,
}

impl View for ScenePath {
    type V = Seq<PathPartView>;

    closed spec fn view(&self) -> Seq<PathPartView> {
        part_views(self.parts@)
    }
}

/// Why a string is not a scene path.
#[derive(Clone, Copy, Debug, PartialEq, Eq, Structural)]
pub enum ParsePathError {
    /// The path did not begin with `/`.
    MissingLeadingSlash,
    /// A backslash appeared without a following character to escape.
    TrailingBackslash,
    /// An empty segment between slashes.
    EmptySegment,
    /// `[` without the closing `]` at the segment's end.
    MalformedOrdered,
    /// The index after `#` was not a `u16`.
    BadIndex,
}

impl ParsePathError {
    pub open spec fn message(self) -> Seq<char> {
        match self {
            ParsePathError::MissingLeadingSlash => "path must start with '/'"@,
            ParsePathError::TrailingBackslash => "trailing backslash"@,
            ParsePathError::EmptySegment => "empty path segment"@,
            ParsePathError::MalformedOrdered => "malformed ordered segment"@,
            ParsePathError::BadIndex => "invalid index after '#'"@,
        }
    }

    /// The human-readable message.
    pub fn to_string(&self) -> (r: String)
        ensures
            r@ == self.message(),
    {
        match self {
            ParsePathError::MissingLeadingSlash => "path must start with '/'".to_owned(),
            ParsePathError::TrailingBackslash => "trailing backslash".to_owned(),
            ParsePathError::EmptySegment => "empty path segment".to_owned(),
            ParsePathError::MalformedOrdered => "malformed ordered segment".to_owned(),
            ParsePathError::BadIndex => "invalid index after '#'".to_owned(),
        }
    }
}

// ---------------------------------------------------------------------------
// Rendering
// ---------------------------------------------------------------------------

/// The characters that are escaped inside a name.
pub open spec fn name_escapes() -> Seq<char> {
    seq!['/', '#', '[', ']', '\\']
}

/// The characters that are escaped inside an order key.
pub open spec fn key_escapes() -> Seq<char> {
    seq![']', '\\']
}

/// One character as it appears in a rendered segment.
pub open spec fn escaped_char(c: char, escapes: Seq<char>) -> Seq<char> {
    if escapes.contains(c) {
        seq!['\\', c]
    } else {
        seq![c]
    }
}

/// `s` with a backslash in front of every character of `escapes`.
pub open spec fn escaped(s: Seq<char>, escapes: Seq<char>) -> Seq<char>
    decreases s.len(),
{
    if s.len() == 0 {
        seq![]
    } else {
        escaped_char(s[0], escapes) + escaped(s.skip(1), escapes)
    }
}

/// The suffix that tells same-named siblings apart; the first has none.
pub open spec fn index_suffix(index: u16) -> Seq<char> {
    if index == 0 {
        seq![]
    } else {
        seq!['#'] + decimal(index as nat)
    }
}

/// A segment as it appears in a rendered path.
pub open spec fn rendered_part(part: PathPartView) -> Seq<char> {
    match part {
        PathPartView::Named { name, index } => escaped(name, name_escapes()) + index_suffix(index),
        PathPartView::Ordered { key } => seq!['['] + escaped(key, key_escapes()) + seq![']'],
    }
}

/// Every segment, each with a slash in front.
pub open spec fn rendered_parts(parts: Seq<PathPartView>) -> Seq<char>
    decreases parts.len(),
{
    if parts.len() == 0 {
        seq![]
    } else {
        seq!['/'] + rendered_part(parts[0]) + rendered_parts(parts.skip(1))
    }
}

/// A path as a string: `/` for the root, otherwise one `/segment` per part.
pub open spec fn rendered_path(parts: Seq<PathPartView>) -> Seq<char> {
    if parts.len() == 0 {
        seq!['/']
    } else {
        rendered_parts(parts)
    }
}

/// Appends `s` to `out`, with a backslash in front of every character of `escape`.
fn write_escaped(out: &mut String, s: &str, escape: &Vec<char>)
    ensures
        final(out)@ == old(out)@ + escaped(s@, escape@),
{
    let chars = chars_of(s);
    let mut i: usize = 0;
    assert(chars@.skip(0) =~= s@);
    while i < chars.len()
        invariant
            i <= chars@.len(),
            out@ + escaped(chars@.skip(i as int), escape@) == old(out)@ + escaped(s@, escape@),
        decreases chars@.len() - i,
    {
        let c = chars[i];
        let ghost rest = chars@.skip(i as int);
        assert(rest.skip(1) =~= chars@.skip(i + 1));
        let ghost before = out@;
        if holds_char(escape, c) {
            out.push('\\');
            out.push(c);
        } else {
            out.push(c);
        }
        assert(out@ =~= before + escaped_char(c, escape@));
        assert(out@ + escaped(rest.skip(1), escape@) =~= before + escaped(rest, escape@));
        i = i + 1;
    }
    assert(out@ + escaped(chars@.skip(i as int), escape@) =~= out@);
}

/// Whether `c` is among `chars`.
fn holds_char(chars: &Vec<char>, c: char) -> (r: bool)
    ensures
        r == chars@.contains(c),
{
    let mut i: usize = 0;
    while i < chars.len()
        invariant
            i <= chars@.len(),
            forall|k: int| 0 <= k < i ==> chars@[k] != c,
        decreases chars@.len() - i,
    {
        if chars[i] == c {
            return true;
        }
        i = i + 1;
    }
    false
}

impl PathPart {
    /// Appends the rendered segment to `out`.
    fn write_to(&self, out: &mut String)
        ensures
            final(out)@ == old(out)@ + rendered_part(self@),
    {
        match self {
            PathPart::Named { name, index } => {
                let escapes = vec!['/', '#', '[', ']', '\\'];
                assert(escapes@ =~= name_escapes());
                write_escaped(out, name.as_str(), &escapes);
                if *index != 0 {
                    out.push('#');
                    push_decimal(out, *index as u64);
                }
                assert(out@ =~= old(out)@ + rendered_part(self@));
            },
            PathPart::Ordered { key } => {
                let escapes = vec![']', '\\'];
                assert(escapes@ =~= key_escapes());
                out.push('[');
                write_escaped(out, key.0.as_str(), &escapes);
                out.push(']');
                assert(out@ =~= old(out)@ + rendered_part(self@));
            },
        }
    }

    /// The rendered segment: `name`, `name#index` or `[key]`.
    pub fn to_string(&self) -> (r: String)
        ensures
            r@ == rendered_part(self@),
    {
        let mut r = String::new();
        self.write_to(&mut r);
        assert(r@ =~= rendered_part(self@));
        r
    }
}

// ---------------------------------------------------------------------------
// Parsing
// ---------------------------------------------------------------------------

/// `s` with each `\X` collapsed to `X`.
pub open spec fn unescaped(s: Seq<char>) -> Result<Seq<char>, ParsePathError>
    decreases s.len(),
{
    if s.len() == 0 {
        Ok(seq![])
    } else if s[0] == '\\' {
        if s.len() == 1 {
            Err(ParsePathError::TrailingBackslash)
        } else {
            prefixed(seq![s[1]], unescaped(s.skip(2)))
        }
    } else {
        prefixed(seq![s[0]], unescaped(s.skip(1)))
    }
}

/// `head` in front of a successful result.
pub open spec fn prefixed<T>(head: Seq<T>, rest: Result<Seq<T>, ParsePathError>) -> Result<
    Seq<T>,
    ParsePathError,
> {
    match rest {
        Ok(tail) => Ok(head + tail),
        Err(e) => Err(e),
    }
}

/// Whether a bracket is open behind `c`, a character of a segment that began
/// with `current`: one opens at the segment's start, and the next unescaped `]`
/// closes it.
pub open spec fn opens(open: bool, current: Seq<char>, c: char) -> bool {
    if open {
        c != ']'
    } else {
        current.len() == 0 && c == '['
    }
}

/// `s` split at its unescaped `delim`s, where `current` is the segment begun
/// before `s` and `open` tells whether it has an open bracket; within a bracket
/// nothing is split. Escapes stay in place; no segment may be empty.
pub open spec fn segments_from(
    current: Seq<char>,
    s: Seq<char>,
    delim: char,
    open: bool,
) -> Result<Seq<Seq<char>>, ParsePathError>
    decreases s.len(),
{
    if s.len() == 0 {
        if current.len() == 0 {
            Err(ParsePathError::EmptySegment)
        } else {
            Ok(seq![current])
        }
    } else if s[0] == '\\' {
        if s.len() == 1 {
            Err(ParsePathError::TrailingBackslash)
        } else {
            segments_from(current + seq!['\\', s[1]], s.skip(2), delim, open)
        }
    } else if s[0] == delim && !open {
        if current.len() == 0 {
            Err(ParsePathError::EmptySegment)
        } else {
            prefixed(seq![current], segments_from(seq![], s.skip(1), delim, false))
        }
    } else {
        segments_from(current.push(s[0]), s.skip(1), delim, opens(open, current, s[0]))
    }
}

/// How many characters stand before the first unescaped `]` of `s`.
pub open spec fn bracket_end(s: Seq<char>) -> Option<nat>
    decreases s.len(),
{
    if s.len() == 0 {
        None
    } else if s[0] == ']' {
        Some(0)
    } else if s[0] == '\\' {
        if s.len() == 1 {
            None
        } else {
            farther(2, bracket_end(s.skip(2)))
        }
    } else {
        farther(1, bracket_end(s.skip(1)))
    }
}

/// A count raised by `n`.
pub open spec fn farther(n: nat, end: Option<nat>) -> Option<nat> {
    match end {
        Some(k) => Some(k + n),
        None => None,
    }
}

/// The text before the first unescaped `#` of `s`, and the text after it where
/// there is one.
pub open spec fn hash_split(s: Seq<char>) -> Result<
    (Seq<char>, Option<Seq<char>>),
    ParsePathError,
>
    decreases s.len(),
{
    if s.len() == 0 {
        Ok((seq![], None))
    } else if s[0] == '\\' {
        if s.len() == 1 {
            Err(ParsePathError::TrailingBackslash)
        } else {
            hash_prefixed(seq!['\\', s[1]], hash_split(s.skip(2)))
        }
    } else if s[0] == '#' {
        Ok((seq![], Some(s.skip(1))))
    } else {
        hash_prefixed(seq![s[0]], hash_split(s.skip(1)))
    }
}

pub open spec fn hash_prefixed(
    head: Seq<char>,
    rest: Result<(Seq<char>, Option<Seq<char>>), ParsePathError>,
) -> Result<(Seq<char>, Option<Seq<char>>), ParsePathError> {
    match rest {
        Ok((before, after)) => Ok((head + before, after)),
        Err(e) => Err(e),
    }
}

/// The segment that the still-escaped text `seg` spells. One that starts with
/// `[` must end with the unescaped `]` that closes it.
pub open spec fn parsed_part(seg: Seq<char>) -> Result<PathPartView, ParsePathError> {
    if seg.len() == 0 {
        Err(ParsePathError::EmptySegment)
    } else if seg[0] == '[' {
        if bracket_end(seg.skip(1)) != Some((seg.len() - 2) as nat) {
            Err(ParsePathError::MalformedOrdered)
        } else {
            match unescaped(seg.subrange(1, seg.len() - 1)) {
                Ok(key) => Ok(PathPartView::Ordered { key }),
                Err(e) => Err(e),
            }
        }
    } else {
        match hash_split(seg) {
            Err(e) => Err(e),
            Ok((before, after)) => match unescaped(before) {
                Err(e) => Err(e),
                Ok(name) => match after {
                    None => Ok(PathPartView::Named { name, index: 0 }),
                    Some(digits) => match u16_of(digits) {
                        Some(index) => Ok(PathPartView::Named { name, index }),
                        None => Err(ParsePathError::BadIndex),
                    },
                },
            },
        }
    }
}

/// The segments that the texts spell; the first that spells none decides.
pub open spec fn parsed_parts(segments: Seq<Seq<char>>) -> Result<
    Seq<PathPartView>,
    ParsePathError,
>
    decreases segments.len(),
{
    if segments.len() == 0 {
        Ok(seq![])
    } else {
        match parsed_part(segments[0]) {
            Err(e) => Err(e),
            Ok(part) => prefixed(seq![part], parsed_parts(segments.skip(1))),
        }
    }
}

/// The path that `s` spells. Both the empty string and `/` are the root.
pub open spec fn parsed_path(s: Seq<char>) -> Result<Seq<PathPartView>, ParsePathError> {
    if s.len() == 0 || s == seq!['/'] {
        Ok(seq![])
    } else if s[0] != '/' {
        Err(ParsePathError::MissingLeadingSlash)
    } else {
        match segments_from(seq![], s.skip(1), '/', false) {
            Err(e) => Err(e),
            Ok(segments) => parsed_parts(segments),
        }
    }
}

/// What the views of some segments' texts are.
pub open spec fn char_views(v: Seq<Vec<char>>) -> Seq<Seq<char>> {
    v.map_values(|s: Vec<char>| s@)
}

/// Collapses each `\X` to `X`. Fails on a trailing backslash.
fn unescape(s: &Vec<char>) -> (r: Result<Vec<char>, ParsePathError>)
    ensures
        match r {
            Ok(v) => unescaped(s@) == Ok::<Seq<char>, ParsePathError>(v@),
            Err(e) => unescaped(s@) == Err::<Seq<char>, ParsePathError>(e),
        },
{
    let mut out: Vec<char> = Vec::new();
    let mut i: usize = 0;
    assert(s@.skip(0) =~= s@);
    proof {
        if let Ok(tail) = unescaped(s@) {
            assert(out@ + tail =~= tail);
        }
    }
    while i < s.len()
        invariant
            i <= s@.len(),
            unescaped(s@) == prefixed(out@, unescaped(s@.skip(i as int))),
        decreases s@.len() - i,
    {
        let ghost rest = s@.skip(i as int);
        let ghost before = out@;
        if s[i] == '\\' {
            if i + 1 == s.len() {
                return Err(ParsePathError::TrailingBackslash);
            }
            out.push(s[i + 1]);
            i = i + 2;
            assert(rest.skip(2) =~= s@.skip(i as int));
        } else {
            out.push(s[i]);
            i = i + 1;
            assert(rest.skip(1) =~= s@.skip(i as int));
        }
        proof {
            if let Ok(tail) = unescaped(s@.skip(i as int)) {
                assert(out@ + tail =~= before + (seq![out@.last()] + tail));
            }
        }
    }
    assert(out@ + Seq::<char>::empty() =~= out@);
    Ok(out)
}

/// Splits `s`, from position `start` on, at its unescaped `delim`s outside of
/// brackets. Escapes stay in place.
fn split_unescaped(s: &Vec<char>, start: usize, delim: char) -> (r: Result<
    Vec<Vec<char>>,
    ParsePathError,
>)
    requires
        start <= s@.len(),
        delim != '\\',
    ensures
        match r {
            Ok(v) => segments_from(seq![], s@.skip(start as int), delim, false) == Ok::<
                Seq<Seq<char>>,
                ParsePathError,
            >(char_views(v@)),
            Err(e) => segments_from(seq![], s@.skip(start as int), delim, false) == Err::<
                Seq<Seq<char>>,
                ParsePathError,
            >(e),
        },
{
    let ghost whole = segments_from(seq![], s@.skip(start as int), delim, false);
    let mut out: Vec<Vec<char>> = Vec::new();
    let mut current: Vec<char> = Vec::new();
    let mut open: bool = false;
    let mut i: usize = start;
    proof {
        assert(current@ =~= seq![]);
        if let Ok(tail) = whole {
            assert(char_views(out@) + tail =~= tail);
        }
    }
    while i < s.len()
        invariant
            start <= i <= s@.len(),
            delim != '\\',
            whole == segments_from(seq![], s@.skip(start as int), delim, false),
            whole == prefixed(
                char_views(out@),
                segments_from(current@, s@.skip(i as int), delim, open),
            ),
        decreases s@.len() - i,
    {
        let c = s[i];
        let ghost rest = s@.skip(i as int);
        if c == '\\' {
            if i + 1 == s.len() {
                return Err(ParsePathError::TrailingBackslash);
            }
            let ghost before = current@;
            current.push('\\');
            current.push(s[i + 1]);
            assert(current@ =~= before + seq!['\\', rest[1]]);
            assert(rest.skip(2) =~= s@.skip(i + 2));
            i = i + 2;
        } else if c == delim && !open {
            if current.len() == 0 {
                return Err(ParsePathError::EmptySegment);
            }
            let ghost before = out@;
            let ghost segment = current@;
            out.push(current);
            current = Vec::new();
            assert(rest.skip(1) =~= s@.skip(i + 1));
            assert(current@ =~= seq![]);
            proof {
                assert(char_views(out@) =~= char_views(before).push(segment));
                if let Ok(tail) = segments_from(seq![], s@.skip(i + 1), delim, false) {
                    assert(char_views(out@) + tail =~= char_views(before) + (seq![segment]
                        + tail));
                }
            }
            i = i + 1;
        } else {
            open = if open {
                c != ']'
            } else {
                current.len() == 0 && c == '['
            };
            current.push(c);
            assert(rest.skip(1) =~= s@.skip(i + 1));
            i = i + 1;
        }
    }
    if current.len() == 0 {
        return Err(ParsePathError::EmptySegment);
    }
    let ghost before = out@;
    let ghost segment = current@;
    out.push(current);
    assert(char_views(out@) =~= char_views(before) + seq![segment]);
    Ok(out)
}

/// Splits at the first unescaped `#`, returning the text before and after it.
fn split_at_unescaped_hash(s: &Vec<char>) -> (r: Result<
    (Vec<char>, Option<Vec<char>>),
    ParsePathError,
>)
    ensures
        match r {
            Ok((before, Some(after))) => hash_split(s@) == Ok::<
                (Seq<char>, Option<Seq<char>>),
                ParsePathError,
            >((before@, Some(after@))),
            Ok((before, None)) => hash_split(s@) == Ok::<
                (Seq<char>, Option<Seq<char>>),
                ParsePathError,
            >((before@, None)),
            Err(e) => hash_split(s@) == Err::<(Seq<char>, Option<Seq<char>>), ParsePathError>(e),
        },
{
    let mut before: Vec<char> = Vec::new();
    let mut i: usize = 0;
    assert(s@.skip(0) =~= s@);
    proof {
        if let Ok((b, a)) = hash_split(s@) {
            assert(before@ + b =~= b);
        }
    }
    while i < s.len()
        invariant
            i <= s@.len(),
            hash_split(s@) == hash_prefixed(before@, hash_split(s@.skip(i as int))),
        decreases s@.len() - i,
    {
        let c = s[i];
        let ghost rest = s@.skip(i as int);
        let ghost head = before@;
        if c == '\\' {
            if i + 1 == s.len() {
                return Err(ParsePathError::TrailingBackslash);
            }
            before.push('\\');
            before.push(s[i + 1]);
            assert(rest.skip(2) =~= s@.skip(i + 2));
            i = i + 2;
            proof {
                if let Ok((b, a)) = hash_split(s@.skip(i as int)) {
                    assert(before@ + b =~= head + (seq!['\\', rest[1]] + b));
                }
            }
        } else if c == '#' {
            let mut after: Vec<char> = Vec::new();
            let mut j: usize = i + 1;
            while j < s.len()
                invariant
                    i + 1 <= j <= s@.len(),
                    after@ == s@.subrange(i + 1, j as int),
                decreases s@.len() - j,
            {
                after.push(s[j]);
                j = j + 1;
                assert(after@ =~= s@.subrange(i + 1, j as int));
            }
            assert(after@ =~= rest.skip(1));
            assert(head + Seq::<char>::empty() =~= head);
            return Ok((before, Some(after)));
        } else {
            before.push(c);
            assert(rest.skip(1) =~= s@.skip(i + 1));
            i = i + 1;
            proof {
                if let Ok((b, a)) = hash_split(s@.skip(i as int)) {
                    assert(before@ + b =~= head + (seq![c] + b));
                }
            }
        }
    }
    assert(before@ + Seq::<char>::empty() =~= before@);
    Ok((before, None))
}

/// The outcome of reading a segment, by what it holds.
pub open spec fn part_outcome(r: Result<PathPart, ParsePathError>) -> Result<
    PathPartView,
    ParsePathError,
> {
    match r {
        Ok(p) => Ok(p@),
        Err(e) => Err(e),
    }
}

/// The outcome of reading a path, by what it holds.
pub open spec fn path_outcome(r: Result<ScenePath, ParsePathError>) -> Result<
    Seq<PathPartView>,
    ParsePathError,
> {
    match r {
        Ok(p) => Ok(p@),
        Err(e) => Err(e),
    }
}

/// How many characters stand before the first unescaped `]` behind the first
/// character of `seg`.
fn find_bracket_end(seg: &Vec<char>) -> (r: Option<usize>)
    requires
        seg@.len() > 0,
    ensures
        match r {
            Some(n) => bracket_end(seg@.skip(1)) == Some(n as nat) && n + 1 < seg@.len(),
            None => bracket_end(seg@.skip(1)) is None,
        },
{
    let mut i: usize = 1;
    while i < seg.len()
        invariant
            1 <= i <= seg@.len(),
            bracket_end(seg@.skip(1)) == farther(
                (i - 1) as nat,
                bracket_end(seg@.skip(i as int)),
            ),
        decreases seg@.len() - i,
    {
        let ghost rest = seg@.skip(i as int);
        if seg[i] == ']' {
            return Some(i - 1);
        }
        if seg[i] == '\\' {
            if i + 1 == seg.len() {
                return None;
            }
            assert(rest.skip(2) =~= seg@.skip(i + 2));
            i = i + 2;
        } else {
            assert(rest.skip(1) =~= seg@.skip(i + 1));
            i = i + 1;
        }
    }
    None
}

/// Reads one still-escaped segment.
fn parse_segment(seg: &Vec<char>) -> (r: Result<PathPart, ParsePathError>)
    ensures
        part_outcome(r) == parsed_part(seg@),
{
    if seg.len() == 0 {
        return Err(ParsePathError::EmptySegment);
    }
    if seg[0] == '[' {
        let closes = match find_bracket_end(seg) {
            Some(n) => n + 2 == seg.len(),
            None => false,
        };
        if !closes {
            return Err(ParsePathError::MalformedOrdered);
        }
        let mut inner: Vec<char> = Vec::new();
        let mut i: usize = 1;
        while i < seg.len() - 1
            invariant
                1 <= i <= seg@.len() - 1,
                inner@ == seg@.subrange(1, i as int),
            decreases seg@.len() - i,
        {
            inner.push(seg[i]);
            i = i + 1;
            assert(inner@ =~= seg@.subrange(1, i as int));
        }
        return match unescape(&inner) {
            Ok(key) => Ok(PathPart::Ordered { key: OrderKey(string_of(&key)) }),
            Err(e) => Err(e),
        };
    }
    let (raw_name, raw_index) = match split_at_unescaped_hash(seg) {
        Ok(split) => split,
        Err(e) => return Err(e),
    };
    let name = match unescape(&raw_name) {
        Ok(name) => string_of(&name),
        Err(e) => return Err(e),
    };
    match raw_index {
        None => Ok(PathPart::Named { name, index: 0 }),
        Some(digits) => match parse_u16(&digits) {
            Some(index) => Ok(PathPart::Named { name, index }),
            None => Err(ParsePathError::BadIndex),
        },
    }
}

impl PathPart {
    /// Reads one still-escaped segment.
    pub fn parse(seg: &str) -> (r: Result<PathPart, ParsePathError>)
        ensures
            part_outcome(r) == parsed_part(seg@),
    {
        parse_segment(&chars_of(seg))
    }

    /// Whether two segments hold the same.
    pub fn same(&self, other: &PathPart) -> (r: bool)
        ensures
            r == (self@ == other@),
    {
        match (self, other) {
            (PathPart::Named { name: a, index: i }, PathPart::Named { name: b, index: j }) => {
                *i == *j && same_text(a, b)
            },
            (PathPart::Ordered { key: a }, PathPart::Ordered { key: b }) => same_text(&a.0, &b.0),
            _ => false,
        }
    }
}

impl core::str::FromStr for PathPart {
    type Err = ParsePathError;

    fn from_str(seg: &str) -> (r: Result<PathPart, ParsePathError>)
        ensures
            part_outcome(r) == parsed_part(seg@),
    {
        PathPart::parse(seg)
    }
}

impl core::str::FromStr for ScenePath {
    type Err = ParsePathError;

    fn from_str(input: &str) -> (r: Result<ScenePath, ParsePathError>)
        ensures
            path_outcome(r) == parsed_path(input@),
    {
        ScenePath::parse(input)
    }
}

impl Clone for ScenePath {
    fn clone(&self) -> (r: Self)
        ensures
            r@ == self@,
    {
        ScenePath { parts: clone_parts(&self.parts, self.parts.len()) }
    }
}

/// The first `n` of `parts`.
fn clone_parts(parts: &Vec<PathPart>, n: usize) -> (r: Vec<PathPart>)
    requires
        n <= parts@.len(),
    ensures
        part_views(r@) == part_views(parts@).take(n as int),
{
    let mut r: Vec<PathPart> = Vec::new();
    let mut i: usize = 0;
    while i < n
        invariant
            i <= n <= parts@.len(),
            part_views(r@) == part_views(parts@).take(i as int),
        decreases n - i,
    {
        let ghost before = r@;
        r.push(parts[i].clone());
        i = i + 1;
        assert(part_views(r@) =~= part_views(before).push(parts@[i - 1]@));
        assert(part_views(r@) =~= part_views(parts@).take(i as int));
    }
    r
}

impl ScenePath {
    /// The synthetic root, parent of every top-level node.
    pub fn root() -> (r: Self)
        ensures
            r@ == Seq::<PathPartView>::empty(),
    {
        let r = ScenePath { parts: Vec::new() };
        assert(r@ =~= Seq::<PathPartView>::empty());
        r
    }

    pub fn from_parts(parts: Vec<PathPart>) -> (r: Self)
        ensures
            r@ == part_views(parts@),
    {
        ScenePath { parts }
    }

    pub fn is_root(&self) -> (r: bool)
        ensures
            r == (self@.len() == 0),
    {
        self.parts.len() == 0
    }

    /// The segments, outermost first.
    pub fn parts(&self) -> (r: &Vec<PathPart>)
        ensures
            part_views(r@) == self@,
    {
        &self.parts
    }

    /// The segments, outermost first, as owned values.
    pub fn iter(&self) -> (r: Vec<PathPart>)
        ensures
            part_views(r@) == self@,
    {
        let r = clone_parts(&self.parts, self.parts.len());
        assert(part_views(r@) =~= self@);
        r
    }

    /// The innermost segment.
    pub fn last(&self) -> (r: Option<&PathPart>)
        ensures
            r is None <==> self@.len() == 0,
            r is Some ==> r->0@ == self@.last(),
    {
        if self.parts.len() == 0 {
            None
        } else {
            Some(&self.parts[self.parts.len() - 1])
        }
    }

    /// The path without its last segment; `None` at the root.
    pub fn parent(&self) -> (r: Option<ScenePath>)
        ensures
            r is None <==> self@.len() == 0,
            r is Some ==> r->0@ == self@.drop_last(),
    {
        if self.parts.len() == 0 {
            return None;
        }
        let r = ScenePath { parts: clone_parts(&self.parts, self.parts.len() - 1) };
        assert(r@ =~= self@.drop_last());
        Some(r)
    }

    /// The path with one more segment.
    pub fn join(&self, part: PathPart) -> (r: ScenePath)
        ensures
            r@ == self@.push(part@),
    {
        let mut parts = clone_parts(&self.parts, self.parts.len());
        let ghost before = parts@;
        parts.push(part);
        assert(part_views(parts@) =~= part_views(before).push(part@));
        assert(part_views(before) =~= self@);
        ScenePath { parts }
    }

    /// Whether two paths hold the same segments.
    pub fn same(&self, other: &ScenePath) -> (r: bool)
        ensures
            r == (self@ == other@),
    {
        if self.parts.len() != other.parts.len() {
            assert(self@.len() != other@.len());
            return false;
        }
        let mut i: usize = 0;
        while i < self.parts.len()
            invariant
                i <= self.parts@.len(),
                self.parts@.len() == other.parts@.len(),
                forall|k: int| 0 <= k < i ==> self@[k] == other@[k],
            decreases self.parts@.len() - i,
        {
            if !self.parts[i].same(&other.parts[i]) {
                assert(self@[i as int] != other@[i as int]);
                return false;
            }
            assert(self@[i as int] == other@[i as int]);
            i = i + 1;
        }
        assert(self@ =~= other@);
        true
    }

    /// The rendered path: `/segment/segment/...`, or `/` for the root.
    pub fn to_string(&self) -> (r: String)
        ensures
            r@ == rendered_path(self@),
    {
        let mut out = String::new();
        if self.parts.len() == 0 {
            out.push('/');
            assert(out@ =~= seq!['/']);
            return out;
        }
        let mut i: usize = 0;
        assert(self@.skip(0) =~= self@);
        assert(out@ + rendered_parts(self@) =~= rendered_parts(self@));
        while i < self.parts.len()
            invariant
                i <= self.parts@.len(),
                out@ + rendered_parts(self@.skip(i as int)) == rendered_parts(self@),
            decreases self.parts@.len() - i,
        {
            let ghost rest = self@.skip(i as int);
            let ghost before = out@;
            out.push('/');
            self.parts[i].write_to(&mut out);
            assert(rest[0] == self.parts@[i as int]@);
            assert(rest.skip(1) =~= self@.skip(i + 1));
            assert(out@ + rendered_parts(rest.skip(1)) =~= before + rendered_parts(rest));
            i = i + 1;
        }
        assert(out@ + rendered_parts(self@.skip(i as int)) =~= out@);
        out
    }

    /// Reads a path from its rendered form.
    pub fn parse(input: &str) -> (r: Result<ScenePath, ParsePathError>)
        ensures
            path_outcome(r) == parsed_path(input@),
    {
        let chars = chars_of(input);
        if chars.len() == 0 {
            return Ok(ScenePath::root());
        }
        if chars[0] != '/' {
            assert(input@[0] != '/');
            return Err(ParsePathError::MissingLeadingSlash);
        }
        if chars.len() == 1 {
            assert(input@ =~= seq!['/']);
            return Ok(ScenePath::root());
        }
        let segments = match split_unescaped(&chars, 1, '/') {
            Ok(segments) => segments,
            Err(e) => return Err(e),
        };
        let ghost texts = char_views(segments@);
        let mut parts: Vec<PathPart> = Vec::new();
        let mut i: usize = 0;
        proof {
            assert(texts.skip(0) =~= texts);
            if let Ok(tail) = parsed_parts(texts) {
                assert(part_views(parts@) + tail =~= tail);
            }
        }
        while i < segments.len()
            invariant
                i <= segments@.len(),
                texts == char_views(segments@),
                input@.len() > 1,
                input@[0] == '/',
                segments_from(seq![], input@.skip(1), '/', false) == Ok::<
                    Seq<Seq<char>>,
                    ParsePathError,
                >(texts),
                parsed_parts(texts) == prefixed(
                    part_views(parts@),
                    parsed_parts(texts.skip(i as int)),
                ),
            decreases segments@.len() - i,
        {
            let ghost rest = texts.skip(i as int);
            assert(rest[0] == segments@[i as int]@);
            assert(rest.skip(1) =~= texts.skip(i + 1));
            match parse_segment(&segments[i]) {
                Ok(part) => {
                    let ghost before = parts@;
                    parts.push(part);
                    proof {
                        assert(part_views(parts@) =~= part_views(before).push(part@));
                        if let Ok(tail) = parsed_parts(texts.skip(i + 1)) {
                            assert(part_views(parts@) + tail =~= part_views(before) + (seq![part@]
                                + tail));
                        }
                    }
                },
                Err(e) => {
                    return Err(e);
                },
            }
            i = i + 1;
        }
        assert(part_views(parts@) + Seq::<PathPartView>::empty() =~= part_views(parts@));
        Ok(ScenePath { parts })
    }
}

// ---------------------------------------------------------------------------
// Laws
// ---------------------------------------------------------------------------

/// Whether a segment's rendering can stand in a path. A nameless segment with
/// index 0 renders as nothing.
pub open spec fn renderable_part(part: PathPartView) -> bool {
    match part {
        PathPartView::Named { name, index } => name.len() > 0 || index != 0,
        PathPartView::Ordered { key } => true,
    }
}

pub open spec fn renderable(parts: Seq<PathPartView>) -> bool {
    forall|i: int| 0 <= i < parts.len() ==> renderable_part(#[trigger] parts[i])
}

proof fn lemma_escapes()
    ensures
        forall|c: char| #[trigger] name_escapes().contains(c) <==> (c == '/' || c == '#' || c
            == '[' || c == ']' || c == '\\'),
        forall|c: char| #[trigger] key_escapes().contains(c) <==> (c == ']' || c == '\\'),
{
    let n = name_escapes();
    assert(n[0] == '/' && n[1] == '#' && n[2] == '[' && n[3] == ']' && n[4] == '\\');
    let k = key_escapes();
    assert(k[0] == ']' && k[1] == '\\');
}

proof fn lemma_unescape_escaped(s: Seq<char>, escapes: Seq<char>)
    requires
        escapes.contains('\\'),
    ensures
        unescaped(escaped(s, escapes)) == Ok::<Seq<char>, ParsePathError>(s),
    decreases s.len(),
{
    if s.len() > 0 {
        lemma_unescape_escaped(s.skip(1), escapes);
        let e = escaped(s, escapes);
        let tail = escaped(s.skip(1), escapes);
        if escapes.contains(s[0]) {
            assert(e.skip(2) =~= tail);
        } else {
            assert(e.skip(1) =~= tail);
        }
        assert(seq![s[0]] + s.skip(1) =~= s);
    } else {
        assert(s =~= seq![]);
    }
}

/// An escaped name carries a split past itself: it holds no unescaped slash and
/// opens no bracket.
proof fn lemma_segment_name(current: Seq<char>, s: Seq<char>, rest: Seq<char>)
    ensures
        segments_from(current, escaped(s, name_escapes()) + rest, '/', false) == segments_from(
            current + escaped(s, name_escapes()),
            rest,
            '/',
            false,
        ),
    decreases s.len(),
{
    lemma_escapes();
    let escapes = name_escapes();
    let e = escaped(s, escapes);
    if s.len() == 0 {
        assert(e + rest =~= rest);
        assert(current + e =~= current);
    } else {
        let tail = escaped(s.skip(1), escapes);
        let head = escaped_char(s[0], escapes);
        lemma_segment_name(current + head, s.skip(1), rest);
        assert((current + head) + tail =~= current + e);
        if escapes.contains(s[0]) {
            assert((e + rest).skip(2) =~= tail + rest);
            assert(current + seq!['\\', (e + rest)[1]] =~= current + head);
        } else {
            assert((e + rest)[0] == s[0]);
            assert((e + rest).skip(1) =~= tail + rest);
            assert(current.push((e + rest)[0]) =~= current + head);
        }
    }
}

/// An escaped key carries a split past itself within its bracket, which it does
/// not close.
proof fn lemma_segment_key(current: Seq<char>, s: Seq<char>, rest: Seq<char>)
    ensures
        segments_from(current, escaped(s, key_escapes()) + rest, '/', true) == segments_from(
            current + escaped(s, key_escapes()),
            rest,
            '/',
            true,
        ),
    decreases s.len(),
{
    lemma_escapes();
    let escapes = key_escapes();
    let e = escaped(s, escapes);
    if s.len() == 0 {
        assert(e + rest =~= rest);
        assert(current + e =~= current);
    } else {
        let tail = escaped(s.skip(1), escapes);
        let head = escaped_char(s[0], escapes);
        lemma_segment_key(current + head, s.skip(1), rest);
        assert((current + head) + tail =~= current + e);
        if escapes.contains(s[0]) {
            assert((e + rest).skip(2) =~= tail + rest);
            assert(current + seq!['\\', (e + rest)[1]] =~= current + head);
        } else {
            assert((e + rest)[0] == s[0]);
            assert((e + rest).skip(1) =~= tail + rest);
            assert(current.push((e + rest)[0]) =~= current + head);
        }
    }
}

/// An escaped key reaches up to the bracket that closes it.
proof fn lemma_bracket_end(s: Seq<char>)
    ensures
        bracket_end(escaped(s, key_escapes()) + seq![']']) == Some(
            escaped(s, key_escapes()).len(),
        ),
    decreases s.len(),
{
    lemma_escapes();
    let escapes = key_escapes();
    let e = escaped(s, escapes);
    let whole = e + seq![']'];
    if s.len() == 0 {
        assert(whole[0] == ']');
    } else {
        let tail = escaped(s.skip(1), escapes);
        lemma_bracket_end(s.skip(1));
        if escapes.contains(s[0]) {
            assert(whole.skip(2) =~= tail + seq![']']);
        } else {
            assert(whole.skip(1) =~= tail + seq![']']);
        }
    }
}

/// Characters other than backslash, slash and opening bracket carry a split past
/// themselves.
proof fn lemma_segment_plain(current: Seq<char>, s: Seq<char>, rest: Seq<char>)
    requires
        forall|i: int| 0 <= i < s.len() ==> #[trigger] s[i] != '\\' && s[i] != '/' && s[i] != '[',
    ensures
        segments_from(current, s + rest, '/', false) == segments_from(
            current + s,
            rest,
            '/',
            false,
        ),
    decreases s.len(),
{
    if s.len() == 0 {
        assert(s + rest =~= rest);
        assert(current + s =~= current);
    } else {
        lemma_segment_plain(current.push(s[0]), s.skip(1), rest);
        assert((s + rest).skip(1) =~= s.skip(1) + rest);
        assert(current.push(s[0]) + s.skip(1) =~= current + s);
    }
}

proof fn lemma_segment_part(part: PathPartView, rest: Seq<char>)
    ensures
        segments_from(seq![], rendered_part(part) + rest, '/', false) == segments_from(
            rendered_part(part),
            rest,
            '/',
            false,
        ),
{
    lemma_escapes();
    let whole = rendered_part(part) + rest;
    match part {
        PathPartView::Named { name, index } => {
            let e = escaped(name, name_escapes());
            let suffix = index_suffix(index);
            lemma_u16_round_trip(index);
            assert forall|i: int| 0 <= i < suffix.len() implies #[trigger] suffix[i] != '\\'
                && suffix[i] != '/' && suffix[i] != '[' by {
                if i > 0 {
                    assert(suffix[i] == decimal(index as nat)[i - 1]);
                    assert(is_digit(decimal(index as nat)[i - 1]));
                }
            }
            lemma_segment_name(seq![], name, suffix + rest);
            assert(seq![] + e =~= e);
            lemma_segment_plain(e, suffix, rest);
            assert(e + (suffix + rest) =~= whole);
        },
        PathPartView::Ordered { key } => {
            let e = escaped(key, key_escapes());
            let closed = seq![']'] + rest;
            let none = Seq::<char>::empty();
            assert(whole[0] == '[');
            assert(whole.skip(1) =~= e + closed);
            assert(none.push('[') =~= seq!['[']);
            assert(segments_from(none, whole, '/', false) == segments_from(
                seq!['['],
                e + closed,
                '/',
                true,
            ));
            lemma_segment_key(seq!['['], key, closed);
            assert(closed[0] == ']');
            assert(closed.skip(1) =~= rest);
            assert((seq!['['] + e).push(']') =~= rendered_part(part));
        },
    }
}

proof fn lemma_hash_escaped(s: Seq<char>, rest: Seq<char>)
    ensures
        hash_split(escaped(s, name_escapes()) + rest) == hash_prefixed(
            escaped(s, name_escapes()),
            hash_split(rest),
        ),
    decreases s.len(),
{
    lemma_escapes();
    let escapes = name_escapes();
    let e = escaped(s, escapes);
    if s.len() == 0 {
        assert(e + rest =~= rest);
        if let Ok((b, a)) = hash_split(rest) {
            assert(e + b =~= b);
        }
    } else {
        let tail = escaped(s.skip(1), escapes);
        lemma_hash_escaped(s.skip(1), rest);
        if escapes.contains(s[0]) {
            assert((e + rest).skip(2) =~= tail + rest);
            if let Ok((b, a)) = hash_split(rest) {
                assert(seq!['\\', s[0]] + (tail + b) =~= e + b);
            }
        } else {
            assert((e + rest).skip(1) =~= tail + rest);
            if let Ok((b, a)) = hash_split(rest) {
                assert(seq![s[0]] + (tail + b) =~= e + b);
            }
        }
    }
}

/// Reading back a rendered segment gives the segment.
pub proof fn lemma_part_round_trip(part: PathPartView)
    requires
        renderable_part(part),
    ensures
        rendered_part(part).len() > 0,
        parsed_part(rendered_part(part)) == Ok::<PathPartView, ParsePathError>(part),
{
    lemma_escapes();
    let seg = rendered_part(part);
    match part {
        PathPartView::Named { name, index } => {
            let e = escaped(name, name_escapes());
            let suffix = index_suffix(index);
            if name.len() > 0 {
                assert(seg[0] == e[0]);
            } else {
                assert(seg[0] == '#');
            }
            lemma_hash_escaped(name, suffix);
            lemma_unescape_escaped(name, name_escapes());
            lemma_u16_round_trip(index);
            assert(e + Seq::<char>::empty() =~= e);
            if index != 0 {
                assert(suffix.skip(1) =~= decimal(index as nat));
            }
        },
        PathPartView::Ordered { key } => {
            let e = escaped(key, key_escapes());
            lemma_unescape_escaped(key, key_escapes());
            lemma_bracket_end(key);
            assert(seg.skip(1) =~= e + seq![']']);
            assert(seg.subrange(1, seg.len() - 1) =~= e);
        },
    }
}

/// The texts of the segments of a path.
pub open spec fn rendered_segments(parts: Seq<PathPartView>) -> Seq<Seq<char>> {
    parts.map_values(|p: PathPartView| rendered_part(p))
}

proof fn lemma_segments_of_rendered(parts: Seq<PathPartView>)
    requires
        parts.len() > 0,
        renderable(parts),
    ensures
        segments_from(seq![], rendered_parts(parts).skip(1), '/', false) == Ok::<
            Seq<Seq<char>>,
            ParsePathError,
        >(rendered_segments(parts)),
    decreases parts.len(),
{
    let first = rendered_part(parts[0]);
    let tail = parts.skip(1);
    let rest = rendered_parts(tail);
    assert(renderable_part(parts[0]));
    lemma_part_round_trip(parts[0]);
    assert(rendered_parts(parts).skip(1) =~= first + rest);
    lemma_segment_part(parts[0], rest);
    if tail.len() == 0 {
        assert(rest =~= seq![]);
        assert(rendered_segments(parts) =~= seq![first]);
    } else {
        assert forall|i: int| 0 <= i < tail.len() implies renderable_part(#[trigger] tail[i]) by {
            assert(tail[i] == parts[i + 1]);
        }
        lemma_segments_of_rendered(tail);
        assert(seq![first] + rendered_segments(tail) =~= rendered_segments(parts));
    }
}

proof fn lemma_parts_of_segments(parts: Seq<PathPartView>)
    requires
        renderable(parts),
    ensures
        parsed_parts(rendered_segments(parts)) == Ok::<Seq<PathPartView>, ParsePathError>(parts),
    decreases parts.len(),
{
    if parts.len() > 0 {
        let tail = parts.skip(1);
        assert forall|i: int| 0 <= i < tail.len() implies renderable_part(#[trigger] tail[i]) by {
            assert(tail[i] == parts[i + 1]);
        }
        assert(renderable_part(parts[0]));
        lemma_part_round_trip(parts[0]);
        lemma_parts_of_segments(tail);
        assert(rendered_segments(parts).skip(1) =~= rendered_segments(tail));
        assert(seq![parts[0]] + tail =~= parts);
    } else {
        assert(parts =~= seq![]);
    }
}

/// Reading back a rendered path gives the path.
pub proof fn path_round_trip(parts: Seq<PathPartView>)
    requires
        renderable(parts),
    ensures
        parsed_path(rendered_path(parts)) == Ok::<Seq<PathPartView>, ParsePathError>(parts),
{
    if parts.len() > 0 {
        lemma_segments_of_rendered(parts);
        lemma_parts_of_segments(parts);
        assert(renderable_part(parts[0]));
        lemma_part_round_trip(parts[0]);
        assert(rendered_path(parts)[0] == '/');
        assert(rendered_path(parts).len() > 1);
    } else {
        assert(parts =~= seq![]);
    }
}

/// How a path is rendered: the root as a slash, and every other path as its
/// parent, a slash and its last segment, where the root counts for nothing.
pub proof fn rendering_goes_by_segments(parts: Seq<PathPartView>, part: PathPartView)
    ensures
        rendered_path(Seq::empty()) == seq!['/'],
        rendered_path(seq![part]) == seq!['/'] + rendered_part(part),
        parts.len() > 0 ==> rendered_path(parts.push(part)) == rendered_path(parts) + seq!['/']
            + rendered_part(part),
    decreases parts.len(),
{
    let one = seq![part];
    assert(one.skip(1) =~= seq![]);
    assert(rendered_parts(one.skip(1)) =~= seq![]);
    assert(rendered_parts(one) =~= seq!['/'] + rendered_part(part));
    if parts.len() > 0 {
        let rest = parts.skip(1);
        assert(parts.push(part).skip(1) =~= rest.push(part));
        if rest.len() > 0 {
            rendering_goes_by_segments(rest, part);
            assert(rendered_parts(parts.push(part)) =~= rendered_parts(parts) + seq!['/']
                + rendered_part(part));
        } else {
            assert(rest.push(part) =~= one);
            assert(rendered_parts(rest) =~= seq![]);
            assert(rendered_parts(parts.push(part)) =~= rendered_parts(parts) + seq!['/']
                + rendered_part(part));
        }
    }
}

/// Escaping goes character by character: in a name a slash, a hash, either bracket
/// and the backslash get a backslash in front, in a key the closing bracket and
/// the backslash; every other character stands for itself.
pub proof fn escaping_goes_by_characters(s: Seq<char>, c: char)
    ensures
        escaped(Seq::empty(), name_escapes()).len() == 0,
        c == '/' || c == '#' || c == '[' || c == ']' || c == '\\' ==> escaped(
            s.push(c),
            name_escapes(),
        ) == escaped(s, name_escapes()) + seq!['\\', c],
        !(c == '/' || c == '#' || c == '[' || c == ']' || c == '\\') ==> escaped(
            s.push(c),
            name_escapes(),
        ) == escaped(s, name_escapes()).push(c),
        c == ']' || c == '\\' ==> escaped(s.push(c), key_escapes()) == escaped(s, key_escapes())
            + seq!['\\', c],
        !(c == ']' || c == '\\') ==> escaped(s.push(c), key_escapes()) == escaped(
            s,
            key_escapes(),
        ).push(c),
{
    lemma_escapes();
    lemma_escaped_push(s, c, name_escapes());
    lemma_escaped_push(s, c, key_escapes());
    assert(escaped(s, name_escapes()) + seq![c] =~= escaped(s, name_escapes()).push(c));
    assert(escaped(s, key_escapes()) + seq![c] =~= escaped(s, key_escapes()).push(c));
}

proof fn lemma_escaped_push(s: Seq<char>, c: char, escapes: Seq<char>)
    ensures
        escaped(s.push(c), escapes) == escaped(s, escapes) + escaped_char(c, escapes),
    decreases s.len(),
{
    if s.len() == 0 {
        assert(s.push(c).skip(1) =~= seq![]);
        assert(escaped(s.push(c).skip(1), escapes) =~= seq![]);
        assert(escaped(s, escapes) =~= seq![]);
        assert(escaped(s.push(c), escapes) =~= escaped(s, escapes) + escaped_char(c, escapes));
    } else {
        lemma_escaped_push(s.skip(1), c, escapes);
        assert(s.push(c).skip(1) =~= s.skip(1).push(c));
        assert(escaped(s.push(c), escapes) =~= escaped(s, escapes) + escaped_char(c, escapes));
    }
}

/// A named segment is its escaped name, and behind it, except for the first of
/// its name, a hash and the index in decimal digits; one by its order key is the
/// escaped key in brackets.
pub proof fn segments_are_rendered_by_kind(name: Seq<char>, index: u16, key: Seq<char>)
    ensures
        rendered_part(PathPartView::Named { name, index: 0 }) == escaped(name, name_escapes()),
        index > 0 ==> rendered_part(PathPartView::Named { name, index }) == escaped(
            name,
            name_escapes(),
        ) + seq!['#'] + decimal(index as nat),
        rendered_part(PathPartView::Ordered { key }) == seq!['['] + escaped(key, key_escapes())
            + seq![']'],
{
    assert(escaped(name, name_escapes()) + seq![] =~= escaped(name, name_escapes()));
    assert(escaped(name, name_escapes()) + (seq!['#'] + decimal(index as nat)) =~= escaped(
        name,
        name_escapes(),
    ) + seq!['#'] + decimal(index as nat));
}

/// What is no path by its slashes: a text that does not start with one, one with
/// two at its start, and a rendered path with one more at its end. The empty text
/// and a single slash are the root.
pub proof fn misplaced_slashes_are_refused(s: Seq<char>, parts: Seq<PathPartView>)
    ensures
        s.len() > 0 && s[0] != '/' ==> parsed_path(s) == Err::<Seq<PathPartView>, ParsePathError>(
            ParsePathError::MissingLeadingSlash,
        ),
        s.len() > 1 && s[0] == '/' && s[1] == '/' ==> parsed_path(s) == Err::<
            Seq<PathPartView>,
            ParsePathError,
        >(ParsePathError::EmptySegment),
        parts.len() > 0 && renderable(parts) ==> parsed_path(rendered_path(parts) + seq!['/'])
            == Err::<Seq<PathPartView>, ParsePathError>(ParsePathError::EmptySegment),
        parsed_path(Seq::empty()) == Ok::<Seq<PathPartView>, ParsePathError>(Seq::empty()),
        parsed_path(seq!['/']) == Ok::<Seq<PathPartView>, ParsePathError>(Seq::empty()),
{
    if s.len() > 1 && s[0] == '/' && s[1] == '/' {
        assert(s.skip(1)[0] == '/');
        assert(s != seq!['/']);
    }
    if parts.len() > 0 && renderable(parts) {
        let text = rendered_path(parts) + seq!['/'];
        lemma_segments_then(parts, seq!['/']);
        lemma_part_round_trip(parts.last());
        let last = rendered_part(parts.last());
        assert(seq!['/'].skip(1) =~= seq![]);
        assert(segments_from(seq![], seq!['/'].skip(1), '/', false) == Err::<
            Seq<Seq<char>>,
            ParsePathError,
        >(ParsePathError::EmptySegment));
        assert(segments_from(last, seq!['/'], '/', false) == Err::<
            Seq<Seq<char>>,
            ParsePathError,
        >(ParsePathError::EmptySegment));
        assert(text.skip(1) =~= rendered_parts(parts).skip(1) + seq!['/']);
        assert(text[0] == '/' && text.len() > 1);
    }
}

/// A rendered path with a lone backslash behind it is refused for that.
pub proof fn lone_backslash_is_refused(parts: Seq<PathPartView>)
    requires
        parts.len() > 0,
        renderable(parts),
    ensures
        parsed_path(rendered_path(parts) + seq!['\\']) == Err::<
            Seq<PathPartView>,
            ParsePathError,
        >(ParsePathError::TrailingBackslash),
{
    let text = rendered_path(parts) + seq!['\\'];
    lemma_segments_then(parts, seq!['\\']);
    lemma_part_round_trip(parts.last());
    assert(segments_from(rendered_part(parts.last()), seq!['\\'], '/', false) == Err::<
        Seq<Seq<char>>,
        ParsePathError,
    >(ParsePathError::TrailingBackslash));
    assert(text.skip(1) =~= rendered_parts(parts).skip(1) + seq!['\\']);
    assert(text[0] == '/' && text.len() > 1);
}

/// Where splitting what follows a rendered path fails, splitting all of it does.
proof fn lemma_segments_then(parts: Seq<PathPartView>, rest: Seq<char>)
    requires
        parts.len() > 0,
        renderable(parts),
    ensures
        segments_from(rendered_part(parts.last()), rest, '/', false) is Err ==> segments_from(
            seq![],
            rendered_parts(parts).skip(1) + rest,
            '/',
            false,
        ) == segments_from(rendered_part(parts.last()), rest, '/', false),
        rendered_parts(parts).len() > 1,
        rendered_parts(parts)[0] == '/',
    decreases parts.len(),
{
    let part = parts[0];
    let more = parts.skip(1);
    let text = rendered_part(part);
    lemma_part_round_trip(part);
    assert(rendered_parts(parts) == seq!['/'] + text + rendered_parts(more));
    assert(rendered_parts(parts).skip(1) =~= text + rendered_parts(more));
    assert(rendered_parts(parts).skip(1) + rest =~= text + (rendered_parts(more) + rest));
    lemma_segment_part(part, rendered_parts(more) + rest);
    if more.len() == 0 {
        assert(rendered_parts(more) =~= seq![]);
        assert(rendered_parts(more) + rest =~= rest);
        assert(parts.last() == part);
    } else {
        assert forall|i: int| 0 <= i < more.len() implies renderable_part(#[trigger] more[i]) by {
            assert(more[i] == parts[i + 1]);
        }
        lemma_segments_then(more, rest);
        assert(more.last() == parts.last());
        let tail = rendered_parts(more) + rest;
        assert(tail[0] == '/');
        assert(tail.skip(1) =~= rendered_parts(more).skip(1) + rest);
    }
}

/// A bracket must be closed, by a bracket that is not escaped, and nothing may
/// follow it.
pub proof fn brackets_must_close_at_the_end(key: Seq<char>, more: Seq<char>)
    ensures
        parsed_part(seq!['['] + escaped(key, key_escapes())) == Err::<PathPartView, ParsePathError>(
            ParsePathError::MalformedOrdered,
        ),
        parsed_part(seq!['['] + escaped(key.push(']'), key_escapes())) == Err::<
            PathPartView,
            ParsePathError,
        >(ParsePathError::MalformedOrdered),
        more.len() > 0 ==> parsed_part(
            seq!['['] + escaped(key, key_escapes()) + seq![']'] + more,
        ) == Err::<PathPartView, ParsePathError>(ParsePathError::MalformedOrdered),
{
    let a = seq!['['] + escaped(key, key_escapes());
    let b = seq!['['] + escaped(key.push(']'), key_escapes());
    let c = seq!['['] + escaped(key, key_escapes()) + seq![']'] + more;
    assert(a.skip(1) =~= escaped(key, key_escapes()));
    assert(b.skip(1) =~= escaped(key.push(']'), key_escapes()));
    lemma_no_bracket_end(key, seq![]);
    lemma_no_bracket_end(key.push(']'), seq![]);
    assert(escaped(key, key_escapes()) + seq![] =~= escaped(key, key_escapes()));
    assert(escaped(key.push(']'), key_escapes()) + seq![] =~= escaped(
        key.push(']'),
        key_escapes(),
    ));
    assert(c.skip(1) =~= escaped(key, key_escapes()) + (seq![']'] + more));
    lemma_no_bracket_end(key, seq![']'] + more);
    assert((seq![']'] + more)[0] == ']');
}

/// An escaped key holds no bracket that closes.
proof fn lemma_no_bracket_end(s: Seq<char>, rest: Seq<char>)
    ensures
        bracket_end(escaped(s, key_escapes()) + rest) == farther(
            escaped(s, key_escapes()).len(),
            bracket_end(rest),
        ),
    decreases s.len(),
{
    lemma_escapes();
    let text = escaped(s, key_escapes());
    if s.len() == 0 {
        assert(text + rest =~= rest);
    } else {
        let tail = escaped(s.skip(1), key_escapes());
        lemma_no_bracket_end(s.skip(1), rest);
        if key_escapes().contains(s[0]) {
            assert((text + rest).skip(2) =~= tail + rest);
        } else {
            assert((text + rest).skip(1) =~= tail + rest);
        }
    }
}

/// What follows a hash must be a number that fits 16 bits; then it is the index.
pub proof fn index_must_be_a_number(name: Seq<char>, digits: Seq<char>)
    requires
        name.len() > 0 || digits.len() > 0,
    ensures
        u16_of(digits) is None ==> parsed_part(escaped(name, name_escapes()) + seq!['#'] + digits)
            == Err::<PathPartView, ParsePathError>(ParsePathError::BadIndex),
        u16_of(digits) matches Some(index) ==> parsed_part(
            escaped(name, name_escapes()) + seq!['#'] + digits,
        ) == Ok::<PathPartView, ParsePathError>(PathPartView::Named { name, index }),
{
    let seg = escaped(name, name_escapes()) + seq!['#'] + digits;
    assert(seg =~= escaped(name, name_escapes()) + (seq!['#'] + digits));
    lemma_hash_escaped(name, seq!['#'] + digits);
    assert((seq!['#'] + digits).skip(1) =~= digits);
    assert(escaped(name, name_escapes()) + seq![] =~= escaped(name, name_escapes()));
    lemma_escapes();
    lemma_unescape_escaped(name, name_escapes());
    assert(seg.len() > 0);
    assert(seg[0] != '[') by {
        if name.len() > 0 {
            assert(seg[0] == escaped(name, name_escapes())[0]);
        }
    }
}

/// Each error tells its cause in words of its own.
pub proof fn errors_tell_their_cause(a: ParsePathError, b: ParsePathError)
    ensures
        a != b ==> a.message() != b.message(),
        ParsePathError::MissingLeadingSlash.message() == "path must start with '/'"@,
        ParsePathError::TrailingBackslash.message() == "trailing backslash"@,
        ParsePathError::EmptySegment.message() == "empty path segment"@,
        ParsePathError::MalformedOrdered.message() == "malformed ordered segment"@,
        ParsePathError::BadIndex.message() == "invalid index after '#'"@,
{
    reveal_strlit("path must start with '/'");
    reveal_strlit("trailing backslash");
    reveal_strlit("empty path segment");
    reveal_strlit("malformed ordered segment");
    reveal_strlit("invalid index after '#'");
    assert("path must start with '/'"@[0] == 'p');
    assert("trailing backslash"@[0] == 't');
    assert("empty path segment"@[0] == 'e');
    assert("malformed ordered segment"@[0] == 'm');
    assert("invalid index after '#'"@[0] == 'i');
}

} // verus!
