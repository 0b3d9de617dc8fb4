//! Regular-expression search, done by the `regex` crate. What a pattern
//! matches is not modelled here: each search result has a name, and the
//! analysis is specified over those names.

use regex::Regex;
use vstd::prelude::*;
use vstd::utf8::*;

verus! {

/// The error of `Regex::new`, of which nothing is looked at.
#[verifier::external_type_specification]
#[verifier::external_body]
pub struct ExRegexError(regex::Error);

/// One match of a pattern in a haystack.
#[derive(Debug)]
pub struct Capture {
    /// Byte offset at which the whole match starts.
    pub start: usize,
    /// Text of the capture group asked for, if it took part in the match.
    pub group: Option<String>,
}

/// A match as a mathematical value.
pub struct CaptureView {
    pub start: nat,
    pub group: Option<Seq<char>>,
}

impl View for Capture {
    type V = CaptureView;

    open spec fn view(&self) -> CaptureView {
        CaptureView {
            start: self.start as nat,
            group: match self.group {
                Some(s) => Some(s@),
                None => None,
            },
        }
    }
}

/// The matches held by a vector, as mathematical values.
pub open spec fn capture_views(v: Seq<Capture>) -> Seq<CaptureView> {
    Seq::new(v.len(), |i: int| v[i]@)
}

/// Whether `Regex::new` accepts `pattern`.
pub uninterp spec fn pattern_compiles(pattern: Seq<char>) -> bool;

/// The successive non-overlapping matches of `pattern` in `haystack`, as
/// `Regex::captures_iter` yields them, each with the text of capture group
/// `group`.
pub uninterp spec fn regex_captures(pattern: Seq<char>, haystack: Seq<char>, group: nat) -> Seq<
    CaptureView,
>;

/// `haystack` with every match of `pattern` replaced as `Regex::replace_all`
/// does for the replacement text `replacement`, where there is a match.
pub uninterp spec fn regex_replaced(
    pattern: Seq<char>,
    haystack: Seq<char>,
    replacement: Seq<char>,
) -> Seq<char>;

/// Whether a match starts within `haystack`, on a character boundary of its
/// UTF-8 encoding.
pub open spec fn lies_within(c: CaptureView, haystack: Seq<char>) -> bool {
    is_char_boundary(encode_utf8(haystack), c.start as int)
}

/// Calls `Regex::new` and then `Regex::captures_iter`. Fails exactly when the
/// pattern does not compile. Otherwise hands out the successive matches, each
/// as the byte offset at which the whole match starts and the text of group
/// `group`; the offset lies on a character boundary of the haystack.
#[verifier::external_body]
pub(crate) fn captures_iter(pattern: &str, haystack: &str, group: usize) -> (r: Result<
    Vec<Capture>,
    regex::Error,
>)
    ensures
        r is Ok <==> pattern_compiles(pattern@),
        r matches Ok(v) ==> capture_views(v@) == regex_captures(
            pattern@,
            haystack@,
            group as nat,
        ),
        r matches Ok(v) ==> forall|i: int|
            0 <= i < v.len() ==> lies_within(#[trigger] v[i]@, haystack@),
{
    let re = Regex::new(pattern)?;
    let mut found = Vec::new();
    for caps in re.captures_iter(haystack) {
        found.push(
            Capture {
                start: caps.get_match().start(),
                group: caps.get(group).map(|m| m.as_str().to_string()),
            },
        );
    }
    Ok(found)
}

/// The first element of a sequence of matches, if there is one.
pub open spec fn first_capture(found: Seq<CaptureView>) -> Option<CaptureView> {
    if found.len() > 0 {
        Some(found[0])
    } else {
        None
    }
}

/// A match that may be absent, as a mathematical value.
pub open spec fn capture_view(c: Option<Capture>) -> Option<CaptureView> {
    match c {
        Some(c) => Some(c@),
        None => None,
    }
}

/// Calls `Regex::new` and then `Regex::captures`. Fails exactly when the
/// pattern does not compile. Otherwise hands out the leftmost match, which is
/// the first that `Regex::captures_iter` would yield, or `None` when there is
/// no match.
#[verifier::external_body]
pub(crate) fn captures(pattern: &str, haystack: &str, group: usize) -> (r: Result<
    Option<Capture>,
    regex::Error,
>)
    ensures
        r is Ok <==> pattern_compiles(pattern@),
        r matches Ok(c) ==> capture_view(c) == first_capture(
            regex_captures(pattern@, haystack@, group as nat),
        ),
{
    let re = Regex::new(pattern)?;
    Ok(
        re.captures(haystack).map(
            |caps|
                Capture {
                    start: caps.get_match().start(),
                    group: caps.get(group).map(|m| m.as_str().to_string()),
                },
        ),
    )
}

/// Calls `Regex::new` and then `Regex::replace_all`. Fails exactly when the
/// pattern does not compile. Where the pattern has no match in `haystack`,
/// the result is `haystack` unchanged; where it has one, the result has a
/// name.
#[verifier::external_body]
pub(crate) fn replace_all(pattern: &str, haystack: &str, replacement: &str) -> (r: Result<
    String,
    regex::Error,
>)
    ensures
        r is Ok <==> pattern_compiles(pattern@),
        r matches Ok(s) ==> s@ == if regex_captures(pattern@, haystack@, 0).len() == 0 {
            haystack@
        } else {
            regex_replaced(pattern@, haystack@, replacement@)
        },
{
    let re = Regex::new(pattern)?;
    Ok(re.replace_all(haystack, replacement).into_owned())
}

/// The matches of `pattern` in `haystack`; a pattern that does not compile
/// matches nothing.
pub open spec fn matches_of(pattern: Seq<char>, haystack: Seq<char>, group: nat) -> Seq<
    CaptureView,
> {
    if pattern_compiles(pattern) {
        regex_captures(pattern, haystack, group)
    } else {
        Seq::empty()
    }
}

/// Whether `pattern` has no match in `haystack`.
pub open spec fn unmatched(pattern: Seq<char>, haystack: Seq<char>) -> bool {
    matches_of(pattern, haystack, 0).len() == 0
}

/// `haystack` after replacing the matches of `pattern`; it stays as it is
/// where the pattern has no match or does not compile.
pub open spec fn replaced(pattern: Seq<char>, haystack: Seq<char>, replacement: Seq<char>) -> Seq<
    char,
> {
    if unmatched(pattern, haystack) {
        haystack
    } else {
        regex_replaced(pattern, haystack, replacement)
    }
}

/// All matches of `pattern` in `haystack`, with the text of group `group`.
pub fn find_all(pattern: &str, haystack: &str, group: usize) -> (found: Vec<Capture>)
    ensures
        capture_views(found@) == matches_of(pattern@, haystack@, group as nat),
        forall|i: int| 0 <= i < found.len() ==> lies_within(#[trigger] found[i]@, haystack@),
{
    match captures_iter(pattern, haystack, group) {
        Ok(found) => found,
        Err(_) => {
            let found: Vec<Capture> = Vec::new();
            assert(capture_views(found@) == Seq::<CaptureView>::empty());
            found
        },
    }
}

/// The first match of `pattern` in `haystack`, with the text of group `group`.
pub fn find_first(pattern: &str, haystack: &str, group: usize) -> (found: Option<Capture>)
    ensures
        capture_view(found) == first_capture(matches_of(pattern@, haystack@, group as nat)),
{
    match captures(pattern, haystack, group) {
        Ok(found) => found,
        Err(_) => None,
    }
}

/// `haystack` with the matches of `pattern` replaced by `replacement`, in
/// which `$n` stands for the text of group `n`.
pub fn substitute(pattern: &str, haystack: &str, replacement: &str) -> (r: String)
    ensures
        r@ == replaced(pattern@, haystack@, replacement@),
{
    match replace_all(pattern, haystack, replacement) {
        Ok(s) => s,
        Err(_) => haystack.to_owned(),
    }
}

} // verus!
