//! Addresses of papers on arXiv.

use crate::pattern::{capture_view, captures, first_capture, pattern_compiles, regex_captures, Capture, CaptureView};
use crate::text::{from_chars, lines, lines_of, push_all, strings, texts, to_chars, trim, trim_chars};
use url::Url;
use vstd::prelude::*;

verus! {

/// The error of `Url::parse`, of which nothing is looked at.
#[verifier::external_type_specification]
#[verifier::external_body]
pub struct ExUrlParseError(url::ParseError);

/// A paper identifier of the current form, such as `2401.08027v2`, behind
/// `arxiv.org/abs/` or `arxiv.org/pdf/`.
pub const NEW_ID_PATTERN: &'static str = r"arxiv\.org/(?:abs|pdf)/([0-9]+\.?[0-9]+(?:v[0-9]+)?)";

/// A paper identifier of the old form, such as `hep-th/9901001`.
pub const OLD_ID_PATTERN: &'static str = r"arxiv\.org/(?:abs|pdf)/([a-z-]+/[0-9]+(?:v[0-9]+)?)";

/// What the address of the source bundle of a paper starts with.
pub const SOURCE_PREFIX: &'static str = "https://arxiv.org/src/";

/// Why a text is not the address of an arXiv paper.
#[derive(Debug, Clone, Copy, PartialEq, Eq, Structural)]
pub enum ArxivError {
    /// The text is not an absolute URL.
    InvalidUrl,
    /// A pattern for paper identifiers did not compile.
    InvalidPattern,
    /// The URL holds no paper identifier.
    NoPaperId,
}

/// The address of an arXiv paper.
#[derive(Debug)]
pub struct ArxivUrl {
    pub paper_id: String,
    pub src_url: String,
}

/// The serialization of the URL that `Url::parse` makes of `input`, or `None`
/// when it rejects `input`.
pub uninterp spec fn url_serialization(input: Seq<char>) -> Option<Seq<char>>;

/// Calls `Url::parse` and hands out the serialization of the parsed URL,
/// which `Url::as_str` gives. Fails exactly when `Url::parse` rejects the
/// input.
#[verifier::external_body]
pub(crate) fn parse_url(input: &str) -> (r: Result<String, url::ParseError>)
    ensures
        match r {
            Ok(s) => url_serialization(input@) == Some(s@),
            Err(_) => url_serialization(input@) is None,
        },
{
    let parsed = Url::parse(input)?;
    Ok(parsed.as_str().to_string())
}

/// The identifier that a match of an identifier pattern holds.
pub open spec fn id_in(found: Option<CaptureView>) -> Option<Seq<char>> {
    match found {
        Some(c) => c.group,
        None => None,
    }
}

/// The identifier that the matches of the two patterns give: that of the
/// current form if there is one, else that of the old form.
pub open spec fn id_from(current: Option<CaptureView>, old: Option<CaptureView>) -> Result<
    Seq<char>,
    ArxivError,
> {
    match id_in(current) {
        Some(id) => Ok(id),
        None => match id_in(old) {
            Some(id) => Ok(id),
            None => Err(ArxivError::NoPaperId),
        },
    }
}

/// The paper identifier in `url`. The pattern of the old form is only
/// compiled when that of the current form finds nothing.
pub open spec fn paper_id_in(url: Seq<char>) -> Result<Seq<char>, ArxivError> {
    if !pattern_compiles(NEW_ID_PATTERN@) {
        Err(ArxivError::InvalidPattern)
    } else {
        let current = first_capture(regex_captures(NEW_ID_PATTERN@, url, 1));
        if id_in(current) is Some {
            id_from(current, None)
        } else if !pattern_compiles(OLD_ID_PATTERN@) {
            Err(ArxivError::InvalidPattern)
        } else {
            id_from(current, first_capture(regex_captures(OLD_ID_PATTERN@, url, 1)))
        }
    }
}

/// An identifier or the reason why there is none, as a mathematical value.
pub open spec fn id_view(r: Result<String, ArxivError>) -> Result<Seq<char>, ArxivError> {
    match r {
        Ok(id) => Ok(id@),
        Err(e) => Err(e),
    }
}

/// Picks the identifier from the matches of the two patterns.
pub fn paper_id_from_captures(current: &Option<Capture>, old: &Option<Capture>) -> (r: Result<
    String,
    ArxivError,
>)
    ensures
        id_view(r) == id_from(capture_view(*current), capture_view(*old)),
{
    if let Some(c) = current {
        if let Some(id) = &c.group {
            return Ok(id.clone());
        }
    }
    if let Some(c) = old {
        if let Some(id) = &c.group {
            return Ok(id.clone());
        }
    }
    Err(ArxivError::NoPaperId)
}

/// Finds the paper identifier in the text of a URL.
pub fn extract_paper_id(url: &str) -> (r: Result<String, ArxivError>)
    ensures
        id_view(r) == paper_id_in(url@),
{
    let current = match captures(NEW_ID_PATTERN, url, 1) {
        Ok(found) => found,
        Err(_) => {
            return Err(ArxivError::InvalidPattern);
        },
    };
    let has_id = match &current {
        Some(c) => c.group.is_some(),
        None => false,
    };
    if has_id {
        return paper_id_from_captures(&current, &None);
    }
    let old = match captures(OLD_ID_PATTERN, url, 1) {
        Ok(found) => found,
        Err(_) => {
            return Err(ArxivError::InvalidPattern);
        },
    };
    paper_id_from_captures(&current, &old)
}

/// An address as a mathematical value.
pub struct ArxivUrlView {
    pub paper_id: Seq<char>,
    pub src_url: Seq<char>,
}

impl View for ArxivUrl {
    type V = ArxivUrlView;

    open spec fn view(&self) -> ArxivUrlView {
        ArxivUrlView { paper_id: self.paper_id@, src_url: self.src_url@ }
    }
}

/// The address of the paper with identifier `id`.
pub open spec fn address_of(id: Seq<char>) -> ArxivUrlView {
    ArxivUrlView { paper_id: id, src_url: SOURCE_PREFIX@ + id }
}

/// What parsing `url` gives.
pub open spec fn parsed(url: Seq<char>) -> Result<ArxivUrlView, ArxivError> {
    match url_serialization(url) {
        None => Err(ArxivError::InvalidUrl),
        Some(s) => match paper_id_in(s) {
            Ok(id) => Ok(address_of(id)),
            Err(e) => Err(e),
        },
    }
}

/// An address or the reason why there is none, as a mathematical value.
pub open spec fn address_view(r: Result<ArxivUrl, ArxivError>) -> Result<ArxivUrlView, ArxivError> {
    match r {
        Ok(a) => Ok(a@),
        Err(e) => Err(e),
    }
}

impl ArxivUrl {
    /// The address of the paper with identifier `paper_id`.
    pub fn for_paper(paper_id: String) -> (r: ArxivUrl)
        ensures
            r@ == address_of(paper_id@),
    {
        let mut address = to_chars(SOURCE_PREFIX);
        push_all(&mut address, &to_chars(paper_id.as_str()));
        ArxivUrl { paper_id, src_url: from_chars(&address) }
    }

    /// Reads the address of a paper from a URL: the text must be an absolute
    /// URL, and its serialization must hold a paper identifier.
    pub fn parse(url: &str) -> (r: Result<ArxivUrl, ArxivError>)
        ensures
            address_view(r) == parsed(url@),
    {
        let serialization = match parse_url(url) {
            Ok(s) => s,
            Err(_) => {
                return Err(ArxivError::InvalidUrl);
            },
        };
        match extract_paper_id(serialization.as_str()) {
            Ok(id) => Ok(Self::for_paper(id)),
            Err(e) => Err(e),
        }
    }

    /// The identifier of the paper.
    pub fn paper_id(&self) -> (r: &str)
        ensures
            r@ == self.paper_id@,
    {
        self.paper_id.as_str()
    }
}

impl ArxivError {
    /// A sentence that says what went wrong.
    pub fn message(&self) -> (r: String)
        ensures
            r@ == match self {
                ArxivError::InvalidUrl => "not an absolute URL"@,
                ArxivError::InvalidPattern => "a paper identifier pattern did not compile"@,
                ArxivError::NoPaperId => "Invalid arXiv URL format"@,
            },
    {
        match self {
            ArxivError::InvalidUrl => "not an absolute URL".to_owned(),
            ArxivError::InvalidPattern => "a paper identifier pattern did not compile".to_owned(),
            ArxivError::NoPaperId => "Invalid arXiv URL format".to_owned(),
        }
    }
}

/// The lines that hold more than whitespace, as they are.
pub open spec fn nonblank(ls: Seq<Seq<char>>) -> Seq<Seq<char>>
    decreases ls.len(),
{
    if ls.len() == 0 {
        Seq::empty()
    } else if trim(ls.last()).len() > 0 {
        nonblank(ls.drop_last()).push(ls.last())
    } else {
        nonblank(ls.drop_last())
    }
}

/// The addresses listed in a batch file: one on each line that is not blank.
pub open spec fn urls_in(content: Seq<char>) -> Seq<Seq<char>> {
    nonblank(lines(content))
}

/// Reads the addresses listed in a batch file, one on each line; blank lines
/// are passed over.
pub fn batch_urls(content: &str) -> (r: Vec<String>)
    ensures
        strings(r@) == urls_in(content@),
{
    let ls = lines_of(&to_chars(content));
    let mut urls: Vec<String> = Vec::new();
    let n = ls.len();
    let mut i: usize = 0;
    while i < n
        invariant
            i <= n,
            n == ls.len(),
            strings(urls@) == nonblank(texts(ls@).take(i as int)),
        decreases n - i,
    {
        assert(texts(ls@).take(i + 1).drop_last() == texts(ls@).take(i as int));
        if trim_chars(&ls[i]).len() > 0 {
            let ghost before = strings(urls@);
            urls.push(from_chars(&ls[i]));
            assert(strings(urls@) == before.push(ls@[i as int]@));
        }
        i += 1;
    }
    assert(texts(ls@).take(n as int) == texts(ls@));
    urls
}

} // verus!
