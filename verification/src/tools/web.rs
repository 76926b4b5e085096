//! Bridges to the web crates the tools compute with: URL parsing,
//! robots.txt matching, readable-content extraction and HTML-to-Markdown
//! conversion. Each result is a function of the arguments alone and is
//! named by a specification function.

use vstd::prelude::*;

verus! {

/// The Markdown rendering of an HTML document.
pub uninterp spec fn markdown_of(html: Seq<char>) -> Seq<char>;

/// The readable main content of an HTML document at a URL, when one can
/// be extracted from a well-formed absolute URL.
pub uninterp spec fn readable_of(html: Seq<char>, url: Seq<char>) -> Option<Seq<char>>;

/// The normalized text of a well-formed absolute URL.
pub uninterp spec fn url_normal_of(s: Seq<char>) -> Option<Seq<char>>;

/// The robots.txt location at the root of a well-formed absolute URL.
pub uninterp spec fn robots_url_of(s: Seq<char>) -> Option<Seq<char>>;

/// Whether a robots.txt body allows the agent to fetch the URL.
pub uninterp spec fn robots_allows(robots: Seq<char>, agent: Seq<char>, url: Seq<char>) -> bool;

/// Relies on `html2md::parse_html`: the Markdown text of the document,
/// a function of the input alone.
#[verifier::external_body]
pub(crate) fn html_to_markdown(html: &str) -> (r: String)
    ensures
        r@ == markdown_of(html@),
{
    html2md::parse_html(html)
}

/// Relies on `readability::extractor::extract` (the url string is converted through
/// `url::Url::parse` for it): the readable main content, a function of
/// the two inputs alone; `None` when the URL does not parse or extraction
/// fails.
#[verifier::external_body]
pub(crate) fn extract_readable(html: &str, url: &str) -> (r: Option<String>)
    ensures
        match r {
            Some(c) => readable_of(html@, url@) == Some(c@),
            None => readable_of(html@, url@) is None,
        },
{
    let parsed = match url::Url::parse(url) {
        Ok(u) => u,
        Err(_) => return None,
    };
    let mut cursor = std::io::Cursor::new(html.as_bytes());
    match readability::extractor::extract(&mut cursor, &parsed) {
        Ok(product) => Some(product.content),
        Err(_) => None,
    }
}

/// Relies on `url::Url::parse` (and its `Display` form): the normalized
/// URL text; `None` exactly when the input is not a well-formed absolute
/// URL.
#[verifier::external_body]
pub(crate) fn normalize_url(s: &str) -> (r: Option<String>)
    ensures
        match r {
            Some(u) => url_normal_of(s@) == Some(u@),
            None => url_normal_of(s@) is None,
        },
{
    match url::Url::parse(s) {
        Ok(u) => Some(u.as_str().to_string()),
        Err(_) => None,
    }
}

/// Relies on `url::Url::join` (the input is converted through
/// `url::Url::parse` for it): the `/robots.txt` location at the URL's
/// root.
#[verifier::external_body]
pub(crate) fn robots_txt_url(s: &str) -> (r: Option<String>)
    ensures
        match r {
            Some(u) => robots_url_of(s@) == Some(u@),
            None => robots_url_of(s@) is None,
        },
{
    let parsed = match url::Url::parse(s) {
        Ok(u) => u,
        Err(_) => return None,
    };
    match parsed.join("/robots.txt") {
        Ok(r) => Some(r.as_str().to_string()),
        Err(_) => None,
    }
}

/// The number of characters on the line ending at position `i`.
pub open spec fn line_run_at(s: Seq<char>, i: int) -> int
    decreases i,
{
    if i <= 0 {
        0
    } else if s[i - 1] == '\n' || s[i - 1] == '\r' {
        0
    } else {
        1 + line_run_at(s, i - 1)
    }
}

/// Every line of the text is shorter than 4096 characters. The matcher
/// caps lines at 16,663 bytes and, past the cap, advances its byte cursor
/// by character counts, so an over-long line whose excess holds multi-byte
/// characters makes it slice off a character boundary and panic; 4096
/// characters keep every line at no more than 16,384 bytes, safely under
/// the cap.
pub open spec fn robots_lines_short(s: Seq<char>) -> bool {
    forall|i: int| 0 <= i <= s.len() ==> #[trigger] line_run_at(s, i) < 4096
}

/// Whether every line of the text is short enough for the matcher.
pub fn robots_lines_ok(robots_txt: &str) -> (b: bool)
    ensures
        b == robots_lines_short(robots_txt@),
{
    let chars = crate::trusted_str::str_to_chars(robots_txt);
    let n = chars.len();
    let mut run: usize = 0;
    for i in 0..n
        invariant
            n == chars@.len(),
            chars@ == robots_txt@,
            run < 4096,
            run as int == line_run_at(robots_txt@, i as int),
            forall|w: int| 0 <= w <= i ==> #[trigger] line_run_at(robots_txt@, w) < 4096,
    {
        let c = chars[i];
        if c == '\n' || c == '\r' {
            run = 0;
        } else {
            run = run + 1;
        }
        proof {
            assert(run as int == line_run_at(robots_txt@, i + 1));
        }
        if run >= 4096 {
            proof {
                assert(line_run_at(robots_txt@, i + 1) >= 4096);
                assert(!robots_lines_short(robots_txt@));
            }
            return false;
        }
    }
    true
}

/// Relies on `robotstxt::DefaultMatcher::one_agent_allowed_by_robots`:
/// whether the robots.txt body allows the agent to fetch the URL, a
/// function of the three inputs alone. Bodies with over-long lines are
/// excluded: on those the matcher's line splitter can panic (see
/// `robots_lines_short`).
#[verifier::external_body]
pub(crate) fn robots_allowed(robots_txt: &str, user_agent: &str, url: &str) -> (r: bool)
    requires
        robots_lines_short(robots_txt@),
    ensures
        r == robots_allows(robots_txt@, user_agent@, url@),
{
    let mut matcher = robotstxt::DefaultMatcher::default();
    matcher.one_agent_allowed_by_robots(robots_txt, user_agent, url)
}

} // verus!
