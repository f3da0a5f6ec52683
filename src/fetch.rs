//! Reading the replies to page requests, and the addresses those requests go to.

use vstd::prelude::*;
use crate::dom::{Node, parse_html, html_tree, MAX_PARSE_CHARS};
use crate::text::push_char;

verus! {

/// What came back for a page request.
pub enum Reply {
    /// The server answered with `status`; `body` is the page text, or `None`
    /// where it could not be read as text.
    Answered { status: u16, body: Option<String> },
    /// No answer: the name did not resolve, the connection failed or timed out.
    Unreachable,
}

/// Why a listing page could not be had.
#[derive(PartialEq, Eq, Structural, Debug, Clone, Copy)]
pub enum FetchError {
    UnexpectedStatus(u16),
    Unreachable,
    InvalidBody,
}

/// The listing page a reply stands for: `None` where the page does not exist.
/// A body too long to parse counts as an invalid one.
pub open spec fn index_outcome(reply: Reply) -> Result<Option<Node>, FetchError> {
    match reply {
        Reply::Answered { status, body } => if status == 200 {
            match body {
                Some(b) => if b@.len() <= MAX_PARSE_CHARS {
                    Ok(Some(html_tree(b@)))
                } else {
                    Err(FetchError::InvalidBody)
                },
                None => Err(FetchError::InvalidBody),
            }
        } else if status == 404 {
            Ok(None)
        } else {
            Err(FetchError::UnexpectedStatus(status))
        },
        Reply::Unreachable => Err(FetchError::Unreachable),
    }
}

/// Classifies the reply to a listing page request, and parses the page.
pub fn fetch_index_page(reply: Reply) -> (r: Result<Option<Node>, FetchError>)
    ensures
        r == index_outcome(reply),
{
    match reply {
        Reply::Answered { status, body } => if status == 200 {
            match body {
                Some(b) => if b.as_str().unicode_len() <= MAX_PARSE_CHARS {
                    Ok(Some(parse_html(b.as_str())))
                } else {
                    Err(FetchError::InvalidBody)
                },
                None => Err(FetchError::InvalidBody),
            }
        } else if status == 404 {
            Ok(None)
        } else {
            Err(FetchError::UnexpectedStatus(status))
        },
        Reply::Unreachable => Err(FetchError::Unreachable),
    }
}

pub open spec fn digit(d: nat) -> char {
    if d == 0 { '0' } else if d == 1 { '1' } else if d == 2 { '2' } else if d == 3 { '3' }
    else if d == 4 { '4' } else if d == 5 { '5' } else if d == 6 { '6' } else if d == 7 { '7' }
    else if d == 8 { '8' } else { '9' }
}

/// The decimal digits of `n`.
pub open spec fn decimal(n: nat) -> Seq<char>
    decreases n,
{
    if n < 10 {
        seq![digit(n)]
    } else {
        decimal(n / 10).push(digit(n % 10))
    }
}

fn digit_char(d: u64) -> (c: char)
    requires
        d < 10,
    ensures
        c == digit(d as nat),
{
    if d == 0 { '0' } else if d == 1 { '1' } else if d == 2 { '2' } else if d == 3 { '3' }
    else if d == 4 { '4' } else if d == 5 { '5' } else if d == 6 { '6' } else if d == 7 { '7' }
    else if d == 8 { '8' } else { '9' }
}

/// Appends the decimal digits of `n` to `out`.
pub fn push_decimal(out: &mut String, n: u64)
    ensures
        final(out)@ == old(out)@ + decimal(n as nat),
    decreases n,
{
    if n >= 10 {
        push_decimal(out, n / 10);
    }
    push_char(out, digit_char(n % 10));
}

/// The address of page `page` of the chapter listing of novel `novel`.
pub open spec fn index_url_of(novel: Seq<char>, page: nat) -> Seq<char> {
    "https://www.webnovelpub.com/novel/"@ + novel + "/chapters/page-"@ + decimal(page)
}

/// The address of a chapter page whose path on the site is `path`.
pub open spec fn chapter_url_of(path: Seq<char>) -> Seq<char> {
    "https://www.webnovelpub.com"@ + path
}

/// The address of page `page` of the chapter listing of novel `novel`.
pub fn index_url(novel: &str, page: u64) -> (r: String)
    ensures
        r@ == index_url_of(novel@, page as nat),
{
    let mut url = String::from_str("https://www.webnovelpub.com/novel/");
    url.append(novel);
    url.append("/chapters/page-");
    push_decimal(&mut url, page);
    url
}

/// The address of the chapter page whose path on the site is `path`.
pub fn chapter_url(path: &str) -> (r: String)
    ensures
        r@ == chapter_url_of(path@),
{
    let mut url = String::from_str("https://www.webnovelpub.com");
    url.append(path);
    url
}

} // verus!
