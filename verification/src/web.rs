//! URLs and HTTP status codes.
use vstd::prelude::*;

use crate::numeral::decimal;
use crate::text::{opt_view, views};

verus! {

/// The parts of a URL that this library reads.
pub struct UrlParts {
    pub scheme: String,
    pub host: Option<String>,
    /// The segments of the path, percent-encoded; nothing where the URL cannot be a base.
    pub segments: Option<Vec<String>>,
}

/// The parts of a URL.
#[verifier::ext_equal]
pub struct UrlView {
    pub scheme: Seq<char>,
    pub host: Option<Seq<char>>,
    pub segments: Option<Seq<Seq<char>>>,
}

impl View for UrlParts {
    type V = UrlView;

    open spec fn view(&self) -> UrlView {
        UrlView {
            scheme: self.scheme@,
            host: opt_view(self.host),
            segments: match self.segments {
                Some(s) => Some(views(s@)),
                None => None,
            },
        }
    }
}

/// The parts of the URL that a text is, or why it is none.
pub uninterp spec fn url_parsed(text: Seq<char>) -> Result<UrlView, Seq<char>>;

/// `url::Url::parse`, and of the URL `scheme`, `host_str` and `path_segments`;
/// of the error its words. All are functions of the text, which are named here.
#[verifier::external_body]
pub(crate) fn parse_url(text: &str) -> (r: Result<UrlParts, String>)
    ensures
        match r {
            Ok(p) => url_parsed(text@) == Ok::<UrlView, Seq<char>>(p@),
            Err(e) => url_parsed(text@) == Err::<UrlView, Seq<char>>(e@),
        },
{
    match url::Url::parse(text) {
        Ok(u) => Ok(UrlParts {
            scheme: u.scheme().to_string(),
            host: u.host_str().map(|h| h.to_string()),
            segments: u.path_segments().map(|s| s.map(|p| p.to_string()).collect()),
        }),
        Err(e) => Err(e.to_string()),
    }
}

/// A text with its percent escapes decoded; nothing where the bytes are not UTF-8.
pub uninterp spec fn percent_decoded(text: Seq<char>) -> Option<Seq<char>>;

/// `percent_encoding::percent_decode_str` and `decode_utf8` on what it gives:
/// the decoded text is a function of the text, which is named here. A text
/// without a percent sign is its own decoded text.
#[verifier::external_body]
pub(crate) fn percent_decode(text: &str) -> (r: Option<String>)
    ensures
        opt_view(r) == percent_decoded(text@),
        !text@.contains('%') ==> opt_view(r) == Some(text@),
{
    percent_encoding::percent_decode_str(text).decode_utf8().ok().map(|c| c.into_owned())
}

/// The reason phrase of an HTTP status code.
pub uninterp spec fn reason_phrase(code: u16) -> Seq<char>;

/// An HTTP status code in words.
pub open spec fn status_words(code: u16) -> Seq<char> {
    decimal(code as nat) + " "@ + reason_phrase(code)
}

/// The text of a `reqwest::StatusCode`: the code in decimal, a space and the
/// canonical reason, or `<unknown status code>` where it has none. The last
/// part is a function of the code, which is named here.
#[verifier::external_body]
pub(crate) fn status_text(code: u16) -> (r: String)
    requires
        100 <= code <= 999,
    ensures
        r@ == decimal(code as nat) + " "@ + reason_phrase(code),
{
    reqwest::StatusCode::from_u16(code).map(|s| s.to_string()).unwrap_or_default()
}

/// A status that tells of success.
pub open spec fn success_status(code: u16) -> bool {
    200 <= code <= 299
}

/// Whether a status tells of success.
pub fn is_success(code: u16) -> (r: bool)
    ensures
        r == (200 <= code <= 299),
{
    200 <= code && code <= 299
}

/// A status code has three digits, the first of which tells its class.
pub proof fn status_digits(code: nat)
    requires
        100 <= code <= 999,
    ensures
        decimal(code).len() == 3,
        decimal(code)[0] == crate::numeral::digit_char(code / 100),
{
    reveal_with_fuel(decimal, 4);
    assert(code / 10 / 10 == code / 100);
}

} // verus!
