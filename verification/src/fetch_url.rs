//! The `fetch_url` tool: an http(s) page reduced to its readable text.
use vstd::prelude::*;
use crate::pattern::{replace_all, regex_compiles, regex_replaced};
use crate::ports::{HttpError, HttpFetcher};
use crate::text::{clean_seq, collapse_whitespace, push_str, starts_with, starts_with_seq, chars_of, string_of_range};

verus! {

/// How many characters of readable text a fetched page is cut to.
pub const MAX_OUTPUT_CHARS: usize = 4000;

pub const SCRIPT_PATTERN: &'static str = r"(?is)<script.*?</script>";

pub const STYLE_PATTERN: &'static str = r"(?is)<style.*?</style>";

pub const TAG_PATTERN: &'static str = r"<[^>]+>";

/// The arguments of `fetch_url`.
#[derive(Debug, Clone)]
pub struct FetchUrlArgs {
    /// The URL to fetch (http or https only).
    pub url: String,
}

/// The readable text of `html`: script and style blocks and then all tags
/// replaced by spaces, whitespace collapsed. Empty when a pattern does not
/// compile.
pub open spec fn html_text(html: Seq<char>) -> Seq<char> {
    if regex_compiles(SCRIPT_PATTERN@) && regex_compiles(STYLE_PATTERN@) && regex_compiles(TAG_PATTERN@) {
        clean_seq(
            regex_replaced(
                TAG_PATTERN@,
                regex_replaced(STYLE_PATTERN@, regex_replaced(SCRIPT_PATTERN@, html, " "@), " "@),
                " "@,
            ),
        )
    } else {
        Seq::empty()
    }
}

/// Strips `<script>`/`<style>` blocks and remaining tags, and collapses
/// whitespace.
pub fn html_to_text(html: &str) -> (r: String)
    ensures
        r@ == html_text(html@),
{
    let a = match replace_all(SCRIPT_PATTERN, html, " ") {
        Some(a) => a,
        None => return String::new(),
    };
    let b = match replace_all(STYLE_PATTERN, a.as_str(), " ") {
        Some(b) => b,
        None => return String::new(),
    };
    let c = match replace_all(TAG_PATTERN, b.as_str(), " ") {
        Some(c) => c,
        None => return String::new(),
    };
    collapse_whitespace(c.as_str())
}

/// What `fetch_url` returns for a page: its readable text, cut to
/// `MAX_OUTPUT_CHARS` characters with a note when longer.
pub open spec fn fetch_output(html: Seq<char>) -> Seq<char> {
    let t = html_text(html);
    if t.len() > MAX_OUTPUT_CHARS {
        t.subrange(0, MAX_OUTPUT_CHARS as int) + "\n\n[Contenido truncado.]"@
    } else {
        t
    }
}

pub fn page_text(html: &str) -> (r: String)
    ensures
        r@ == fetch_output(html@),
{
    let text = html_to_text(html);
    let chars = chars_of(text.as_str());
    if chars.len() > MAX_OUTPUT_CHARS {
        let mut out = string_of_range(&chars, 0, MAX_OUTPUT_CHARS);
        push_str(&mut out, "\n\n[Contenido truncado.]");
        out
    } else {
        text
    }
}

/// Whether `url` is an http or https URL.
pub open spec fn is_web_url(url: Seq<char>) -> bool {
    starts_with_seq(url, "http://"@) || starts_with_seq(url, "https://"@)
}

/// Fetches pages through an `HttpFetcher`.
pub struct FetchUrlTool<H: HttpFetcher> {
    fetcher: H,
}

impl<H: HttpFetcher> FetchUrlTool<H> {
    /// The fetcher the tool reads pages through.
    pub closed spec fn spec_fetcher(&self) -> H {
        self.fetcher
    }

    pub fn new(fetcher: H) -> (r: Self)
        ensures
            r.spec_fetcher() == fetcher,
    {
        FetchUrlTool { fetcher }
    }

    /// Fetches `args.url` and returns its readable text. A URL that is not
    /// http(s) is refused before any request; a failed fetch is returned as is.
    pub fn execute(&mut self, args: FetchUrlArgs) -> (r: Result<String, HttpError>)
        ensures
            !is_web_url(args.url@) ==> (r matches Err(HttpError::Request(m)) && m@ == "only http and https URLs are supported"@),
            is_web_url(args.url@) ==> exists|url: &str, res: Result<String, HttpError>|
                url@ == args.url@ && #[trigger] old(self).spec_fetcher().spec_fetches(url, &res) && match res {
                    Ok(body) => r matches Ok(t) && t@ == fetch_output(body@),
                    Err(e) => r == Err::<String, HttpError>(e),
                },
    {
        if !starts_with(args.url.as_str(), "http://") && !starts_with(args.url.as_str(), "https://") {
            return Err(HttpError::Request("only http and https URLs are supported".to_owned()));
        }
        let url = args.url.as_str();
        let fetched = self.fetcher.get(url);
        assert(old(self).spec_fetcher().spec_fetches(url, &fetched));
        let body = match fetched {
            Ok(b) => b,
            Err(e) => return Err(e),
        };
        Ok(page_text(body.as_str()))
    }
}

/// A page's text comes back whole when it has at most 4000 characters; a
/// longer one is cut to its first 4000 characters followed by a note that
/// it was truncated.
pub proof fn page_text_is_cut_at_the_limit(html: Seq<char>)
    ensures
        html_text(html).len() <= 4000 ==> fetch_output(html) == html_text(html),
        html_text(html).len() > 4000 ==> fetch_output(html).len() == 4000 + "\n\n[Contenido truncado.]"@.len()
            && fetch_output(html).subrange(0, 4000) == html_text(html).subrange(0, 4000)
            && fetch_output(html).subrange(4000, fetch_output(html).len() as int) == "\n\n[Contenido truncado.]"@,
{
    let t = html_text(html);
    if t.len() > 4000 {
        let out = fetch_output(html);
        assert(out.subrange(0, 4000) =~= t.subrange(0, 4000));
        assert(out.subrange(4000, out.len() as int) =~= "\n\n[Contenido truncado.]"@);
    }
}

} // verus!
