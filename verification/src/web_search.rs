//! The `web_search` tool: a DuckDuckGo HTML query, the results pulled out
//! of the page, and the text handed back to the model.
use vstd::prelude::*;
use vstd::utf8::{decode_utf8, encode_utf8, valid_utf8};
use crate::pattern::{captures_all, replace_all, regex_compiles, regex_captures, regex_replaced};
use crate::ports::{HttpError, HttpFetcher};
use crate::text::{clean_seq, collapse_whitespace, push_str, push_decimal, decimal_seq, starts_with_seq, chars_of, string_of_range};
use crate::url::{percent_encode, encode_bytes, percent_decode_bytes, decode_from, from_utf8_lossy, utf8_lossy};

verus! {

/// Matches one result link: its `href` and its inner HTML.
pub const LINK_PATTERN: &'static str = r#"(?s)class="result__a"[^>]*href="([^"]+)"[^>]*>(.*?)</a>"#;

/// Matches one result snippet's inner HTML.
pub const SNIPPET_PATTERN: &'static str = r#"(?s)class="result__snippet"[^>]*>(.*?)</a>"#;

/// Matches one HTML tag.
pub const TAG_PATTERN: &'static str = r"<[^>]+>";

/// The arguments of `web_search`.
#[derive(Debug, Clone)]
pub struct WebSearchArgs {
    /// The search query.
    pub query: String,
}

/// One search result.
#[derive(Debug, Clone, PartialEq, Eq)]
pub struct SearchResult {
    pub title: String,
    pub url: String,
    pub snippet: String,
}

impl SearchResult {
    pub open spec fn view_triple(self) -> (Seq<char>, Seq<char>, Seq<char>) {
        (self.title@, self.url@, self.snippet@)
    }
}

/// `value` encoded for a query string: unreserved bytes kept, spaces as
/// `+`, everything else as `%XX`.
pub fn urlencode(value: &str) -> (r: String)
    ensures
        r@ == encode_bytes(encode_utf8(value@), true),
{
    percent_encode(value, true)
}

/// What `url_decode` yields for `value`.
pub open spec fn url_decoded(value: Seq<char>) -> Seq<char> {
    utf8_lossy(decode_from(encode_utf8(value), 0))
}

/// Decodes `%XX` escapes and `+` in `value`; bytes that are not valid
/// UTF-8 become U+FFFD.
pub fn url_decode(value: &str) -> (r: String)
    ensures
        r@ == url_decoded(value@),
        valid_utf8(decode_from(encode_utf8(value@), 0)) ==> r@ == decode_utf8(decode_from(encode_utf8(value@), 0)),
{
    let bytes = percent_decode_bytes(value);
    from_utf8_lossy(bytes.as_slice())
}

/// Whitespace runs collapsed to single spaces, ends trimmed.
pub fn clean_text(text: &str) -> (r: String)
    ensures
        r@ == clean_seq(text@),
{
    collapse_whitespace(text)
}

/// The index of the first `c` in `s`.
pub open spec fn first_index_of(s: Seq<char>, c: char, from: int) -> Option<int>
    decreases s.len() - from,
{
    if from < 0 || from >= s.len() {
        None
    } else if s[from] == c {
        Some(from)
    } else {
        first_index_of(s, c, from + 1)
    }
}

pub proof fn lemma_first_index_of_range(s: Seq<char>, c: char, from: int)
    ensures
        first_index_of(s, c, from) matches Some(k) ==> from <= k < s.len() && s[k] == c,
    decreases s.len() - from,
{
    if 0 <= from < s.len() && s[from] != c {
        lemma_first_index_of_range(s, c, from + 1);
    }
}

fn find_char(s: &Vec<char>, c: char, from: usize) -> (r: Option<usize>)
    requires
        from <= s@.len(),
    ensures
        match r {
            Some(k) => first_index_of(s@, c, from as int) == Some(k as int) && from <= k < s@.len(),
            None => first_index_of(s@, c, from as int) is None,
        },
{
    let mut i = from;
    while i < s.len()
        invariant
            from <= i <= s@.len(),
            first_index_of(s@, c, from as int) == first_index_of(s@, c, i as int),
        decreases s@.len() - i,
    {
        if s[i] == c {
            return Some(i);
        }
        i = i + 1;
    }
    None
}

/// The value of the first `uddg=` pair in the query `q[from..]`.
pub open spec fn uddg_param(q: Seq<char>, from: int) -> Option<Seq<char>>
    decreases q.len() - from,
{
    if from < 0 || from > q.len() {
        None
    } else {
        let end = match first_index_of(q, '&', from) {
            Some(k) => k,
            None => q.len() as int,
        };
        let seg = q.subrange(from, end);
        if starts_with_seq(seg, "uddg="@) {
            Some(seg.subrange(5, seg.len() as int))
        } else if end < q.len() {
            proof {
                lemma_first_index_of_range(q, '&', from);
            }
            uddg_param(q, end + 1)
        } else {
            None
        }
    }
}

/// The real target of a DuckDuckGo redirect link: the URL-decoded `uddg`
/// query parameter, or the link unchanged when it has no such parameter.
pub open spec fn ddg_target(href: Seq<char>) -> Seq<char> {
    match first_index_of(href, '?', 0) {
        Some(k) => match uddg_param(href, k + 1) {
            Some(v) => url_decoded(v),
            None => href,
        },
        None => href,
    }
}

fn chars_start_with(s: &Vec<char>, from: usize, end: usize, prefix: &str) -> (r: bool)
    requires
        from <= end <= s@.len(),
    ensures
        r == starts_with_seq(s@.subrange(from as int, end as int), prefix@),
{
    let seg = string_of_range(s, from, end);
    crate::text::starts_with(seg.as_str(), prefix)
}

/// Extracts the real target URL from a DuckDuckGo redirect href.
pub fn decode_ddg_redirect(href: &str) -> (r: String)
    ensures
        r@ == ddg_target(href@),
{
    let chars = chars_of(href);
    let q = match find_char(&chars, '?', 0) {
        Some(q) => q,
        None => return href.to_owned(),
    };
    let mut from = q + 1;
    while from <= chars.len()
        invariant
            q < chars@.len(),
            q + 1 <= from <= chars@.len() + 1,
            chars@ == href@,
            first_index_of(href@, '?', 0) == Some(q as int),
            uddg_param(chars@, q + 1) == uddg_param(chars@, from as int),
        decreases chars@.len() + 1 - from,
    {
        let end = match find_char(&chars, '&', from) {
            Some(k) => k,
            None => chars.len(),
        };
        if chars_start_with(&chars, from, end, "uddg=") {
            proof {
                reveal_strlit("uddg=");
            }
            let value = string_of_range(&chars, from + 5, end);
            assert(value@ == chars@.subrange(from as int, end as int).subrange(5, (end - from) as int));
            return url_decode(value.as_str());
        }
        if end >= chars.len() {
            return href.to_owned();
        }
        from = end + 1;
    }
    href.to_owned()
}

/// The results parsed out of a results page: one per result link, paired
/// in order with the snippets, titles and snippets stripped of tags and
/// whitespace-collapsed, links resolved through `ddg_target`. Empty when a
/// pattern does not compile.
pub open spec fn search_results(html: Seq<char>) -> Seq<(Seq<char>, Seq<char>, Seq<char>)> {
    if regex_compiles(LINK_PATTERN@) && regex_compiles(SNIPPET_PATTERN@) && regex_compiles(TAG_PATTERN@) {
        let links = regex_captures(LINK_PATTERN@, html, 2);
        let snippets = regex_captures(SNIPPET_PATTERN@, html, 1);
        let n = if links.len() < snippets.len() { links.len() } else { snippets.len() };
        Seq::new(
            n,
            |i: int|
                (
                    clean_seq(regex_replaced(TAG_PATTERN@, links[i][1], ""@)),
                    ddg_target(links[i][0]),
                    clean_seq(regex_replaced(TAG_PATTERN@, snippets[i][0], ""@)),
                ),
        )
    } else {
        Seq::empty()
    }
}

/// The title, URL and snippet of each result a DuckDuckGo HTML results
/// page lists.
pub fn parse_results(html: &str) -> (r: Vec<SearchResult>)
    ensures
        r@.map_values(|x: SearchResult| x.view_triple()) == search_results(html@),
{
    let links = match captures_all(LINK_PATTERN, html, 2) {
        Some(v) => v,
        None => return Vec::new(),
    };
    let snippets = match captures_all(SNIPPET_PATTERN, html, 1) {
        Some(v) => v,
        None => return Vec::new(),
    };
    let n = if links.len() < snippets.len() { links.len() } else { snippets.len() };
    let ghost lv = regex_captures(LINK_PATTERN@, html@, 2);
    let ghost sv = regex_captures(SNIPPET_PATTERN@, html@, 1);
    let mut out: Vec<SearchResult> = Vec::new();
    let mut i: usize = 0;
    while i < n
        invariant
            i <= n,
            n == if links@.len() < snippets@.len() { links@.len() } else { snippets@.len() },
            lv == crate::pattern::captures_view(links@),
            sv == crate::pattern::captures_view(snippets@),
            forall|k: int| 0 <= k < links@.len() ==> (#[trigger] links@[k])@.len() == 2,
            forall|k: int| 0 <= k < snippets@.len() ==> (#[trigger] snippets@[k])@.len() == 1,
            regex_compiles(LINK_PATTERN@),
            regex_compiles(SNIPPET_PATTERN@),
            out@.len() == i,
            forall|k: int| 0 <= k < i ==> (#[trigger] out@[k]).view_triple() == (
                clean_seq(regex_replaced(TAG_PATTERN@, lv[k][1], ""@)),
                ddg_target(lv[k][0]),
                clean_seq(regex_replaced(TAG_PATTERN@, sv[k][0], ""@)),
            ),
            i > 0 ==> regex_compiles(TAG_PATTERN@),
        decreases n - i,
    {
        let link = &links[i];
        let snippet = &snippets[i];
        let title_html = match replace_all(TAG_PATTERN, link[1].as_str(), "") {
            Some(t) => t,
            None => return Vec::new(),
        };
        let snippet_html = match replace_all(TAG_PATTERN, snippet[0].as_str(), "") {
            Some(t) => t,
            None => return Vec::new(),
        };
        let title = clean_text(title_html.as_str());
        let snippet_text = clean_text(snippet_html.as_str());
        let url = decode_ddg_redirect(link[0].as_str());
        out.push(SearchResult { title, url, snippet: snippet_text });
        i = i + 1;
    }
    if n == 0 {
        match replace_all(TAG_PATTERN, "", "") {
            Some(_) => {},
            None => return Vec::new(),
        }
    }
    assert(out@.map_values(|x: SearchResult| x.view_triple()) =~= search_results(html@));
    out
}

/// One line of the results text: `<n>. <title> — <snippet>` then the URL
/// on an indented line.
pub open spec fn result_line(n: nat, r: (Seq<char>, Seq<char>, Seq<char>)) -> Seq<char> {
    decimal_seq(n) + ". "@ + r.0 + " — "@ + r.2 + "\n   "@ + r.1
}

/// The first `n` results' lines, numbered from 1, joined by newlines.
pub open spec fn result_lines(rs: Seq<(Seq<char>, Seq<char>, Seq<char>)>, n: int) -> Seq<char>
    decreases n,
{
    if n <= 0 {
        Seq::empty()
    } else if n == 1 {
        result_line(1, rs[0])
    } else {
        result_lines(rs, n - 1) + "\n"@ + result_line(n as nat, rs[n - 1])
    }
}

/// What `web_search` tells the model about `rs`: the first five results,
/// or a no-results sentence.
pub open spec fn results_text(rs: Seq<(Seq<char>, Seq<char>, Seq<char>)>) -> Seq<char> {
    if rs.len() == 0 {
        "Sin resultados para esa búsqueda."@
    } else {
        result_lines(rs, if rs.len() < 5 { rs.len() as int } else { 5 })
    }
}

/// The text for a list of results.
pub fn format_results(results: &Vec<SearchResult>) -> (s: String)
    ensures
        s@ == results_text(results@.map_values(|x: SearchResult| x.view_triple())),
{
    let ghost rs = results@.map_values(|x: SearchResult| x.view_triple());
    if results.len() == 0 {
        return "Sin resultados para esa búsqueda.".to_owned();
    }
    let n = if results.len() < 5 { results.len() } else { 5 };
    let mut s = String::new();
    let mut i: usize = 0;
    while i < n
        invariant
            i <= n <= 5,
            n <= results@.len(),
            rs == results@.map_values(|x: SearchResult| x.view_triple()),
            s@ == result_lines(rs, i as int),
        decreases n - i,
    {
        let ghost before = s@;
        if i > 0 {
            push_str(&mut s, "\n");
        }
        push_decimal(&mut s, (i + 1) as u64);
        push_str(&mut s, ". ");
        push_str(&mut s, results[i].title.as_str());
        push_str(&mut s, " — ");
        push_str(&mut s, results[i].snippet.as_str());
        push_str(&mut s, "\n   ");
        push_str(&mut s, results[i].url.as_str());
        proof {
            if i == 0 {
                assert(before.len() == 0);
                assert(s@ =~= result_line(1, rs[0]));
            } else {
                assert(s@ =~= before + "\n"@ + result_line((i + 1) as nat, rs[i as int]));
            }
        }
        i = i + 1;
    }
    s
}

/// The text `web_search` returns for a results page.
pub fn search_output(html: &str) -> (s: String)
    ensures
        s@ == results_text(search_results(html@)),
{
    let results = parse_results(html);
    format_results(&results)
}

/// The DuckDuckGo HTML endpoint queried for `query`.
pub open spec fn search_url_of(query: Seq<char>) -> Seq<char> {
    "https://html.duckduckgo.com/html/?q="@ + encode_bytes(encode_utf8(query), true)
}

/// The DuckDuckGo HTML endpoint queried for `query`.
pub fn search_url(query: &str) -> (s: String)
    ensures
        s@ == search_url_of(query@),
{
    let mut s = "https://html.duckduckgo.com/html/?q=".to_owned();
    let q = urlencode(query);
    push_str(&mut s, q.as_str());
    s
}

/// Searches the web through an `HttpFetcher`.
pub struct WebSearchTool<H: HttpFetcher> {
    fetcher: H,
}

impl<H: HttpFetcher> WebSearchTool<H> {
    /// The fetcher the tool searches through.
    pub closed spec fn spec_fetcher(&self) -> H {
        self.fetcher
    }

    pub fn new(fetcher: H) -> (r: Self)
        ensures
            r.spec_fetcher() == fetcher,
    {
        WebSearchTool { fetcher }
    }

    /// Fetches the results page for `args.query` and returns its results as
    /// text; a failed fetch is returned as is.
    pub fn execute(&mut self, args: WebSearchArgs) -> (r: Result<String, HttpError>)
        ensures
            exists|url: &str, res: Result<String, HttpError>|
                url@ == search_url_of(args.query@) && #[trigger] old(self).spec_fetcher().spec_fetches(url, &res) && match res {
                    Ok(body) => r matches Ok(t) && t@ == results_text(search_results(body@)),
                    Err(e) => r == Err::<String, HttpError>(e),
                },
    {
        let url = search_url(args.query.as_str());
        let target = url.as_str();
        let fetched = self.fetcher.get(target);
        assert(old(self).spec_fetcher().spec_fetches(target, &fetched));
        let body = match fetched {
            Ok(b) => b,
            Err(e) => return Err(e),
        };
        Ok(search_output(body.as_str()))
    }
}

/// The first `n` lines depend only on the first `n` results.
proof fn lemma_result_lines_prefix(a: Seq<(Seq<char>, Seq<char>, Seq<char>)>, b: Seq<(Seq<char>, Seq<char>, Seq<char>)>, n: int)
    requires
        0 <= n <= a.len(),
        n <= b.len(),
        forall|i: int| 0 <= i < n ==> a[i] == b[i],
    ensures
        result_lines(a, n) == result_lines(b, n),
    decreases n,
{
    if n > 1 {
        lemma_result_lines_prefix(a, b, n - 1);
    }
}

/// The search report lists the top results in the order they were found:
/// with no result it says so; the first result's title, snippet and URL
/// open it as line `1.`; each of the next results, up to the fifth, adds
/// a line numbered one more carrying that result; results after the
/// fifth are left out.
pub proof fn search_report_lists_the_top_results(results: Seq<SearchResult>)
    ensures
        ({
            let rs = results.map_values(|x: SearchResult| x.view_triple());
            &&& results.len() == 0 ==> results_text(rs) == "Sin resultados para esa búsqueda."@
            &&& results.len() > 0 ==> results_text(rs.take(1)) == "1. "@ + results[0].title@ + " — "@ + results[0].snippet@
                + "\n   "@ + results[0].url@
            &&& forall|m: int| 1 <= m < 5 && m < results.len() ==> #[trigger] results_text(rs.take(m + 1)) == results_text(rs.take(m))
                + "\n"@ + decimal_seq((m + 1) as nat) + ". "@ + results[m].title@ + " — "@ + results[m].snippet@ + "\n   "@
                + results[m].url@
            &&& results_text(rs) == results_text(rs.take(if results.len() < 5 { results.len() as int } else { 5 }))
        }),
{
    let rs = results.map_values(|x: SearchResult| x.view_triple());
    if results.len() > 0 {
        let one = rs.take(1);
        reveal_strlit("1");
        reveal_strlit("1. ");
        reveal_strlit(". ");
        assert(decimal_seq(1) =~= "1"@);
        assert("1. "@ =~= decimal_seq(1) + ". "@);
        assert(one[0] == rs[0]);
        assert(rs[0] == results[0].view_triple());
        assert(results_text(one) == result_line(1, rs[0]));
        assert(results_text(one) =~= "1. "@ + results[0].title@ + " — "@ + results[0].snippet@ + "\n   "@ + results[0].url@);
    }
    assert forall|m: int| 1 <= m < 5 && m < results.len() implies #[trigger] results_text(rs.take(m + 1)) == results_text(rs.take(m))
        + "\n"@ + decimal_seq((m + 1) as nat) + ". "@ + results[m].title@ + " — "@ + results[m].snippet@ + "\n   "@
        + results[m].url@ by {
        let a = rs.take(m + 1);
        let b = rs.take(m);
        lemma_result_lines_prefix(a, b, m);
        assert(a[m] == rs[m]);
        assert(results_text(a) == result_lines(a, m + 1));
        assert(results_text(b) == result_lines(b, m));
        assert(results_text(a) =~= results_text(b) + "\n"@ + decimal_seq((m + 1) as nat) + ". "@ + results[m].title@ + " — "@
            + results[m].snippet@ + "\n   "@ + results[m].url@);
    }
    let k: int = if results.len() < 5 { results.len() as int } else { 5 };
    let top = rs.take(k);
    if k > 0 {
        lemma_result_lines_prefix(rs, top, k);
    }
}

proof fn lemma_first_index_at(s: Seq<char>, c: char, from: int, k: int)
    requires
        0 <= from <= k < s.len(),
        s[k] == c,
        forall|j: int| from <= j < k ==> s[j] != c,
    ensures
        first_index_of(s, c, from) == Some(k),
    decreases k - from,
{
    if from < k {
        lemma_first_index_at(s, c, from + 1, k);
    }
}

/// A DuckDuckGo redirect link leads to its target: for a link
/// `<base>?uddg=<target, percent-encoded>&<rest>` whose base holds no `?`,
/// the target read back is the target's own UTF-8, decoded.
pub proof fn a_redirect_leads_to_its_target(base: Seq<char>, target: Seq<char>, rest: Seq<char>, space_as_plus: bool)
    requires
        forall|i: int| 0 <= i < base.len() ==> base[i] != '?',
    ensures
        ddg_target(base + "?uddg="@ + encode_bytes(encode_utf8(target), space_as_plus) + "&"@ + rest)
            == utf8_lossy(encode_utf8(target)),
{
    reveal_strlit("?uddg=");
    reveal_strlit("uddg=");
    reveal_strlit("&");
    let enc = encode_bytes(encode_utf8(target), space_as_plus);
    crate::url::encoding_is_query_safe(encode_utf8(target), space_as_plus);
    let href = base + "?uddg="@ + enc + "&"@ + rest;
    let b = base.len() as int;
    assert(href[b] == '?');
    assert forall|j: int| 0 <= j < b implies href[j] != '?' by {
        assert(href[j] == base[j]);
    }
    lemma_first_index_at(href, '?', 0, b);
    let amp = b + 6 + enc.len();
    assert(href[amp] == '&');
    assert forall|j: int| b + 1 <= j < amp implies href[j] != '&' by {
        if j < b + 6 {
            assert(href[j] == "?uddg="@[j - b]);
        } else {
            assert(href[j] == enc[j - b - 6]);
        }
    }
    lemma_first_index_at(href, '&', b + 1, amp);
    let seg = href.subrange(b + 1, amp);
    assert(seg =~= "uddg="@ + enc);
    assert(seg.subrange(0, 5) =~= "uddg="@);
    assert(seg.subrange(5, seg.len() as int) =~= enc);
    assert(uddg_param(href, b + 1) == Some(enc));
    crate::url::percent_decoding_inverts_encoding(encode_utf8(target), space_as_plus);
}

} // verus!
