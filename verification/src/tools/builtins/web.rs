//! `web_search` and `web_fetch` — give the agent live web access.
//!
//! Both are read-only. A search goes to Exa where a key is configured, and otherwise to DuckDuckGo:
//! its page of results first, its instant answers where the page yields nothing.

use crate::engine::types;
use crate::engine::types::{OutputView, ToolOutput, ToolSpec, ToolView};
use crate::json;
use crate::json::{Json, JsonSpec, NumberSpec};
use crate::pairs;
use crate::pairs::Pair;
use crate::patterns;
use crate::text;
use crate::tools;
use crate::tools::Risk;
use crate::urls;
use vstd::prelude::*;
use vstd::string::*;

verus! {

broadcast use crate::text::views_push;

/// A common browser User-Agent so search and fetch endpoints don't serve a bot page.
pub const UA: &'static str =
    "Mozilla/5.0 (Windows NT 10.0; Win64; x64) AppleWebKit/537.36 (KHTML, like Gecko) Chrome/122.0 Safari/537.36";

/// What stands between two results.
pub const BREAK: &'static str = "\n\n---\n\n";

/// How much of a result's text is shown.
pub const SNIPPET_CHARS: usize = 600;

/// How much of a fetched page is shown.
pub const PAGE_CHARS: usize = 8000;

/// A result as it is shown.
pub open spec fn hit(title: Seq<char>, url: Seq<char>, body: Seq<char>) -> Seq<char> {
    title + "\n"@ + url + "\n"@ + text::first_chars(body, SNIPPET_CHARS as int)
}

fn show_hit(title: &str, url: &str, body: &str) -> (r: String)
    ensures
        r@ == hit(title@, url@, body@),
{
    let mut out = text::concat3(title, "\n", url);
    out.append("\n");
    out.append(text::take_chars(body, SNIPPET_CHARS));
    out
}

/// The string in a field, or the given text.
pub open spec fn string_or(v: JsonSpec, key: Seq<char>, other: Seq<char>) -> Seq<char> {
    match json::string_field(v, key) {
        Some(s) => s,
        None => other,
    }
}

fn field_or<'a>(v: &'a Json, key: &str, other: &'a str) -> (r: &'a str)
    ensures
        r@ == string_or(v.model(), key@, other@),
{
    match v.str_field(key) {
        Some(s) => s,
        None => other,
    }
}

// ---- Exa ------------------------------------------------------------------------------------

/// The body of an Exa search.
pub open spec fn exa_request(query: Seq<char>, num: u64) -> JsonSpec {
    JsonSpec::Object(
        json::pairs3(
            "query"@,
            JsonSpec::Str(query),
            "numResults"@,
            JsonSpec::Number(NumberSpec::PosInt(num)),
            "contents"@,
            JsonSpec::Object(
                json::pairs1(
                    "text"@,
                    JsonSpec::Object(
                        json::pairs1(
                            "maxCharacters"@,
                            JsonSpec::Number(NumberSpec::PosInt(2000)),
                        ),
                    ),
                ),
            ),
        ),
    )
}

/// The body of an Exa search.
pub fn exa_body(query: &str, num: u64) -> (r: Json)
    ensures
        r.model() == exa_request(query@, num),
{
    let mut limit = json::members();
    json::put(&mut limit, "maxCharacters", json::uint(2000));
    let mut contents = json::members();
    json::put(&mut contents, "text", json::object(limit));
    let mut m = json::members();
    json::put(&mut m, "query", json::string(query));
    json::put(&mut m, "numResults", json::uint(num));
    json::put(&mut m, "contents", json::object(contents));
    json::object(m)
}

/// An Exa result as it is shown: by its text, or by its summary where it has none.
pub open spec fn exa_hit(v: JsonSpec) -> Seq<char> {
    hit(
        string_or(v, "title"@, "(untitled)"@),
        string_or(v, "url"@, ""@),
        string_or(v, "text"@, string_or(v, "summary"@, ""@)),
    )
}

/// The results of an Exa search as they are shown.
pub open spec fn exa_results(v: JsonSpec) -> Seq<char> {
    match json::items_in(json::field_or_null(v, "results"@)) {
        Some(items) => if items.len() == 0 {
            "no results"@
        } else {
            text::joined(items.map_values(|i: JsonSpec| exa_hit(i)), BREAK@)
        },
        None => "no results"@,
    }
}

/// Render Exa results into a compact text block.
pub fn format_results(v: &Json) -> (r: String)
    ensures
        r@ == exa_results(v.model()),
{
    let items = match v.array_field("results") {
        Some(items) => items,
        None => return "no results".to_string(),
    };
    assert(json::items_model(items@).len() == items@.len());
    if items.len() == 0 {
        return "no results".to_string();
    }
    let mut out: Vec<String> = Vec::new();
    let mut i: usize = 0;
    while i < items.len()
        invariant
            0 <= i <= items@.len(),
            out@.len() == i,
            forall|k: int| 0 <= k < i ==> (#[trigger] out@[k])@ == exa_hit(items@[k].model()),
        decreases items@.len() - i,
    {
        let item = &items[i];
        let summary = field_or(item, "summary", "");
        out.push(
            show_hit(
                field_or(item, "title", "(untitled)"),
                field_or(item, "url", ""),
                field_or(item, "text", summary),
            ),
        );
        i += 1;
    }
    assert(text::views(out@) =~= json::items_model(items@).map_values(
        |i: JsonSpec| exa_hit(i),
    ));
    text::join(&out, BREAK)
}

// ---- DuckDuckGo -----------------------------------------------------------------------------

/// The tags of a page.
pub const TAGS: &'static str = "<[^>]+>";

/// The links of a page of results: address and title.
pub const LINKS: &'static str = "class=\"result__a\"[^>]*href=\"([^\"]+)\"[^>]*>(.*?)</a>";

/// The snippets of a page of results.
pub const SNIPPETS: &'static str = "class=\"result__snippet\"[^>]*>(.*?)</a>";

/// A text with common entities decoded and runs of white space made a single space.
pub open spec fn decoded(s: Seq<char>) -> Seq<char> {
    let s = text::replaced(s, "&amp;"@, "&"@);
    let s = text::replaced(s, "&#x27;"@, "'"@);
    let s = text::replaced(s, "&#39;"@, "'"@);
    let s = text::replaced(s, "&quot;"@, "\""@);
    let s = text::replaced(s, "&lt;"@, "<"@);
    let s = text::replaced(s, "&gt;"@, ">"@);
    let s = text::replaced(s, "&nbsp;"@, " "@);
    text::joined(text::words_of(s), " "@)
}

/// Decodes a handful of common entities and squeezes white space.
pub fn decode_entities(s: &str) -> (r: String)
    ensures
        r@ == decoded(s@),
{
    proof {
        reveal_strlit("&amp;");
        reveal_strlit("&#x27;");
        reveal_strlit("&#39;");
        reveal_strlit("&quot;");
        reveal_strlit("&lt;");
        reveal_strlit("&gt;");
        reveal_strlit("&nbsp;");
    }
    let s = text::replace(s, "&amp;", "&");
    let s = text::replace(s.as_str(), "&#x27;", "'");
    let s = text::replace(s.as_str(), "&#39;", "'");
    let s = text::replace(s.as_str(), "&quot;", "\"");
    let s = text::replace(s.as_str(), "&lt;", "<");
    let s = text::replace(s.as_str(), "&gt;", ">");
    let s = text::replace(s.as_str(), "&nbsp;", " ");
    text::join_strs(&text::words(s.as_str()), " ")
}

/// A title or snippet without its tags, decoded.
pub open spec fn cleaned(s: Seq<char>) -> Seq<char> {
    decoded(
        match patterns::regex_replaced(TAGS@, s, ""@) {
            Ok(t) => t,
            Err(_) => s,
        },
    )
}

/// Strip HTML tags and decode a handful of common entities from a snippet or title.
pub fn clean_html(s: &str) -> (r: String)
    ensures
        r@ == cleaned(s@),
{
    match patterns::replace_all(TAGS, s, "") {
        Ok(t) => decode_entities(t.as_str()),
        Err(_) => decode_entities(s),
    }
}

/// A result's address as a full URL.
pub open spec fn full_url(href: Seq<char>) -> Seq<char> {
    if text::begins(href, "//"@) {
        "https:"@ + href
    } else {
        href
    }
}

/// What a result's address leads to, given the pairs in its query: the first `uddg`, or the address
/// itself.
pub open spec fn led_to(href: Seq<char>, pairs: Option<Seq<Pair>>) -> Seq<char> {
    match pairs {
        Some(pairs) => match pairs::first_value(pairs, "uddg"@, 0) {
            Some(target) => target,
            None => href,
        },
        None => href,
    }
}

/// What a result's address leads to, given the pairs in its query.
pub fn target_of(href: &str, pairs: &Option<Vec<(String, String)>>) -> (r: String)
    ensures
        r@ == led_to(
            href@,
            match *pairs {
                Some(p) => Some(pairs::pair_views(p@)),
                None => None,
            },
        ),
{
    match pairs {
        Some(p) => match pairs::first_of(p, "uddg") {
            Some(target) => target,
            None => href.to_string(),
        },
        None => href.to_string(),
    }
}

/// DuckDuckGo wraps result links as `//duckduckgo.com/l/?uddg=<encoded target>`; unwrap it.
pub fn decode_ddg_url(href: &str) -> (r: String)
    ensures
        r@ == led_to(href@, urls::url_pairs(full_url(href@))),
{
    let full = if text::starts_with(href, "//") {
        text::concat2("https:", href)
    } else {
        href.to_string()
    };
    target_of(href, &urls::pairs_of(full.as_str()))
}

/// The form that asks for a page of results.
pub fn html_form(query: &str) -> (r: String)
    ensures
        r@ == "q="@ + urls::form_text(query@),
{
    text::concat2("q=", urls::encode_text(query).as_str())
}

/// The `i`th result of a page: its title and address from the link, its text from the snippet at the
/// same place.
pub open spec fn page_hit(
    links: Seq<Seq<Option<Seq<char>>>>,
    snippets: Seq<Seq<Option<Seq<char>>>>,
    i: int,
) -> Seq<char> {
    let href = patterns::group(links[i], 1);
    hit(
        cleaned(patterns::group(links[i], 2)),
        led_to(href, urls::url_pairs(full_url(href))),
        if i < snippets.len() {
            cleaned(patterns::group(snippets[i], 1))
        } else {
            seq![]
        },
    )
}

/// The first `num` results of a page, given its links and snippets.
pub open spec fn page_hits(
    links: Seq<Seq<Option<Seq<char>>>>,
    snippets: Seq<Seq<Option<Seq<char>>>>,
    num: nat,
) -> Seq<char> {
    let shown = if links.len() <= num {
        links.len()
    } else {
        num
    };
    text::joined(Seq::new(shown, |i: int| page_hit(links, snippets, i)), BREAK@)
}

/// The first `num` results of a page, given its links and snippets.
pub fn show_hits(
    links: &Vec<Vec<Option<String>>>,
    snippets: &Vec<Vec<Option<String>>>,
    num: usize,
) -> (r: String)
    ensures
        r@ == page_hits(patterns::matches_view(links@), patterns::matches_view(snippets@), num as nat),
{
    let ghost all_links = patterns::matches_view(links@);
    let ghost all_snippets = patterns::matches_view(snippets@);
    let shown: usize = if links.len() <= num {
        links.len()
    } else {
        num
    };
    let mut out: Vec<String> = Vec::new();
    let mut i: usize = 0;
    while i < shown
        invariant
            0 <= i <= shown <= links@.len(),
            all_links == patterns::matches_view(links@),
            all_snippets == patterns::matches_view(snippets@),
            out@.len() == i,
            forall|k: int|
                0 <= k < i ==> (#[trigger] out@[k])@ == page_hit(all_links, all_snippets, k),
        decreases shown - i,
    {
        assert(all_links[i as int] == patterns::groups_view(links@[i as int]@));
        let url = decode_ddg_url(patterns::group_of(&links[i], 1));
        let title = clean_html(patterns::group_of(&links[i], 2));
        let snippet = if i < snippets.len() {
            assert(all_snippets[i as int] == patterns::groups_view(snippets@[i as int]@));
            clean_html(patterns::group_of(&snippets[i], 1))
        } else {
            let none = String::new();
            assert(none@ =~= seq![]);
            none
        };
        out.push(show_hit(title.as_str(), url.as_str(), snippet.as_str()));
        i += 1;
    }
    assert(text::views(out@) =~= Seq::new(
        shown as nat,
        |i: int| page_hit(all_links, all_snippets, i),
    ));
    text::join(&out, BREAK)
}

/// The results in a page, where its links and snippets can be told.
pub fn page_results(html: &str, num: usize) -> (r: Option<String>)
    ensures
        text::opt_view(r) == (match (
            patterns::regex_captures(LINKS@, html@),
            patterns::regex_captures(SNIPPETS@, html@),
        ) {
            (Ok(links), Ok(snippets)) => Some(page_hits(links, snippets, num as nat)),
            _ => None,
        }),
{
    let links = match patterns::captures(LINKS, html) {
        Ok(links) => links,
        Err(_) => return None,
    };
    let snippets = match patterns::captures(SNIPPETS, html) {
        Ok(snippets) => snippets,
        Err(_) => return None,
    };
    Some(show_hits(&links, &snippets, num))
}

/// Where instant answers are asked for.
pub fn instant_url(query: &str) -> (r: String)
    ensures
        r@ == "https://api.duckduckgo.com/?q="@ + urls::form_text(query@)
            + "&format=json&no_html=1&no_redirect=1"@,
{
    text::concat3(
        "https://api.duckduckgo.com/?q=",
        urls::encode_text(query).as_str(),
        "&format=json&no_html=1&no_redirect=1",
    )
}

/// The summary that an instant answer starts with, where it has one.
pub open spec fn abstract_of(v: JsonSpec) -> Seq<Seq<char>> {
    let body = string_or(v, "AbstractText"@, ""@);
    if body.len() == 0 {
        seq![]
    } else {
        Seq::empty().push(
            string_or(v, "Heading"@, ""@) + "\n"@ + string_or(v, "AbstractURL"@, ""@) + "\n"@ + body,
        )
    }
}

/// The parts of an answer with those topics added that have a text, from `i` on, as long as there are
/// fewer than `num`.
pub open spec fn with_topics(
    parts: Seq<Seq<char>>,
    topics: Seq<JsonSpec>,
    num: nat,
    i: int,
) -> Seq<Seq<char>>
    decreases topics.len() - i,
{
    if i < 0 || i >= topics.len() || parts.len() >= num {
        parts
    } else {
        match json::string_field(topics[i], "Text"@) {
            Some(body) => with_topics(
                parts.push(string_or(topics[i], "FirstURL"@, ""@) + "\n"@ + body),
                topics,
                num,
                i + 1,
            ),
            None => with_topics(parts, topics, num, i + 1),
        }
    }
}

/// The parts of an instant answer.
pub open spec fn answer_parts(v: JsonSpec, num: nat) -> Seq<Seq<char>> {
    match json::items_in(json::field_or_null(v, "RelatedTopics"@)) {
        Some(topics) => with_topics(abstract_of(v), topics, num, 0),
        None => abstract_of(v),
    }
}

/// An instant answer as it is shown, where there is one.
pub fn instant_results(v: &Json, num: usize) -> (r: Option<String>)
    ensures
        text::opt_view(r) == (if answer_parts(v.model(), num as nat).len() == 0 {
            None
        } else {
            Some(text::joined(answer_parts(v.model(), num as nat), BREAK@))
        }),
{
    let mut out: Vec<String> = Vec::new();
    let body = field_or(v, "AbstractText", "");
    assert(text::views(out@) =~= seq![]);
    if body.unicode_len() > 0 {
        let mut part = text::concat3(
            field_or(v, "Heading", ""),
            "\n",
            field_or(v, "AbstractURL", ""),
        );
        part.append("\n");
        part.append(body);
        out.push(part);
    }
    assert(text::views(out@) =~= abstract_of(v.model()));
    if let Some(topics) = v.array_field("RelatedTopics") {
        let ghost all = json::items_model(topics@);
        let ghost wanted = answer_parts(v.model(), num as nat);
        let mut i: usize = 0;
        while i < topics.len() && out.len() < num
            invariant
                0 <= i <= topics@.len(),
                all == json::items_model(topics@),
                with_topics(text::views(out@), all, num as nat, i as int) == wanted,
            decreases topics@.len() - i,
        {
            assert(all[i as int] == topics@[i as int].model());
            if let Some(topic) = topics[i].str_field("Text") {
                out.push(text::concat3(field_or(&topics[i], "FirstURL", ""), "\n", topic));
            }
            i += 1;
        }
        assert(text::views(out@) == wanted);
    }
    assert(text::views(out@).len() == out@.len());
    if out.len() == 0 {
        None
    } else {
        Some(text::join(&out, BREAK))
    }
}

// ---- the tools ------------------------------------------------------------------------------

/// A search that is to be made.
pub struct SearchPlan {
    pub query: String,
    pub num: u64,
}

/// How a search ended.
pub enum SearchEnd {
    /// What Exa answered.
    Exa(Json),
    /// Exa answered with something that could not be read.
    ExaUnreadable(String),
    /// Exa could not be asked, or refused.
    ExaFailed(String),
    /// DuckDuckGo's results, and its instant answer where the page gave none.
    Ddg { page: Option<String>, instant: Option<String> },
    /// DuckDuckGo could not be asked.
    DdgFailed(String),
}

/// How many results an input asks for: one to ten.
pub open spec fn num_in(input: JsonSpec) -> u64 {
    match json::u64_in(json::field_or_null(input, "num_results"@)) {
        Some(n) => if n < 1 {
            1
        } else if n > 10 {
            10
        } else {
            n
        },
        None => 5,
    }
}

/// Whether a page gave results, so that no instant answer is wanted.
pub open spec fn page_suffices(page: Option<Seq<char>>) -> bool {
    page matches Some(t) && t.len() > 0
}

/// Whether a page gave results, so that no instant answer is wanted.
pub fn suffices(page: &Option<String>) -> (r: bool)
    ensures
        r == page_suffices(text::opt_view(*page)),
{
    match page {
        Some(t) => t.as_str().unicode_len() > 0,
        None => false,
    }
}

/// What DuckDuckGo found: the page's results, else the instant answer.
pub open spec fn ddg_answer(page: Option<Seq<char>>, instant: Option<Seq<char>>) -> Seq<char> {
    if page_suffices(page) {
        page->0
    } else {
        match instant {
            Some(t) => t,
            None => "no results"@,
        }
    }
}

/// What the model is told of a search.
pub open spec fn search_told(end: SearchEnd) -> OutputView {
    match end {
        SearchEnd::Exa(v) => types::output_ok(exa_results(v.model())),
        SearchEnd::ExaUnreadable(e) => types::output_error("web_search: bad response: "@ + e@),
        SearchEnd::ExaFailed(e) => types::output_error("web_search (exa): "@ + e@),
        SearchEnd::Ddg { page, instant } => types::output_ok(
            ddg_answer(text::opt_view(page), text::opt_view(instant)),
        ),
        SearchEnd::DdgFailed(e) => types::output_error("web_search (duckduckgo): "@ + e@),
    }
}

/// What the search tool is advertised as.
pub open spec fn search_spec() -> ToolView {
    ToolView {
        name: "web_search"@,
        description: SEARCH_DESCRIPTION@,
        input_schema: tools::object_spec(
            json::pairs2(
                "query"@,
                tools::typed_spec("string"@),
                "num_results"@,
                JsonSpec::Object(
                    json::pairs3(
                        "type"@,
                        JsonSpec::Str("integer"@),
                        "minimum"@,
                        JsonSpec::Number(NumberSpec::PosInt(1)),
                        "maximum"@,
                        JsonSpec::Number(NumberSpec::PosInt(10)),
                    ),
                ),
            ),
            Seq::empty().push("query"@),
        ),
    }
}

pub const SEARCH_DESCRIPTION: &'static str =
    "Search the web for current information. Uses Exa if EXA_API_KEY is set, otherwise a free key-less DuckDuckGo search. Returns titles, URLs, and snippets.";

pub struct WebSearch;

impl WebSearch {
    pub fn spec(&self) -> (r: ToolSpec)
        ensures
            r@ == search_spec(),
    {
        let mut num = json::members();
        json::put(&mut num, "type", json::string("integer"));
        json::put(&mut num, "minimum", json::uint(1));
        json::put(&mut num, "maximum", json::uint(10));
        let mut p = json::members();
        json::put(&mut p, "query", tools::typed("string"));
        json::put(&mut p, "num_results", json::object(num));
        tools::advertise(
            "web_search",
            SEARCH_DESCRIPTION,
            tools::object_schema(p, &tools::one_name("query")),
        )
    }

    pub fn risk(&self) -> (r: Risk)
        ensures
            r == Risk::ReadOnly,
    {
        Risk::ReadOnly
    }

    /// The search that an input asks for, or what the model is told where it asks for none.
    pub fn plan(input: &Json) -> (r: Result<SearchPlan, ToolOutput>)
        ensures
            match (json::string_field(input.model(), "query"@), r) {
                (Some(query), Ok(plan)) => plan.query@ == query && plan.num == num_in(
                    input.model(),
                ),
                (None, Err(out)) => out@ == types::output_error("web_search: missing `query`"@),
                _ => false,
            },
    {
        match input.str_field("query") {
            Some(query) => {
                let num: u64 = match input.u64_field("num_results") {
                    Some(n) => if n < 1 {
                        1
                    } else if n > 10 {
                        10
                    } else {
                        n
                    },
                    None => 5,
                };
                Ok(SearchPlan { query: query.to_string(), num })
            },
            None => Err(ToolOutput::error("web_search: missing `query`")),
        }
    }

    /// What the model is told of a search.
    pub fn finish(end: SearchEnd) -> (r: ToolOutput)
        ensures
            r@ == search_told(end),
    {
        match end {
            SearchEnd::Exa(v) => ToolOutput::ok(format_results(&v).as_str()),
            SearchEnd::ExaUnreadable(e) => {
                ToolOutput::error(
                    text::concat2("web_search: bad response: ", e.as_str()).as_str(),
                )
            },
            SearchEnd::ExaFailed(e) => {
                ToolOutput::error(text::concat2("web_search (exa): ", e.as_str()).as_str())
            },
            SearchEnd::Ddg { page, instant } => {
                if suffices(&page) {
                    match page {
                        Some(t) => ToolOutput::ok(t.as_str()),
                        None => ToolOutput::ok("no results"),
                    }
                } else {
                    match instant {
                        Some(t) => ToolOutput::ok(t.as_str()),
                        None => ToolOutput::ok("no results"),
                    }
                }
            },
            SearchEnd::DdgFailed(e) => {
                ToolOutput::error(
                    text::concat2("web_search (duckduckgo): ", e.as_str()).as_str(),
                )
            },
        }
    }
}

pub struct WebFetch;

/// What the fetching tool is advertised as.
pub open spec fn fetch_spec() -> ToolView {
    ToolView {
        name: "web_fetch"@,
        description: "Fetch a URL and return its text content (truncated)."@,
        input_schema: tools::object_spec(
            json::pairs1("url"@, tools::typed_spec("string"@)),
            Seq::empty().push("url"@),
        ),
    }
}

impl WebFetch {
    pub fn spec(&self) -> (r: ToolSpec)
        ensures
            r@ == fetch_spec(),
    {
        let mut p = json::members();
        json::put(&mut p, "url", tools::typed("string"));
        tools::advertise(
            "web_fetch",
            "Fetch a URL and return its text content (truncated).",
            tools::object_schema(p, &tools::one_name("url")),
        )
    }

    pub fn risk(&self) -> (r: Risk)
        ensures
            r == Risk::ReadOnly,
    {
        Risk::ReadOnly
    }

    /// The URL that an input asks for, or what the model is told where it asks for none.
    pub fn plan(input: &Json) -> (r: Result<String, ToolOutput>)
        ensures
            match (json::string_field(input.model(), "url"@), r) {
                (Some(url), Ok(u)) => u@ == url,
                (None, Err(out)) => out@ == types::output_error("web_fetch: missing `url`"@),
                _ => false,
            },
    {
        match input.str_field("url") {
            Some(url) => Ok(url.to_string()),
            None => Err(ToolOutput::error("web_fetch: missing `url`")),
        }
    }

    /// What the model is told: the start of the page, or why it could not be had.
    pub fn finish(page: Result<String, String>) -> (r: ToolOutput)
        ensures
            r@ == (match page {
                Ok(body) => types::output_ok(text::first_chars(body@, PAGE_CHARS as int)),
                Err(e) => types::output_error("web_fetch: "@ + e@),
            }),
    {
        match page {
            Ok(body) => ToolOutput::ok(text::take_chars(body.as_str(), PAGE_CHARS)),
            Err(e) => ToolOutput::error(text::concat2("web_fetch: ", e.as_str()).as_str()),
        }
    }
}

// ---- what holds of a search -----------------------------------------------------------------

/// The results of a page are its links, one for one and in order, as far as they are asked for: each
/// with its own title and address, and with the snippet that stands at the same place.
pub proof fn each_link_is_shown_with_its_snippet(
    links: Seq<Seq<Option<Seq<char>>>>,
    snippets: Seq<Seq<Option<Seq<char>>>>,
    num: nat,
)
    requires
        num > 0,
        links.len() > 0,
    ensures
        exists|hits: Seq<Seq<char>>|
            {
                &&& page_hits(links, snippets, num) == #[trigger] text::joined(hits, BREAK@)
                &&& hits.len() <= num && hits.len() <= links.len()
                &&& hits.len() == num || hits.len() == links.len()
                &&& forall|i: int|
                    0 <= i < hits.len() ==> {
                        let url = led_to(
                            patterns::group(links[i], 1),
                            urls::url_pairs(full_url(patterns::group(links[i], 1))),
                        );
                        let title = cleaned(patterns::group(links[i], 2));
                        &&& (title + seq!['\n'] + url + seq!['\n']).is_prefix_of(
                            #[trigger] hits[i],
                        )
                        &&& i < snippets.len() ==> {
                            let snippet = cleaned(patterns::group(snippets[i], 1));
                            &&& snippet.len() <= 600 ==> snippet.is_suffix_of(hits[i])
                            &&& snippet.len() > 600 ==> snippet.take(600).is_suffix_of(hits[i])
                        }
                    }
            },
{
    let shown = if links.len() <= num {
        links.len()
    } else {
        num
    };
    let hits = Seq::new(shown, |i: int| page_hit(links, snippets, i));
    reveal_strlit("\n");
    assert("\n"@ =~= seq!['\n']);
    assert forall|i: int| 0 <= i < hits.len() implies {
        let url = led_to(
            patterns::group(links[i], 1),
            urls::url_pairs(full_url(patterns::group(links[i], 1))),
        );
        let title = cleaned(patterns::group(links[i], 2));
        &&& (title + seq!['\n'] + url + seq!['\n']).is_prefix_of(#[trigger] hits[i])
        &&& i < snippets.len() ==> {
            let snippet = cleaned(patterns::group(snippets[i], 1));
            &&& snippet.len() <= 600 ==> snippet.is_suffix_of(hits[i])
            &&& snippet.len() > 600 ==> snippet.take(600).is_suffix_of(hits[i])
        }
    } by {
        let href = patterns::group(links[i], 1);
        let url = led_to(href, urls::url_pairs(full_url(href)));
        let title = cleaned(patterns::group(links[i], 2));
        let front = title + seq!['\n'] + url + seq!['\n'];
        assert(front =~= hits[i].subrange(0, front.len() as int));
        if i < snippets.len() {
            let snippet = cleaned(patterns::group(snippets[i], 1));
            let cut = if snippet.len() <= 600 {
                snippet
            } else {
                snippet.take(600)
            };
            assert(cut =~= text::first_chars(snippet, 600));
            assert(cut =~= hits[i].subrange(hits[i].len() - cut.len(), hits[i].len() as int));
        }
    }
    assert(page_hits(links, snippets, num) == text::joined(hits, BREAK@));
}

proof fn lemma_topics(parts: Seq<Seq<char>>, topics: Seq<JsonSpec>, num: nat, i: int)
    requires
        0 <= i <= topics.len(),
        parts.len() <= num,
        forall|k: int|
            0 <= k < topics.len() ==> json::string_field(#[trigger] topics[k], "Text"@) is Some
                && json::string_field(topics[k], "FirstURL"@) is Some,
    ensures
        ({
            let left = topics.len() - i;
            let room = num - parts.len();
            let count = if left <= room {
                left
            } else {
                room
            };
            with_topics(parts, topics, num, i) == parts + Seq::new(
                count as nat,
                |k: int|
                    json::string_field(topics[i + k], "FirstURL"@)->0 + "\n"@ + json::string_field(
                        topics[i + k],
                        "Text"@,
                    )->0,
            )
        }),
    decreases topics.len() - i,
{
    let left = topics.len() - i;
    let room = num - parts.len();
    let count = if left <= room {
        left
    } else {
        room
    };
    let rest = Seq::new(
        count as nat,
        |k: int|
            json::string_field(topics[i + k], "FirstURL"@)->0 + "\n"@ + json::string_field(
                topics[i + k],
                "Text"@,
            )->0,
    );
    if count == 0 {
        assert(parts + rest =~= parts);
    } else {
        assert(json::string_field(topics[i], "Text"@) is Some);
        let first = json::string_field(topics[i], "FirstURL"@)->0 + "\n"@ + json::string_field(
            topics[i],
            "Text"@,
        )->0;
        lemma_topics(parts.push(first), topics, num, i + 1);
        let later = Seq::new(
            (count - 1) as nat,
            |k: int|
                json::string_field(topics[i + 1 + k], "FirstURL"@)->0 + "\n"@ + json::string_field(
                    topics[i + 1 + k],
                    "Text"@,
                )->0,
        );
        assert forall|k: int| 0 <= k < count implies #[trigger] (parts + rest)[parts.len() + k]
            == (parts.push(first) + later)[parts.len() + k] by {
            if k > 0 {
                assert(i + k == i + 1 + (k - 1));
            }
        }
        assert(parts + rest =~= parts.push(first) + later);
    }
}

/// An instant answer without a summary is its topics, one for one and in order, each with its address,
/// as far as they are asked for.
pub proof fn the_first_topics_are_shown(v: JsonSpec, topics: Seq<JsonSpec>, num: nat)
    requires
        json::field_or_null(v, "AbstractText"@) is Null,
        json::items_in(json::field_or_null(v, "RelatedTopics"@)) == Some(topics),
        forall|k: int|
            0 <= k < topics.len() ==> json::string_field(#[trigger] topics[k], "Text"@) is Some
                && json::string_field(topics[k], "FirstURL"@) is Some,
    ensures
        ({
            let parts = answer_parts(v, num);
            &&& topics.len() <= num ==> parts.len() == topics.len()
            &&& topics.len() > num ==> parts.len() == num
            &&& forall|k: int|
                0 <= k < parts.len() ==> (#[trigger] parts[k]) == json::string_field(
                    topics[k],
                    "FirstURL"@,
                )->0 + "\n"@ + json::string_field(topics[k], "Text"@)->0
        }),
{
    reveal_strlit("");
    assert(abstract_of(v) =~= seq![]);
    lemma_topics(seq![], topics, num, 0);
}

/// A search answers with every hit that it found, in order: its title, its address and the first
/// characters of its text.
pub proof fn every_hit_is_told(v: JsonSpec, items: Seq<JsonSpec>)
    requires
        json::field(v, "results"@) == Some(JsonSpec::Array(items)),
    ensures
        items.len() == 0 ==> exa_results(v) == "no results"@,
        items.len() == 1 ==> exa_results(v) == exa_hit(items[0]),
        items.len() > 1 ==> exists|before: JsonSpec| {
            &&& json::field(before, "results"@) == Some(JsonSpec::Array(items.drop_last()))
            &&& exa_results(v) == #[trigger] exa_results(before) + BREAK@ + exa_hit(items.last())
        },
{
    let shown = items.map_values(|i: JsonSpec| exa_hit(i));
    if items.len() > 1 {
        let before = JsonSpec::Object(
            seq![("results"@, JsonSpec::Array(items.drop_last()))],
        );
        reveal_with_fuel(json::member_from, 2);
        assert(json::field(before, "results"@) == Some(JsonSpec::Array(items.drop_last())));
        let most = items.drop_last().map_values(|i: JsonSpec| exa_hit(i));
        assert(shown.drop_last() =~= most);
        assert(exa_results(before) == text::joined(most, BREAK@));
        assert(exa_results(v) == exa_results(before) + BREAK@ + exa_hit(items.last()));
    }
}

/// A hit shows its title, its address and its text, or its summary where it has no text.
pub proof fn a_hit_is_told_as_found(
    v: JsonSpec,
    title: Seq<char>,
    url: Seq<char>,
    body: Seq<char>,
)
    requires
        json::string_field(v, "title"@) == Some(title),
        json::string_field(v, "url"@) == Some(url),
        json::string_field(v, "text"@) == Some(body) || (json::string_field(v, "text"@) is None
            && json::string_field(v, "summary"@) == Some(body)),
        body.len() <= SNIPPET_CHARS,
    ensures
        exa_hit(v) == title + "\n"@ + url + "\n"@ + body,
{
    assert(text::first_chars(body, SNIPPET_CHARS as int) =~= body);
}

/// A search asks for as many results as the input says, between one and ten, and for the input's own
/// words.
pub proof fn a_search_asks_for_what_is_wanted(input: JsonSpec, query: Seq<char>, n: u64)
    ensures
        1 <= n <= 10 && json::field(input, "num_results"@) == Some(
            JsonSpec::Number(NumberSpec::PosInt(n)),
        ) ==> num_in(input) == n,
        1 <= num_in(input) <= 10,
        json::string_field(exa_request(query, n), "query"@) == Some(query),
        json::field(exa_request(query, n), "numResults"@) == Some(
            JsonSpec::Number(NumberSpec::PosInt(n)),
        ),
{
    reveal_strlit("query");
    reveal_strlit("numResults");
    assert("query"@.len() == 5 && "numResults"@.len() == 10);
    reveal_with_fuel(json::member_from, 3);
}

/// What the page of results shows is the answer; the instant answer counts only where it shows
/// nothing.
pub proof fn the_page_counts_first(page: Seq<char>, instant: Option<Seq<char>>)
    ensures
        page.len() > 0 ==> ddg_answer(Some(page), instant) == page,
        instant matches Some(t) ==> ddg_answer(Some(Seq::empty()), instant) == t && ddg_answer(
            None,
            instant,
        ) == t,
{
}

/// An address without a scheme is one of the secure web; any other stands for itself.
pub proof fn an_address_gets_its_scheme(rest: Seq<char>, href: Seq<char>)
    requires
        href.len() > 0,
        href[0] != '/',
    ensures
        full_url("//"@ + rest) == "https:"@ + ("//"@ + rest),
        full_url(href) == href,
{
    reveal_strlit("//");
    let bare = "//"@ + rest;
    assert(bare.subrange(0, 2) =~= "//"@);
    if text::begins(href, "//"@) {
        assert(href.subrange(0, 2)[0] == href[0]);
    }
}

/// The abstract is shown with its heading and its address.
pub proof fn the_abstract_is_shown(
    v: JsonSpec,
    heading: Seq<char>,
    url: Seq<char>,
    body: Seq<char>,
)
    requires
        body.len() > 0,
        json::string_field(v, "Heading"@) == Some(heading),
        json::string_field(v, "AbstractURL"@) == Some(url),
        json::string_field(v, "AbstractText"@) == Some(body),
    ensures
        abstract_of(v) == seq![heading + "\n"@ + url + "\n"@ + body],
{
}

/// The text between an ampersand and a semicolon, both of them at its ends alone.
spec fn is_entity(p: Seq<char>) -> bool {
    &&& p.len() >= 2
    &&& p[0] == '&'
    &&& p.last() == ';'
    &&& forall|i: int| 0 < i < p.len() ==> #[trigger] p[i] != '&'
    &&& forall|i: int| 0 <= i < p.len() - 1 ==> #[trigger] p[i] != ';'
}

/// The text holds neither an ampersand nor a semicolon.
pub open spec fn is_plain(s: Seq<char>) -> bool {
    forall|i: int| 0 <= i < s.len() ==> #[trigger] s[i] != '&' && s[i] != ';'
}

/// The text holds no semicolon.
spec fn is_unmarked(s: Seq<char>) -> bool {
    forall|i: int| 0 <= i < s.len() ==> #[trigger] s[i] != ';'
}

proof fn lemma_entity_free(s: Seq<char>, p: Seq<char>, v: Seq<char>)
    requires
        is_entity(p),
        is_unmarked(s),
    ensures
        text::replaced(s, p, v) == s,
{
    text::lemma_found_from(s, p, 0);
    if let Some(k) = text::found_from(s, p, 0) {
        assert(s.subrange(k, k + p.len()).last() == s[k + p.len() - 1]);
    }
    assert(text::after(s, 0) =~= s);
}

proof fn lemma_entity_step(a: Seq<char>, e: Seq<char>, b: Seq<char>, p: Seq<char>, v: Seq<char>)
    requires
        is_plain(a),
        is_plain(b),
        is_entity(e),
        is_entity(p),
    ensures
        text::replaced(a + e + b, p, v) == (if p == e {
            a + v + b
        } else {
            a + e + b
        }),
{
    let s = a + e + b;
    let n = a.len() as int;
    text::lemma_found_from(s, p, 0);
    assert forall|i: int| text::occurs_at(s, p, i) implies i == n && p == e by {
        assert(s.subrange(i, i + p.len())[0] == s[i]);
        if i < n {
            assert(s[i] == a[i]);
        } else if i >= n + e.len() {
            assert(s[i] == b[i - n - e.len()]);
        } else if i > n {
            assert(s[i] == e[i - n]);
        }
        assert(i == n);
        assert forall|k: int| 0 <= k < p.len() && k < e.len() implies #[trigger] p[k] == e[k] by {
            assert(s.subrange(i, i + p.len())[k] == s[n + k]);
        }
        if p.len() < e.len() {
            assert(e[p.len() - 1] == p[p.len() - 1]);
        } else if p.len() > e.len() {
            assert(p[e.len() - 1] == e[e.len() - 1]);
        }
        assert(p =~= e);
    }
    if p == e {
        assert(s.subrange(n, n + p.len()) =~= p);
        assert(text::occurs_at(s, p, n));
        let next = n + p.len();
        text::lemma_found_from(s, p, next);
        assert(text::found_from(s, p, 0) == Some(n));
        assert(text::found_from(s, p, next) is None);
        assert(text::after(s, next) =~= b);
        assert(s.subrange(0, n) =~= a);
        assert(text::replaced_from(s, p, v, next) == b);
        assert(a + v + b =~= s.subrange(0, n) + v + text::replaced_from(s, p, v, next));
    } else {
        assert(text::after(s, 0) =~= s);
    }
}

/// The text stands for the character in a page.
pub open spec fn stands_for(e: Seq<char>, w: Seq<char>) -> bool {
    ||| e == "&amp;"@ && w == seq!['&']
    ||| e == "&#x27;"@ && w == seq!['\'']
    ||| e == "&#39;"@ && w == seq!['\'']
    ||| e == "&quot;"@ && w == seq!['"']
    ||| e == "&lt;"@ && w == seq!['<']
    ||| e == "&gt;"@ && w == seq!['>']
    ||| e == "&nbsp;"@ && w == seq![' ']
}

proof fn lemma_entity_kept(
    a: Seq<char>,
    e: Seq<char>,
    b: Seq<char>,
    w: Seq<char>,
    s: Seq<char>,
    p: Seq<char>,
    v: Seq<char>,
)
    requires
        is_plain(a),
        is_plain(b),
        is_entity(e),
        is_entity(p),
        is_unmarked(w),
        s == a + e + b || s == a + w + b,
        p == e ==> v == w,
    ensures
        text::replaced(s, p, v) == (if s == a + e + b && p == e {
            a + w + b
        } else {
            s
        }),
{
    if s == a + e + b {
        lemma_entity_step(a, e, b, p, v);
    } else {
        assert(is_unmarked(s));
        lemma_entity_free(s, p, v);
    }
}

proof fn lemma_entities()
    ensures
        is_entity("&amp;"@),
        is_entity("&#x27;"@),
        is_entity("&#39;"@),
        is_entity("&quot;"@),
        is_entity("&lt;"@),
        is_entity("&gt;"@),
        is_entity("&nbsp;"@),
        "&amp;"@[1] == 'a' && "&quot;"@[1] == 'q' && "&lt;"@[1] == 'l' && "&gt;"@[1] == 'g',
        "&nbsp;"@[1] == 'n' && "&#x27;"@[1] == '#' && "&#39;"@[1] == '#',
        "&#x27;"@.len() == 6 && "&#39;"@.len() == 5,
        "&"@ == seq!['&'],
        "'"@ == seq!['\''],
        "\""@ == seq!['"'],
        "<"@ == seq!['<'],
        ">"@ == seq!['>'],
        " "@ == seq![' '],
{
    reveal_strlit("&amp;");
    reveal_strlit("&#x27;");
    reveal_strlit("&#39;");
    reveal_strlit("&quot;");
    reveal_strlit("&lt;");
    reveal_strlit("&gt;");
    reveal_strlit("&nbsp;");
    reveal_strlit("&");
    reveal_strlit("'");
    reveal_strlit("\"");
    reveal_strlit("<");
    reveal_strlit(">");
    reveal_strlit(" ");
    assert("&"@ =~= seq!['&'] && "'"@ =~= seq!['\''] && "\""@ =~= seq!['"']);
    assert("<"@ =~= seq!['<'] && ">"@ =~= seq!['>'] && " "@ =~= seq![' ']);
}

/// What stands for a character in a page is shown as that character, and the words around it stay, one
/// space between each two.
pub proof fn an_entity_is_shown_as_its_character(
    a: Seq<char>,
    e: Seq<char>,
    b: Seq<char>,
    w: Seq<char>,
)
    requires
        is_plain(a),
        is_plain(b),
        stands_for(e, w),
    ensures
        decoded(a + e + b) == text::joined(text::words_of(a + w + b), " "@),
        decoded(a) == text::joined(text::words_of(a), " "@),
{
    lemma_entities();
    let s = a + e + b;
    lemma_entity_kept(a, e, b, w, s, "&amp;"@, "&"@);
    let s1 = text::replaced(s, "&amp;"@, "&"@);
    lemma_entity_kept(a, e, b, w, s1, "&#x27;"@, "'"@);
    let s2 = text::replaced(s1, "&#x27;"@, "'"@);
    lemma_entity_kept(a, e, b, w, s2, "&#39;"@, "'"@);
    let s3 = text::replaced(s2, "&#39;"@, "'"@);
    lemma_entity_kept(a, e, b, w, s3, "&quot;"@, "\""@);
    let s4 = text::replaced(s3, "&quot;"@, "\""@);
    lemma_entity_kept(a, e, b, w, s4, "&lt;"@, "<"@);
    let s5 = text::replaced(s4, "&lt;"@, "<"@);
    lemma_entity_kept(a, e, b, w, s5, "&gt;"@, ">"@);
    let s6 = text::replaced(s5, "&gt;"@, ">"@);
    lemma_entity_kept(a, e, b, w, s6, "&nbsp;"@, " "@);
    assert(is_unmarked(a));
    lemma_entity_free(a, "&amp;"@, "&"@);
    lemma_entity_free(a, "&#x27;"@, "'"@);
    lemma_entity_free(a, "&#39;"@, "'"@);
    lemma_entity_free(a, "&quot;"@, "\""@);
    lemma_entity_free(a, "&lt;"@, "<"@);
    lemma_entity_free(a, "&gt;"@, ">"@);
    lemma_entity_free(a, "&nbsp;"@, " "@);
}

} // verus!
