//! The browser tool: which URL it fetches, and how it reports the page.

use vstd::prelude::*;

use crate::text::{chars_of, string_from_chars, string_from_range, trim, trimmed};

verus! {

broadcast use vstd::string::group_string_axioms;

/// The browser tool: fetches a URL and previews the page.
pub struct BrowserTool;

/// How many characters of a page the preview shows.
pub const PREVIEW_CHARS: usize = 500;

/// The report of a fetched page: its first 500 characters, framed.
pub open spec fn preview_text(body: Seq<char>) -> Seq<char> {
    "Page content preview:\n"@ + body.take(
        if body.len() < PREVIEW_CHARS {
            body.len() as int
        } else {
            PREVIEW_CHARS as int
        },
    ) + "..."@
}

impl BrowserTool {
    /// The tool's name.
    pub fn name(&self) -> (n: &'static str)
        ensures
            n@ == "browser"@,
    {
        "browser"
    }

    /// The URL to fetch: the arguments without surrounding white space; an
    /// empty URL is refused.
    pub fn target_url(arguments: &str) -> (r: Result<String, String>)
        ensures
            trim(arguments@).len() == 0 ==> (r matches Err(m) && m@
                == "BrowserTool requires a URL argument"@),
            trim(arguments@).len() > 0 ==> (r matches Ok(u) && u@ == trim(arguments@)),
    {
        let v = chars_of(arguments);
        let url = trimmed(&v);
        if url.len() == 0 {
            return Err("BrowserTool requires a URL argument".to_owned());
        }
        Ok(string_from_chars(&url))
    }

    /// The tool's answer for a fetched page: the first 500 characters of
    /// the body, after `Page content preview:` and a newline, then `...`.
    pub fn page_preview(body: &str) -> (s: String)
        ensures
            s@ == preview_text(body@),
    {
        let v = chars_of(body);
        let n = if v.len() < PREVIEW_CHARS {
            v.len()
        } else {
            PREVIEW_CHARS
        };
        let shown = string_from_range(&v, 0, n);
        assert(v@.subrange(0, n as int) =~= body@.take(n as int));
        let mut s = "Page content preview:\n".to_owned();
        s.append(shown.as_str());
        s.append("...");
        s
    }

    /// The message when the URL could not be fetched (`error` is the
    /// HTTP client's error text).
    pub fn fetch_failed(url: &str, error: &str) -> (m: String)
        ensures
            m@ == "Failed to fetch URL '"@ + url@ + "': "@ + error@,
    {
        let mut m = "Failed to fetch URL '".to_owned();
        m.append(url);
        m.append("': ");
        m.append(error);
        m
    }

    /// The message when the response body could not be read.
    pub fn body_failed(error: &str) -> (m: String)
        ensures
            m@ == "Failed to read response body: "@ + error@,
    {
        let mut m = "Failed to read response body: ".to_owned();
        m.append(error);
        m
    }
}

} // verus!
