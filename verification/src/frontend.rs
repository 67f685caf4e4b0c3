//! The pages that the agent and the server show.

use crate::http;
use crate::http::Reply;
use crate::text;
use vstd::prelude::*;

verus! {

/// The name of the file that a path asks for.
pub open spec fn page_name(default_page: Seq<char>, path: Seq<char>) -> Seq<char> {
    let name = text::trimmed_start(path, '/');
    if name.len() == 0 {
        default_page
    } else {
        name
    }
}

/// The content type of a file, by the end of its name.
pub open spec fn content_type(name: Seq<char>) -> Seq<char> {
    if ".html"@.is_suffix_of(name) {
        "text/html; charset=utf-8"@
    } else if ".js"@.is_suffix_of(name) {
        "application/javascript"@
    } else if ".css"@.is_suffix_of(name) {
        "text/css"@
    } else {
        "application/octet-stream"@
    }
}

/// The content of the first file of a given name.
pub open spec fn asset(assets: Seq<(String, Vec<u8>)>, name: Seq<char>) -> Option<Seq<u8>>
    decreases assets.len(),
{
    if assets.len() == 0 {
        None
    } else if assets[0].0@ == name {
        Some(assets[0].1@)
    } else {
        asset(assets.drop_first(), name)
    }
}

fn mime_of(name: &str) -> (r: &'static str)
    ensures
        r@ == content_type(name@),
{
    if text::strip_suffix(name, ".html").is_some() {
        "text/html; charset=utf-8"
    } else if text::strip_suffix(name, ".js").is_some() {
        "application/javascript"
    } else if text::strip_suffix(name, ".css").is_some() {
        "text/css"
    } else {
        "application/octet-stream"
    }
}

/// The page that a path asks for, as text with its content type; the default page where the
/// path names none.
pub fn serve(default_page: &str, path: &str, assets: &Vec<(String, Vec<u8>)>) -> (r: Option<
    (String, &'static str),
>)
    ensures
        match asset(assets@, page_name(default_page@, path@)) {
            Some(bytes) => {
                &&& r matches Some((page, kind))
                &&& page@ == http::lossy_text(bytes)
                &&& kind@ == content_type(page_name(default_page@, path@))
            },
            None => r is None,
        },
{
    let mut name = text::trim_start_matches(path, '/');
    if name.as_str().is_empty() {
        name = default_page.to_owned();
    }
    let ghost wanted = name@;
    let mut i: usize = 0;
    assert(assets@.skip(0) =~= assets@);
    while i < assets.len()
        invariant
            i <= assets@.len(),
            wanted == name@,
            wanted == page_name(default_page@, path@),
            asset(assets@, wanted) == asset(assets@.skip(i as int), wanted),
        decreases assets@.len() - i,
    {
        assert(assets@.skip(i as int)[0] == assets@[i as int]);
        assert(assets@.skip(i as int).drop_first() =~= assets@.skip(i + 1));
        if text::same(assets[i].0.as_str(), name.as_str()) {
            return Some((http::utf8_lossy(&assets[i].1), mime_of(name.as_str())));
        }
        i += 1;
    }
    None
}

/// The answer to a request for a page.
pub fn page_reply(page: Option<(String, &'static str)>) -> (r: (Reply, Option<&'static str>))
    ensures
        match page {
            Some((body, kind)) => r.0.is(200, body@) && r.1 == Some(kind),
            None => r.0.is(404, "not found"@) && r.1 is None,
        },
{
    match page {
        Some((body, kind)) => (Reply { status: 200, body }, Some(kind)),
        None => (Reply::new(404, "not found"), None),
    }
}

} // verus!
