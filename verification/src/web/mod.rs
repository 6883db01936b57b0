use crate::common::text::{decimal_string, decimal_text, str_equal};
use std::path::PathBuf;
use vstd::prelude::*;
use vstd::string::StrSliceExecFns;

verus! {

/// Where and how the map viewer is served.
pub struct ServerConfig {
    pub bind_addr: String,
    pub port: u16,
    pub tiles_dir: PathBuf,
    pub auto_open: bool,
    pub tile_format: String,
    pub max_zoom: u8,
}

/// `s` ends with `suffix`.
pub open spec fn ends_with(s: Seq<char>, suffix: Seq<char>) -> bool {
    suffix.len() <= s.len() && s.skip(s.len() - suffix.len()) == suffix
}

/// Whether the text `s` ends with `suffix`.
fn str_ends_with(s: &str, suffix: &str) -> (res: bool)
    ensures
        res == ends_with(s@, suffix@),
{
    let n = s.unicode_len();
    let m = suffix.unicode_len();
    if m > n {
        return false;
    }
    let tail = s.substring_char(n - m, n);
    str_equal(tail, suffix)
}

/// The media type a file is served with, by the extension of its name.
pub open spec fn mime_of(path: Seq<char>) -> Seq<char> {
    if ends_with(path, ".html"@) {
        "text/html; charset=utf-8"@
    } else if ends_with(path, ".css"@) {
        "text/css; charset=utf-8"@
    } else if ends_with(path, ".js"@) {
        "application/javascript; charset=utf-8"@
    } else if ends_with(path, ".webp"@) {
        "image/webp"@
    } else if ends_with(path, ".png"@) {
        "image/png"@
    } else if ends_with(path, ".json"@) {
        "application/json"@
    } else if ends_with(path, ".svg"@) {
        "image/svg+xml"@
    } else {
        "application/octet-stream"@
    }
}

/// The media type a file is served with, by the extension of its name.
pub fn resolve_mime(path: &str) -> (res: &'static str)
    ensures
        res@ == mime_of(path@),
{
    if str_ends_with(path, ".html") {
        "text/html; charset=utf-8"
    } else if str_ends_with(path, ".css") {
        "text/css; charset=utf-8"
    } else if str_ends_with(path, ".js") {
        "application/javascript; charset=utf-8"
    } else if str_ends_with(path, ".webp") {
        "image/webp"
    } else if str_ends_with(path, ".png") {
        "image/png"
    } else if str_ends_with(path, ".json") {
        "application/json"
    } else if str_ends_with(path, ".svg") {
        "image/svg+xml"
    } else {
        "application/octet-stream"
    }
}

/// The part of a request target before its query string.
pub open spec fn before_query(s: Seq<char>) -> Seq<char>
    decreases s.len(),
{
    if s.len() == 0 {
        s
    } else if s[0] == '?' {
        Seq::empty()
    } else {
        seq![s[0]] + before_query(s.drop_first())
    }
}

/// What the viewer's server answers a request with.
#[derive(Debug, PartialEq, Eq)]
pub enum Route {
    /// The map's metadata.
    Status,
    /// A tile file, by its path below the tiles directory.
    Tile(String),
    /// A file of the viewer itself, by its request path.
    Asset(String),
}

/// The route a request target leads to: `/api/status`, a path below
/// `/tiles/`, or anything else, which is looked up among the viewer's files.
pub open spec fn route_of(url: Seq<char>, r: Route) -> bool {
    let p = before_query(url);
    if p == "/api/status"@ {
        r is Status
    } else if p.len() >= 7 && p.take(7) == "/tiles/"@ {
        r matches Route::Tile(t) && t@ == p.skip(7)
    } else {
        r matches Route::Asset(a) && a@ == p
    }
}

proof fn lemma_before_query_step(s: Seq<char>, i: int)
    requires
        0 <= i < s.len(),
        s[i] != '?',
    ensures
        before_query(s.skip(i)) == seq![s[i]] + before_query(s.skip(i + 1)),
{
    assert(s.skip(i).drop_first() =~= s.skip(i + 1));
}

/// The route a request target leads to.
pub fn route_request(url: &str) -> (res: Route)
    ensures
        route_of(url@, res),
{
    let n = url.unicode_len();
    let mut i: usize = 0;
    assert(url@.take(0) + before_query(url@.skip(0)) =~= before_query(url@)) by {
        assert(url@.skip(0) =~= url@);
    }
    while i < n
        invariant
            n == url@.len(),
            i <= n,
            before_query(url@) == url@.take(i as int) + before_query(url@.skip(i as int)),
        ensures
            i <= n,
            before_query(url@) == url@.take(i as int) + before_query(url@.skip(i as int)),
            i < n ==> url@[i as int] == '?',
        decreases n - i,
    {
        if url.get_char(i) == '?' {
            break;
        }
        proof {
            lemma_before_query_step(url@, i as int);
            assert(url@.take(i + 1) =~= url@.take(i as int) + seq![url@[i as int]]);
        }
        i = i + 1;
    }
    proof {
        if i < n {
            assert(url@.skip(i as int)[0] == '?');
        } else {
            assert(url@.skip(i as int) =~= Seq::<char>::empty());
        }
        assert(before_query(url@) =~= url@.take(i as int));
    }
    let path = url.substring_char(0, i);
    if str_equal(path, "/api/status") {
        return Route::Status;
    }
    if i >= 7 {
        let head = path.substring_char(0, 7);
        if str_equal(head, "/tiles/") {
            let rest = path.substring_char(7, i);
            return Route::Tile(String::from_str(rest));
        }
    }
    proof {
        reveal_strlit("/tiles/");
    }
    Route::Asset(String::from_str(path))
}

/// The metadata answered when the tiles directory holds none.
pub open spec fn status_text(format: Seq<char>, max_zoom: u8) -> Seq<char> {
    "{\"status\":\"ok\",\"format\":\""@ + format + "\",\"max_zoom\":"@ + decimal_text(max_zoom as nat)
        + ",\"center_x\":0,\"center_z\":0}"@
}

/// The metadata answered when the tiles directory holds none.
pub fn status_json(format: &str, max_zoom: u8) -> (res: String)
    ensures
        res@ == status_text(format@, max_zoom),
{
    let mut s = String::from_str("{\"status\":\"ok\",\"format\":\"");
    s.append(format);
    s.append("\",\"max_zoom\":");
    let z = decimal_string(max_zoom as u64);
    s.append(z.as_str());
    s.append(",\"center_x\":0,\"center_z\":0}");
    s
}

} // verus!
