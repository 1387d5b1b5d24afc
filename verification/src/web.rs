//! The decisions the web front of the broker makes about a request: which
//! handler serves it, which file a path names, which headers a file is served
//! with, and which bank a socket follows.
use vstd::prelude::*;
use vstd::string::*;

use crate::bank_id::{lowercase, str_to_lowercase, BankId};

verus! {

/// The largest request body that is meant to be accepted.
pub const MAX_REQUEST_BODY: usize = 1024 * 1024;

/// The method of a request, as far as routing tells methods apart.
#[derive(Debug, Clone, Copy, PartialEq, Eq, Structural)]
pub enum RequestMethod {
    Options,
    Get,
    Post,
    Other,
}

/// The handler that serves a request.
#[derive(Debug, Clone, Copy, PartialEq, Eq, Structural)]
pub enum Route {
    /// Answer with the allowed origins, headers and methods.
    Options,
    /// Upgrade to a socket that follows a bank.
    Upgrade,
    /// Serve a file.
    Get,
    /// Answer a call of the interface.
    Post,
    /// Refuse the request.
    BadRequest,
}

/// A call of the interface.
#[derive(Debug, Clone, Copy, PartialEq, Eq, Structural)]
pub enum PostRoute {
    UpdateBank,
    NewBank,
    CopyBank,
    Transfer,
}

/// The handler for a request: options first, then socket upgrades, then
/// files, then calls.
pub fn route(method: RequestMethod, is_upgrade: bool) -> (r: Route)
    ensures
        r == (if method == RequestMethod::Options {
            Route::Options
        } else if is_upgrade {
            Route::Upgrade
        } else if method == RequestMethod::Get {
            Route::Get
        } else if method == RequestMethod::Post {
            Route::Post
        } else {
            Route::BadRequest
        }),
{
    match method {
        RequestMethod::Options => Route::Options,
        _ => if is_upgrade {
            Route::Upgrade
        } else {
            match method {
                RequestMethod::Get => Route::Get,
                RequestMethod::Post => Route::Post,
                _ => Route::BadRequest,
            }
        },
    }
}

/// Whether two texts of the same length hold the same characters.
pub fn same_text(a: &str, b: &str) -> (r: bool)
    requires
        a@.len() == b@.len(),
    ensures
        r == (a@ == b@),
{
    let n = a.unicode_len();
    let mut i: usize = 0;
    while i < n
        invariant
            0 <= i <= n,
            n == a@.len(),
            a@.len() == b@.len(),
            forall|j: int| 0 <= j < i ==> a@[j] == b@[j],
        decreases n - i,
    {
        if a.get_char(i) != b.get_char(i) {
            return false;
        }
        i = i + 1;
    }
    assert(a@ =~= b@);
    true
}

/// Whether two texts are the same.
pub fn text_eq(a: &str, b: &str) -> (r: bool)
    ensures
        r == (a@ == b@),
{
    if a.unicode_len() != b.unicode_len() {
        return false;
    }
    same_text(a, b)
}

/// The call that a path names.
pub open spec fn post_route_of(path: Seq<char>) -> Option<PostRoute> {
    if path == "/update-bank"@ {
        Some(PostRoute::UpdateBank)
    } else if path == "/new-bank"@ {
        Some(PostRoute::NewBank)
    } else if path == "/copy-bank"@ {
        Some(PostRoute::CopyBank)
    } else if path == "/transfer"@ {
        Some(PostRoute::Transfer)
    } else {
        None
    }
}

/// The call that the path of a request names, if any.
pub fn post_route(path: &str) -> (r: Option<PostRoute>)
    ensures
        r == post_route_of(path@),
{
    if text_eq(path, "/update-bank") {
        Some(PostRoute::UpdateBank)
    } else if text_eq(path, "/new-bank") {
        Some(PostRoute::NewBank)
    } else if text_eq(path, "/copy-bank") {
        Some(PostRoute::CopyBank)
    } else if text_eq(path, "/transfer") {
        Some(PostRoute::Transfer)
    } else {
        None
    }
}

/// Whether a request body is cut off when a frame of `frame_len` bytes
/// arrives after `received` bytes: when more was received than the frame holds.
pub fn frame_refused(received: usize, frame_len: usize) -> (r: bool)
    ensures
        r == (received > frame_len),
{
    received > frame_len
}

/// Whether `pat` occurs in `s` at position `i`.
pub open spec fn occurs_at(s: Seq<char>, pat: Seq<char>, i: int) -> bool {
    0 <= i && i + pat.len() <= s.len() && s.subrange(i, i + pat.len()) == pat
}

/// The first position at or after `from` where `pat` occurs in `s`.
pub open spec fn find_from(s: Seq<char>, pat: Seq<char>, from: int) -> Option<int>
    decreases s.len() + 1 - from,
{
    if from < 0 || from + pat.len() > s.len() {
        None
    } else if occurs_at(s, pat, from) {
        Some(from)
    } else {
        find_from(s, pat, from + 1)
    }
}

/// What `find_from` finds: an occurrence at or after `from`.
pub proof fn lemma_find_from(s: Seq<char>, pat: Seq<char>, from: int)
    requires
        0 <= from,
    ensures
        find_from(s, pat, from) matches Some(i) ==> from <= i && occurs_at(s, pat, i),
    decreases s.len() + 1 - from,
{
    if from + pat.len() <= s.len() && !occurs_at(s, pat, from) {
        lemma_find_from(s, pat, from + 1);
    }
}

/// The position of the first occurrence of `pat` in `s`.
pub fn find(s: &str, pat: &str) -> (r: Option<usize>)
    ensures
        match find_from(s@, pat@, 0) {
            Some(i) => r matches Some(j) && j as int == i,
            None => r is None,
        },
{
    let n = s.unicode_len();
    let m = pat.unicode_len();
    if m > n {
        return None;
    }
    let last = n - m;
    let mut i: usize = 0;
    while i <= last
        invariant
            n == s@.len(),
            m == pat@.len(),
            m <= n,
            last == n - m,
            0 <= i <= last + 1,
            find_from(s@, pat@, 0) == find_from(s@, pat@, i as int),
        decreases last + 1 - i,
    {
        let part = s.substring_char(i, i + m);
        if same_text(part, pat) {
            return Some(i);
        }
        if i == last {
            return None;
        }
        i = i + 1;
    }
    None
}

/// Whether a path contains `..`.
pub open spec fn has_parent_step(p: Seq<char>) -> bool {
    find_from(p, seq!['.', '.'], 0) is Some
}

/// The file that a request path names, or `None` when access is denied: the
/// root names `index.html`; one leading slash is dropped; a path that then
/// still starts with `/` or `~`, or contains `..`, is denied.
pub open spec fn static_path(p: Seq<char>) -> Option<Seq<char>> {
    let q = if p.len() == 0 || p == seq!['/'] {
        "/index.html"@
    } else {
        p
    };
    let q2 = if q.len() > 0 && q[0] == '/' {
        q.subrange(1, q.len() as int)
    } else {
        q
    };
    if has_parent_step(q2) || (q2.len() > 0 && (q2[0] == '/' || q2[0] == '~')) {
        None
    } else {
        Some(q2)
    }
}

/// The file that a request path names, or `None` when access is denied.
pub fn static_file_path(path: &str) -> (r: Option<String>)
    ensures
        match static_path(path@) {
            Some(p) => r matches Some(s) && s@ == p,
            None => r is None,
        },
{
    proof {
        reveal_strlit("/index.html");
        reveal_strlit("/");
        reveal_strlit("..");
        assert("/"@ =~= seq!['/']);
        assert(".."@ =~= seq!['.', '.']);
    }
    let n = path.unicode_len();
    let q: &str = if n == 0 || text_eq(path, "/") {
        "/index.html"
    } else {
        path
    };
    let qn = q.unicode_len();
    let q2: &str = if qn > 0 && q.get_char(0) == '/' {
        q.substring_char(1, qn)
    } else {
        q
    };
    let q2n = q2.unicode_len();
    assert(q@ == (if path@.len() == 0 || path@ == seq!['/'] {
        "/index.html"@
    } else {
        path@
    }));
    assert(q2@ == (if q@.len() > 0 && q@[0] == '/' {
        q@.subrange(1, q@.len() as int)
    } else {
        q@
    }));
    if find(q2, "..").is_some() {
        return None;
    }
    if q2n > 0 {
        let c = q2.get_char(0);
        if c == '/' || c == '~' {
            return None;
        }
    }
    Some(String::from_str(q2))
}

/// Whether the last components of a path are those of `child`, as
/// `std::path::Path::ends_with` decides it.
pub uninterp spec fn path_ends_with(path: Seq<char>, child: Seq<char>) -> bool;

/// Calls `std::path::Path::ends_with`.
///
/// Trusted: the result is the one that `path_ends_with` names; how std splits
/// paths into components is not stated.
#[verifier::external_body]
fn path_component_suffix(path: &str, child: &str) -> (r: bool)
    ensures
        r == path_ends_with(path@, child@),
{
    std::path::Path::new(path).ends_with(child)
}

/// Whether a file is media, cached for a day: its path ends with a component
/// `.mp3`, `.mp4`, `.wav` or `.wasm`.
pub open spec fn long_cached(path: Seq<char>) -> bool {
    path_ends_with(path, ".mp3"@) || path_ends_with(path, ".mp4"@) || path_ends_with(
        path,
        ".wav"@,
    ) || path_ends_with(path, ".wasm"@)
}

/// The cache header for a file.
pub fn cache_control(path: &str) -> (r: &'static str)
    ensures
        long_cached(path@) ==> r@ == "Cache-Control: max-age=86400, stale-while-revalidate=86400"@,
        !long_cached(path@) ==> r@ == "Cache-Control: max-age=30, stale-while-revalidate=86400"@,
{
    if path_component_suffix(path, ".mp3") || path_component_suffix(path, ".mp4")
        || path_component_suffix(path, ".wav") || path_component_suffix(path, ".wasm") {
        "Cache-Control: max-age=86400, stale-while-revalidate=86400"
    } else {
        "Cache-Control: max-age=30, stale-while-revalidate=86400"
    }
}

/// The media type that `mime_guess` gives a file by the extension of its path:
/// the first type it lists for it, `application/octet-stream` where it knows
/// none.
pub uninterp spec fn guessed_media_type(path: Seq<char>) -> Seq<char>;

/// Calls `mime_guess::from_path` and `first_or_octet_stream`, and writes the
/// type out.
///
/// Trusted: the result is the one that `guessed_media_type` names; which types
/// the crate's tables list for which extensions is not stated.
#[verifier::external_body]
fn media_type(path: &str) -> (r: String)
    ensures
        r@ == guessed_media_type(path@),
{
    mime_guess::from_path(path).first_or_octet_stream().to_string()
}

/// The headers a file is served with, besides keeping the connection alive.
pub struct FileHeaders {
    pub content_type: String,
    pub cache_control: &'static str,
}

/// The headers for the file at `path`: its media type as guessed from its
/// extension, and how long it may be cached.
pub fn file_headers(path: &str) -> (r: FileHeaders)
    ensures
        r.content_type@ == guessed_media_type(path@),
        long_cached(path@) ==> r.cache_control@
            == "Cache-Control: max-age=86400, stale-while-revalidate=86400"@,
        !long_cached(path@) ==> r.cache_control@
            == "Cache-Control: max-age=30, stale-while-revalidate=86400"@,
{
    FileHeaders { content_type: media_type(path), cache_control: cache_control(path) }
}

/// The bank that a socket path follows: the path in lowercase is split at the
/// first `/bank/`, and what follows names the bank.
pub open spec fn socket_bank(path: Seq<char>) -> Option<Seq<char>> {
    let lower = lowercase(path);
    match find_from(lower, "/bank/"@, 0) {
        Some(i) => Some(lowercase(lower.subrange(i + 6, lower.len() as int))),
        None => None,
    }
}

/// The bank that a socket path follows, if it names one.
pub fn bank_from_socket_path(path: &str) -> (r: Option<BankId>)
    ensures
        match socket_bank(path@) {
            Some(b) => r matches Some(id) && id@ == b,
            None => r is None,
        },
{
    proof {
        reveal_strlit("/bank/");
    }
    let lower = str_to_lowercase(path);
    let l = lower.as_str();
    proof {
        lemma_find_from(l@, "/bank/"@, 0);
    }
    match find(l, "/bank/") {
        Some(i) => {
            let n = l.unicode_len();
            let rest = l.substring_char(i + 6, n);
            Some(BankId::from_name(rest))
        },
        None => None,
    }
}

} // verus!
