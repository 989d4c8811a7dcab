//! Parsed URLs: the facts about a URL that the shell's rules read, filled in
//! by the `url` crate, and the same-origin rule built on them.
use vstd::prelude::*;

use crate::text::chars_eq;

verus! {

/// The (scheme, host, port) origin of a URL (`url::Origin::Tuple`), the host
/// as the `url` crate prints it and the port with the scheme's default filled in.
#[derive(Debug, PartialEq, Eq)]
pub struct UrlOrigin {
    pub scheme: String,
    pub host: String,
    pub port: u16,
}

/// A parsed URL: its serialization, host, path and, for the schemes that
/// have one (`http`, `https`, `ws`, `wss`, `ftp`, and `blob` URLs over
/// them), its tuple origin. Other URLs have an opaque origin, equal to no
/// other URL's.
#[derive(Debug, PartialEq, Eq)]
pub struct WebUrl {
    pub href: String,
    pub host: Option<String>,
    pub path: String,
    pub origin: Option<UrlOrigin>,
}

/// The text of a [`WebUrl`].
pub struct WebUrlView {
    pub href: Seq<char>,
    pub host: Option<Seq<char>>,
    pub path: Seq<char>,
    pub origin: Option<(Seq<char>, Seq<char>, u16)>,
}

impl View for WebUrl {
    type V = WebUrlView;

    open spec fn view(&self) -> WebUrlView {
        WebUrlView {
            href: self.href@,
            host: match self.host {
                Some(h) => Some(h@),
                None => None,
            },
            path: self.path@,
            origin: match self.origin {
                Some(o) => Some((o.scheme@, o.host@, o.port)),
                None => None,
            },
        }
    }
}

impl WebUrl {
    /// A copy of the URL.
    pub fn clone_url(&self) -> (r: WebUrl)
        ensures
            r@ == self@,
    {
        WebUrl {
            href: self.href.clone(),
            host: crate::ipc::clone_opt(&self.host),
            path: self.path.clone(),
            origin: match &self.origin {
                Some(o) => Some(UrlOrigin { scheme: o.scheme.clone(), host: o.host.clone(), port: o.port }),
                None => None,
            },
        }
    }
}

/// The view of an optional URL.
pub open spec fn opt_url(u: Option<WebUrl>) -> Option<WebUrlView> {
    match u {
        Some(x) => Some(x@),
        None => None,
    }
}

/// What `url::Url::parse` makes of `input`: none when it fails.
pub uninterp spec fn url_parsed(input: Seq<char>) -> Option<WebUrlView>;

/// What `url::Url::join` makes of `input` against the URL serialized as
/// `base`: none when either fails.
pub uninterp spec fn url_joined(base: Seq<char>, input: Seq<char>) -> Option<WebUrlView>;

/// The URL serialized as `href` with its path set to the empty string and
/// its query and fragment removed (`Url::set_path`, `set_query`,
/// `set_fragment`): none when `href` does not parse.
pub uninterp spec fn url_origin_root(href: Seq<char>) -> Option<WebUrlView>;

/// The view of a URL that was parsed, or none for the message of a failure.
pub open spec fn ok_url(r: Result<WebUrl, String>) -> Option<WebUrlView> {
    match r {
        Ok(u) => Some(u@),
        Err(_) => None,
    }
}

/// `url::Url::parse`, with the facts read off the result by `as_str`,
/// `host_str`, `path` and `origin`, and a failure by its message. The
/// contract names the result; it says nothing of the message.
#[verifier::external_body]
pub(crate) fn parse_url(input: &str) -> (r: Result<WebUrl, String>)
    ensures
        ok_url(r) == url_parsed(input@),
{
    let u = url::Url::parse(input).map_err(|e| e.to_string())?;
    let origin = match u.origin() {
        url::Origin::Tuple(s, h, p) => Some(UrlOrigin { scheme: s, host: h.to_string(), port: p }),
        url::Origin::Opaque(_) => None,
    };
    let host = u.host_str().map(|h| h.to_string());
    Ok(WebUrl { href: u.as_str().to_string(), host, path: u.path().to_string(), origin })
}

/// `url::Url::join` on the URL serialized as `base.href`, with the facts read
/// off the result as in [`parse_url`]. The contract names the result; it
/// says nothing of the message of a failure.
#[verifier::external_body]
pub(crate) fn join_url(base: &WebUrl, input: &str) -> (r: Result<WebUrl, String>)
    ensures
        ok_url(r) == url_joined(base.href@, input@),
{
    let u = url::Url::parse(&base.href).and_then(|b| b.join(input)).map_err(|e| e.to_string())?;
    let origin = match u.origin() {
        url::Origin::Tuple(s, h, p) => Some(UrlOrigin { scheme: s, host: h.to_string(), port: p }),
        url::Origin::Opaque(_) => None,
    };
    let host = u.host_str().map(|h| h.to_string());
    Ok(WebUrl { href: u.as_str().to_string(), host, path: u.path().to_string(), origin })
}

/// The URL serialized as `base.href` after `set_path("")`, `set_query(None)`
/// and `set_fragment(None)`, with the facts read off as in [`parse_url`].
/// The contract names the result.
#[verifier::external_body]
pub(crate) fn origin_root_url(base: &WebUrl) -> (r: Option<WebUrl>)
    ensures
        opt_url(r) == url_origin_root(base.href@),
{
    let mut u = url::Url::parse(&base.href).ok()?;
    u.set_path("");
    u.set_query(None);
    u.set_fragment(None);
    let origin = match u.origin() {
        url::Origin::Tuple(s, h, p) => Some(UrlOrigin { scheme: s, host: h.to_string(), port: p }),
        url::Origin::Opaque(_) => None,
    };
    let host = u.host_str().map(|h| h.to_string());
    Some(WebUrl { href: u.as_str().to_string(), host, path: u.path().to_string(), origin })
}

/// Two URLs share an origin: both have a tuple origin, and the tuples agree
/// (`Origin == Origin`; an opaque origin equals no other URL's).
pub open spec fn origins_match(a: WebUrlView, b: WebUrlView) -> bool {
    match (a.origin, b.origin) {
        (Some(x), Some(y)) => x == y,
        _ => false,
    }
}

/// Whether two URLs share an origin.
pub fn same_origin_urls(a: &WebUrl, b: &WebUrl) -> (r: bool)
    ensures
        r == origins_match(a@, b@),
{
    match (&a.origin, &b.origin) {
        (Some(x), Some(y)) => {
            let sx = crate::text::chars_of(x.scheme.as_str());
            let sy = crate::text::chars_of(y.scheme.as_str());
            let hx = crate::text::chars_of(x.host.as_str());
            let hy = crate::text::chars_of(y.host.as_str());
            chars_eq(&sx, &sy) && chars_eq(&hx, &hy) && x.port == y.port
        },
        _ => false,
    }
}

/// `other` parses to a URL with the origin of `base`.
pub open spec fn same_origin_spec(base: WebUrlView, other: Seq<char>) -> bool {
    match url_parsed(other) {
        Some(o) => origins_match(base, o),
        None => false,
    }
}

/// Whether `other` parses to a URL with the origin of `base`.
pub fn same_origin(base: &WebUrl, other: &str) -> (r: bool)
    ensures
        r == same_origin_spec(base@, other@),
{
    match parse_url(other) {
        Ok(o) => same_origin_urls(base, &o),
        Err(_) => false,
    }
}

/// Whether `base` and `other` both parse, to URLs of one origin.
pub fn same_origin_str(base: &str, other: &str) -> (r: bool)
    ensures
        r == match url_parsed(base@) {
            Some(b) => same_origin_spec(b, other@),
            None => false,
        },
{
    match parse_url(base) {
        Ok(b) => same_origin(&b, other),
        Err(_) => false,
    }
}

/// The last segment of a path that starts with `/`
/// (`Url::path_segments().next_back()`); none for other paths.
pub open spec fn last_segment(path: Seq<char>) -> Option<Seq<char>> {
    if path.len() > 0 && path[0] == '/' {
        let k = last_slash(path);
        Some(path.skip(k + 1))
    } else {
        None
    }
}

/// Index of the last `/` in `s`, or -1.
pub open spec fn last_slash(s: Seq<char>) -> int
    decreases s.len(),
{
    if s.len() == 0 {
        -1
    } else if s.last() == '/' {
        s.len() - 1
    } else {
        last_slash(s.drop_last())
    }
}

proof fn lemma_last_slash(s: Seq<char>, k: int)
    requires
        -1 <= k < s.len(),
        k == -1 || s[k] == '/',
        forall|j: int| k < j < s.len() ==> s[j] != '/',
    ensures
        last_slash(s) == k,
    decreases s.len(),
{
    if s.len() > 0 && s.last() != '/' {
        lemma_last_slash(s.drop_last(), k);
    }
}

/// The last segment of a URL path (see [`last_segment`]).
pub fn last_path_segment(path: &str) -> (r: Option<String>)
    ensures
        match r {
            Some(seg) => last_segment(path@) == Some(seg@),
            None => last_segment(path@) is None,
        },
{
    let p = crate::text::chars_of(path);
    if p.len() > 0 && p[0] == '/' {
        let mut k: usize = p.len();
        while k > 0 && p[k - 1] != '/'
            invariant
                k <= p@.len(),
                forall|j: int| k <= j < p@.len() ==> p@[j] != '/',
            decreases k,
        {
            k -= 1;
        }
        proof {
            lemma_last_slash(p@, k - 1);
        }
        let seg = crate::text::slice_vec(&p, k, p.len());
        assert(seg@ =~= p@.skip(k as int));
        Some(crate::text::string_of(&seg))
    } else {
        None
    }
}

/// A short title for a sitemap entry: the last path segment of the URL when
/// it parses and that segment is not empty, else the URL itself.
pub open spec fn short_title_spec(url: Seq<char>) -> Seq<char> {
    match url_parsed(url) {
        Some(u) => match last_segment(u.path) {
            Some(seg) => if seg.len() > 0 {
                seg
            } else {
                url
            },
            None => url,
        },
        None => url,
    }
}

/// A short title for a sitemap entry.
pub fn short_title(url: &str) -> (r: String)
    ensures
        r@ == short_title_spec(url@),
{
    match parse_url(url) {
        Ok(u) => {
            let p = crate::text::chars_of(u.path.as_str());
            if p.len() > 0 && p[0] == '/' {
                let mut k: usize = p.len();
                while k > 0 && p[k - 1] != '/'
                    invariant
                        k <= p@.len(),
                        forall|j: int| k <= j < p@.len() ==> p@[j] != '/',
                    decreases k,
                {
                    k -= 1;
                }
                proof {
                    lemma_last_slash(p@, k - 1);
                }
                let seg = crate::text::slice_vec(&p, k, p.len());
                assert(seg@ =~= p@.skip(k as int));
                if seg.len() > 0 {
                    crate::text::string_of(&seg)
                } else {
                    String::from_str(url)
                }
            } else {
                String::from_str(url)
            }
        },
        Err(_) => String::from_str(url),
    }
}

} // verus!
