//! Keyword search providers: URL templates, their ordering and the
//! directories they are read from.
use vstd::prelude::*;

use crate::ipc::{str_views, SearchProviderDef};
use crate::sort::{arranged, stable_order, stable_sort_by_keys};
use crate::text::{
    chars_of, contains, contains_chars, replace_all, replace_all_chars, string_of, views,
};

verus! {

/// Bytes that percent-encoding leaves as they are: ASCII letters, digits and `-_.~`.
pub open spec fn is_unreserved(b: u8) -> bool {
    (0x30 <= b <= 0x39) || (0x41 <= b <= 0x5a) || (0x61 <= b <= 0x7a) || b == 0x2d || b == 0x2e
        || b == 0x5f || b == 0x7e
}

/// Upper-case hexadecimal digit for `d < 16`.
pub open spec fn hex_upper(d: int) -> char {
    if d < 10 {
        ((48 + d) as u32) as char
    } else {
        ((55 + d) as u32) as char
    }
}

/// Percent-encoding of bytes: unreserved bytes as themselves, every other
/// byte as `%` and two upper-case hex digits.
pub open spec fn percent_encode_bytes(bs: Seq<u8>) -> Seq<char>
    decreases bs.len(),
{
    if bs.len() == 0 {
        seq![]
    } else {
        let b = bs.last();
        percent_encode_bytes(bs.drop_last()) + if is_unreserved(b) {
            seq![(b as u32) as char]
        } else {
            seq!['%', hex_upper(b as int / 16), hex_upper(b as int % 16)]
        }
    }
}

/// Percent-encoding of the UTF-8 bytes of `s`.
pub open spec fn percent_encode(s: Seq<char>) -> Seq<char> {
    percent_encode_bytes(vstd::utf8::encode_utf8(s))
}

/// `urlencoding::encode`: percent-encodes every byte of the UTF-8 form of `s`
/// except ASCII letters, digits and `-`, `_`, `.`, `~`, with upper-case hex
/// digits, as its documentation and source state.
#[verifier::external_body]
fn url_encode(s: &str) -> (r: String)
    ensures
        r@ == percent_encode(s@),
{
    urlencoding::encode(s).into_owned()
}

/// Why a provider's template could not be applied.
#[derive(Debug, PartialEq, Eq)]
pub enum TemplateError {
    MissingPlaceholder,
}

impl TemplateError {
    /// The message shown for the error.
    pub fn message(&self) -> (r: String)
        ensures
            r@ == "provider template missing {query} placeholder"@,
    {
        String::from_str("provider template missing {query} placeholder")
    }
}

/// The URL a template gives for a query: every `{query}` replaced by the
/// percent-encoded query; none when the template has no `{query}`.
pub open spec fn applied_template(template: Seq<char>, query: Seq<char>) -> Option<Seq<char>> {
    if contains(template, "{query}"@) {
        Some(replace_all(template, "{query}"@, percent_encode(query)))
    } else {
        None
    }
}

/// Fills a provider's URL template with a query.
pub fn apply_template(template: &str, query: &str) -> (r: Result<String, TemplateError>)
    ensures
        match applied_template(template@, query@) {
            Some(u) => r matches Ok(s) && s@ == u,
            None => r matches Err(TemplateError::MissingPlaceholder),
        },
{
    proof {
        reveal_strlit("{query}");
    }
    let t = chars_of(template);
    let p = chars_of("{query}");
    if !contains_chars(&t, &p) {
        return Err(TemplateError::MissingPlaceholder);
    }
    let enc = url_encode(query);
    let e = chars_of(enc.as_str());
    let out = replace_all_chars(&t, &p, &e);
    Ok(string_of(&out))
}

/// The keywords of a list of providers.
pub open spec fn keyword_keys(s: Seq<SearchProviderDef>) -> Seq<Seq<char>> {
    Seq::new(s.len(), |i: int| s[i].keyword@)
}

/// Orders providers stably by keyword, as they are listed after loading.
pub fn order_providers(defs: Vec<SearchProviderDef>) -> (r: Vec<SearchProviderDef>)
    ensures
        exists|p: Seq<int>| stable_order(keyword_keys(defs@), p) && arranged(r@, defs@, p),
{
    let mut keys: Vec<Vec<char>> = Vec::new();
    for i in 0..defs.len()
        invariant
            views(keys@) == keyword_keys(defs@).take(i as int),
    {
        let k = chars_of(defs[i].keyword.as_str());
        let ghost before = keys@;
        keys.push(k);
        assert(k@ == defs@[i as int].keyword@);
        assert(views(keys@) =~= views(before).push(k@));
        assert(views(keys@) =~= keyword_keys(defs@).take(i + 1));
    }
    assert(keyword_keys(defs@).take(defs@.len() as int) =~= keyword_keys(defs@));
    stable_sort_by_keys(defs, keys)
}

/// `/usr/share/xpde/search-providers` when present (installed session files).
pub fn system_provider_dir() -> (r: String)
    ensures
        r@ == "/usr/share/xpde/search-providers"@,
{
    String::from_str("/usr/share/xpde/search-providers")
}

/// What `Path::parent` gives for `p`: none when `p` ends in a root or is empty.
pub uninterp spec fn path_parent(p: Seq<char>) -> Option<Seq<char>>;

/// `Path::parent`. The contract names the result.
#[verifier::external_body]
fn parent_of(p: &str) -> (r: Option<String>)
    ensures
        match (r, path_parent(p@)) {
            (Some(a), Some(b)) => a@ == b,
            (None, None) => true,
            _ => false,
        },
{
    std::path::Path::new(p).parent().map(|q| q.to_string_lossy().into_owned())
}

/// `PathBuf::pop`: the parent, or the path itself when it has none.
pub open spec fn popped(p: Seq<char>) -> Seq<char> {
    match path_parent(p) {
        Some(q) => q,
        None => p,
    }
}

/// `Path::join` on Unix: an absolute `rel` replaces `base`; otherwise `rel`
/// is appended, with a `/` unless `base` is empty or already ends in one.
pub open spec fn path_join(base: Seq<char>, rel: Seq<char>) -> Seq<char> {
    if rel.len() > 0 && rel[0] == '/' {
        rel
    } else if base.len() == 0 || base.last() == '/' {
        base + rel
    } else {
        base + seq!['/'] + rel
    }
}

/// `Path::join`.
pub fn join_path(base: &str, rel: &str) -> (r: String)
    ensures
        r@ == path_join(base@, rel@),
{
    let b = chars_of(base);
    let rl = chars_of(rel);
    if rl.len() > 0 && rl[0] == '/' {
        return String::from_str(rel);
    }
    let mut out = String::from_str(base);
    if b.len() > 0 && b[b.len() - 1] != '/' {
        out.append("/");
        proof {
            reveal_strlit("/");
        }
    }
    out.append(rel);
    out
}

/// The session's provider directory in a source checkout whose crate
/// directory is `manifest_dir`: two levels up, then `session/search-providers`.
pub open spec fn repo_session_dir_spec(manifest_dir: Seq<char>) -> Seq<char> {
    path_join(popped(popped(manifest_dir)), "session/search-providers"@)
}

/// The session's provider directory in a source checkout.
pub fn repo_session_dir(manifest_dir: &str) -> (r: String)
    ensures
        r@ == repo_session_dir_spec(manifest_dir@),
{
    let up1 = match parent_of(manifest_dir) {
        Some(p) => p,
        None => String::from_str(manifest_dir),
    };
    let up2 = match parent_of(up1.as_str()) {
        Some(p) => p,
        None => up1,
    };
    join_path(up2.as_str(), "session/search-providers")
}

/// The checkout's provider directory when it is a directory.
pub fn repo_provider_dir(session_dir: String, session_is_dir: bool) -> (r: Option<String>)
    ensures
        r == if session_is_dir {
            Some(session_dir)
        } else {
            None
        },
{
    if session_is_dir {
        Some(session_dir)
    } else {
        None
    }
}

/// The directories searched for providers, in order: the checkout's when
/// there is one, the system's when present, then the user's.
pub open spec fn provider_dirs_spec(user_dir: Seq<char>, repo_dir: Option<Seq<char>>, system_dir_exists: bool) -> Seq<
    Seq<char>,
> {
    let a: Seq<Seq<char>> = match repo_dir {
        Some(d) => seq![d],
        None => seq![],
    };
    let b: Seq<Seq<char>> = if system_dir_exists {
        seq!["/usr/share/xpde/search-providers"@]
    } else {
        seq![]
    };
    a + b + seq![user_dir]
}

/// The directories searched for providers.
pub fn all_provider_dirs(user_dir: &str, repo_dir: Option<String>, system_dir_exists: bool) -> (r:
    Vec<String>)
    ensures
        str_views(r@) == provider_dirs_spec(user_dir@, crate::ipc::opt_view(repo_dir), system_dir_exists),
{
    let mut v: Vec<String> = Vec::new();
    let ghost rd = crate::ipc::opt_view(repo_dir);
    if let Some(repo) = repo_dir {
        v.push(repo);
    }
    let ghost a = str_views(v@);
    assert(a =~= match rd {
        Some(d) => seq![d],
        None => Seq::<Seq<char>>::empty(),
    });
    if system_dir_exists {
        v.push(system_provider_dir());
    }
    let ghost b = str_views(v@);
    assert(b =~= a + if system_dir_exists {
        seq!["/usr/share/xpde/search-providers"@]
    } else {
        Seq::<Seq<char>>::empty()
    });
    v.push(String::from_str(user_dir));
    assert(str_views(v@) =~= b + seq![user_dir@]);
    v
}

} // verus!
