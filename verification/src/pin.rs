//! Pinning a site: its id, the sitemap locations it offers, and the launcher
//! entry written for it.
use vstd::prelude::*;

use crate::text::{
    ascii_alnum, ascii_lower, chars_of, extend_chars, is_ascii_alnum, string_of, to_ascii_lower,
    eq_ignore_ascii_case, is_ws, lemma_find_from, share_piece, lines, split_nonempty, split_once, strip_cr, trim,
    trim_char,
    trim_char_chars, trim_char_end, trim_char_start, trim_end, trim_start,
};
use crate::desktop::{desktop_entry, scan_lines, scan_start, DesktopScan};
use crate::ipc::AppEntryView;
use crate::ipc::{clone_strings, opt_manifest_view, opt_view, str_views, ManifestView, WebManifestSummary};
use crate::weburl::{join_url, origin_root_url, parse_url, url_joined, url_origin_root, url_parsed, WebUrl};

verus! {

/// One character of [`slug`]: ASCII letters and digits are kept in lower case;
/// any other character adds a `-` unless the slug is empty or already ends in one.
pub open spec fn slug_step(out: Seq<char>, ch: char) -> Seq<char> {
    if is_ascii_alnum(ch) {
        out.push(ascii_lower(ch))
    } else if out.len() > 0 && out.last() != '-' {
        out.push('-')
    } else {
        out
    }
}

/// The slug of `s` before trimming.
pub open spec fn slug_fold(s: Seq<char>) -> Seq<char>
    decreases s.len(),
{
    if s.len() == 0 {
        seq![]
    } else {
        slug_step(slug_fold(s.drop_last()), s.last())
    }
}

/// A lower-case ASCII slug of `s`: letters and digits, runs of anything else
/// turned into one `-`, no `-` at either end.
pub open spec fn slug(s: Seq<char>) -> Seq<char> {
    trim_char(slug_fold(s), '-')
}

/// The characters a slug or site id is made of.
pub open spec fn is_id_char(c: char) -> bool {
    ('a' <= c && c <= 'z') || ('0' <= c && c <= '9') || c == '-'
}

/// Every character of `s` is a lower-case ASCII letter, a digit or `-`.
pub open spec fn is_id_text(s: Seq<char>) -> bool {
    forall|i: int| 0 <= i < s.len() ==> is_id_char(#[trigger] s[i])
}

/// The slug of `s`.
pub fn slug_chars(s: &Vec<char>) -> (r: Vec<char>)
    ensures
        r@ == slug(s@),
{
    let mut out: Vec<char> = Vec::new();
    for i in 0..s.len()
        invariant
            out@ == slug_fold(s@.take(i as int)),
    {
        let ch = s[i];
        assert(s@.take(i + 1).drop_last() =~= s@.take(i as int));
        if ascii_alnum(ch) {
            out.push(to_ascii_lower(ch));
        } else if out.len() > 0 && out[out.len() - 1] != '-' {
            out.push('-');
        }
    }
    assert(s@.take(s@.len() as int) =~= s@);
    trim_char_chars(&out, '-')
}

proof fn lemma_slug_fold_id_text(s: Seq<char>)
    ensures
        is_id_text(slug_fold(s)),
    decreases s.len(),
{
    if s.len() > 0 {
        lemma_slug_fold_id_text(s.drop_last());
        let prev = slug_fold(s.drop_last());
        let ch = s.last();
        if is_ascii_alnum(ch) {
            let l = ascii_lower(ch);
            assert(is_id_char(l)) by {
                if 'A' <= ch && ch <= 'Z' {
                    assert(('a' as u32) <= (l as u32) <= ('z' as u32));
                }
            }
            assert(forall|i: int| 0 <= i < prev.len() ==> prev.push(l)[i] == prev[i]);
        } else if prev.len() > 0 && prev.last() != '-' {
            assert(forall|i: int| 0 <= i < prev.len() ==> prev.push('-')[i] == prev[i]);
        }
    }
}

proof fn lemma_trim_char_sub(s: Seq<char>, c: char)
    ensures
        exists|a: int, b: int| 0 <= a <= b <= s.len() && trim_char(s, c) == s.subrange(a, b),
{
    lemma_trim_char_start_sub(s, c);
    let t = trim_char_start(s, c);
    let a = choose|a: int| 0 <= a <= s.len() && t == s.subrange(a, s.len() as int);
    lemma_trim_char_end_sub(t, c);
    let b = choose|b: int| 0 <= b <= t.len() && trim_char_end(t, c) == t.subrange(0, b);
    assert(trim_char(s, c) =~= s.subrange(a, a + b));
}

proof fn lemma_trim_char_start_sub(s: Seq<char>, c: char)
    ensures
        exists|a: int| 0 <= a <= s.len() && trim_char_start(s, c) == s.subrange(a, s.len() as int),
    decreases s.len(),
{
    if s.len() > 0 && s[0] == c {
        lemma_trim_char_start_sub(s.drop_first(), c);
        let a = choose|a: int|
            0 <= a <= s.drop_first().len() && trim_char_start(s.drop_first(), c)
                == s.drop_first().subrange(a, s.drop_first().len() as int);
        assert(s.drop_first().subrange(a, s.drop_first().len() as int) =~= s.subrange(
            a + 1,
            s.len() as int,
        ));
    } else {
        assert(s.subrange(0, s.len() as int) =~= s);
    }
}

proof fn lemma_trim_char_end_sub(s: Seq<char>, c: char)
    ensures
        exists|b: int| 0 <= b <= s.len() && trim_char_end(s, c) == s.subrange(0, b),
    decreases s.len(),
{
    if s.len() > 0 && s.last() == c {
        lemma_trim_char_end_sub(s.drop_last(), c);
        let b = choose|b: int|
            0 <= b <= s.drop_last().len() && trim_char_end(s.drop_last(), c)
                == s.drop_last().subrange(0, b);
        assert(s.drop_last().subrange(0, b) =~= s.subrange(0, b));
    } else {
        assert(s.subrange(0, s.len() as int) =~= s);
    }
}

/// A slug is made of lower-case ASCII letters, digits and `-`.
pub proof fn lemma_slug_id_text(s: Seq<char>)
    ensures
        is_id_text(slug(s)),
{
    lemma_slug_fold_id_text(s);
    lemma_trim_char_sub(slug_fold(s), '-');
    let f = slug_fold(s);
    let (a, b) = choose|a: int, b: int|
        0 <= a <= b <= f.len() && trim_char(f, '-') == f.subrange(a, b);
    assert forall|i: int| 0 <= i < slug(s).len() implies is_id_char(#[trigger] slug(s)[i]) by {
        assert(slug(s)[i] == f[a + i]);
    }
}

/// `s` without its `-` characters.
pub open spec fn without_dashes(s: Seq<char>) -> Seq<char>
    decreases s.len(),
{
    if s.len() == 0 {
        seq![]
    } else if s.last() == '-' {
        without_dashes(s.drop_last())
    } else {
        without_dashes(s.drop_last()).push(s.last())
    }
}

/// The ASCII letters and digits of `s`, in order, in lower case.
pub open spec fn alnum_lower(s: Seq<char>) -> Seq<char>
    decreases s.len(),
{
    if s.len() == 0 {
        seq![]
    } else if is_ascii_alnum(s.last()) {
        alnum_lower(s.drop_last()).push(ascii_lower(s.last()))
    } else {
        alnum_lower(s.drop_last())
    }
}

/// `t` does not begin with `-` and never holds two `-` in a row.
pub open spec fn dash_separated(t: Seq<char>) -> bool {
    &&& t.len() > 0 ==> t[0] != '-'
    &&& forall|i: int| 0 <= i < t.len() - 1 ==> !(#[trigger] t[i] == '-' && t[i + 1] == '-')
}

proof fn lemma_slug_fold_shape(s: Seq<char>)
    ensures
        dash_separated(slug_fold(s)),
        without_dashes(slug_fold(s)) == alnum_lower(s),
    decreases s.len(),
{
    if s.len() > 0 {
        lemma_slug_fold_shape(s.drop_last());
        let prev = slug_fold(s.drop_last());
        let ch = s.last();
        if is_ascii_alnum(ch) {
            let l = ascii_lower(ch);
            assert(l != '-') by {
                if 'A' <= ch && ch <= 'Z' {
                    assert(('a' as u32) <= (l as u32) <= ('z' as u32));
                }
            }
            assert(prev.push(l).drop_last() =~= prev);
            assert forall|i: int| 0 <= i < prev.push(l).len() - 1 implies !(#[trigger] prev.push(l)[i]
                == '-' && prev.push(l)[i + 1] == '-') by {
                if i + 1 < prev.len() {
                    assert(prev.push(l)[i + 1] == prev[i + 1]);
                }
            }
        } else if prev.len() > 0 && prev.last() != '-' {
            assert(prev.push('-').drop_last() =~= prev);
            assert forall|i: int| 0 <= i < prev.push('-').len() - 1 implies !(
            #[trigger] prev.push('-')[i] == '-' && prev.push('-')[i + 1] == '-') by {
                if i + 1 < prev.len() {
                    assert(prev.push('-')[i + 1] == prev[i + 1]);
                }
            }
        }
    }
}

/// What a slug looks like: only lower-case ASCII letters, digits and `-`;
/// no `-` at either end and never two in a row; and its letters and digits
/// are those of `s`, in order, in ASCII lower case.
pub proof fn law_slug_closed_form(s: Seq<char>)
    ensures
        is_id_text(slug(s)),
        slug(s).len() > 0 ==> slug(s)[0] != '-' && slug(s).last() != '-',
        dash_separated(slug(s)),
        without_dashes(slug(s)) == alnum_lower(s),
{
    lemma_slug_id_text(s);
    lemma_slug_fold_shape(s);
    let f = slug_fold(s);
    assert(trim_char_start(f, '-') == f);
    if f.len() > 0 && f.last() == '-' {
        let g = f.drop_last();
        if g.len() > 0 {
            assert(!(f[g.len() - 1] == '-' && f[g.len() as int] == '-'));
            assert(g.last() != '-');
        }
        assert(trim_char_end(g, '-') == g);
        assert(slug(s) == g);
        assert forall|i: int| 0 <= i < g.len() - 1 implies !(#[trigger] g[i] == '-' && g[i + 1] == '-') by {
            assert(g[i] == f[i] && g[i + 1] == f[i + 1]);
        }
        if g.len() > 0 {
            assert(g[0] == f[0]);
        }
    } else {
        assert(slug(s) == f);
    }
}

/// The id under which a site is pinned: the slug of the URL's host (`site`
/// when it has none), `-`, and the slug of its path without surrounding `/`
/// (`root` when that is empty), cut to 80 characters; `invalid` when the URL
/// does not parse.
pub open spec fn site_id_spec(url: Seq<char>) -> Seq<char> {
    match url_parsed(url) {
        None => "invalid"@,
        Some(u) => {
            let host = match u.host {
                Some(h) => h,
                None => "site"@,
            };
            let path = trim_char(u.path, '/');
            let base = slug(host) + "-"@ + if path.len() == 0 {
                "root"@
            } else {
                slug(path)
            };
            if base.len() > 80 {
                base.take(80)
            } else {
                base
            }
        },
    }
}

/// Stable filesystem-safe id from URL host + path.
pub fn site_id_for_url(url: &str) -> (r: String)
    ensures
        r@ == site_id_spec(url@),
        is_id_text(r@),
        r@.len() <= 80,
{
    proof {
        reveal_strlit("invalid");
        reveal_strlit("root");
        reveal_strlit("-");
    }
    let u = match parse_url(url) {
        Ok(u) => u,
        Err(_) => {
            let r = String::from_str("invalid");
            assert(is_id_char('i') && is_id_char('n') && is_id_char('v') && is_id_char('a')
                && is_id_char('l') && is_id_char('d'));
            return r;
        },
    };
    let host = match &u.host {
        Some(h) => chars_of(h.as_str()),
        None => chars_of("site"),
    };
    let path0 = chars_of(u.path.as_str());
    let path = trim_char_chars(&path0, '/');
    let mut base = slug_chars(&host);
    base.push('-');
    let tail = if path.len() == 0 {
        chars_of("root")
    } else {
        slug_chars(&path)
    };
    let ghost b0 = base@;
    extend_chars(&mut base, &tail);
    proof {
        lemma_slug_id_text(host@);
        lemma_slug_id_text(path@);
        assert(is_id_char('r') && is_id_char('o') && is_id_char('t'));
        assert(is_id_text(tail@));
        assert(is_id_text(base@)) by {
            assert forall|i: int| 0 <= i < base@.len() implies is_id_char(#[trigger] base@[i]) by {
                if i < b0.len() - 1 {
                    assert(base@[i] == slug(host@)[i]);
                } else if i >= b0.len() {
                    assert(base@[i] == tail@[i - b0.len()]);
                }
            }
        }
        assert(base@ =~= slug(host@) + "-"@ + tail@);
    }
    if base.len() > 80 {
        let cut = crate::text::slice_vec(&base, 0, 80);
        assert(cut@ =~= base@.take(80));
        proof {
            assert forall|i: int| 0 <= i < cut@.len() implies is_id_char(#[trigger] cut@[i]) by {
                assert(cut@[i] == base@[i]);
            }
        }
        string_of(&cut)
    } else {
        string_of(&base)
    }
}

/// `into` followed by the items of `more` that are not yet present, each
/// added once.
pub open spec fn merged(into: Seq<Seq<char>>, more: Seq<Seq<char>>) -> Seq<Seq<char>>
    decreases more.len(),
{
    if more.len() == 0 {
        into
    } else {
        let prev = merged(into, more.drop_last());
        if prev.contains(more.last()) {
            prev
        } else {
            prev.push(more.last())
        }
    }
}

/// Whether `v` holds a string equal to `s`.
pub fn contains_string(v: &Vec<String>, s: &String) -> (r: bool)
    ensures
        r == str_views(v@).contains(s@),
{
    for i in 0..v.len()
        invariant
            forall|j: int| 0 <= j < i ==> str_views(v@)[j] != s@,
    {
        if v[i] == *s {
            assert(str_views(v@)[i as int] == s@);
            return true;
        }
    }
    false
}

/// Appends the items of `more` that `into` does not hold yet.
pub fn merge_unique(into: &mut Vec<String>, more: Vec<String>)
    ensures
        str_views(final(into)@) == merged(str_views(old(into)@), str_views(more@)),
{
    let ghost start = str_views(into@);
    for i in 0..more.len()
        invariant
            str_views(into@) == merged(start, str_views(more@).take(i as int)),
    {
        assert(str_views(more@).take(i + 1).drop_last() =~= str_views(more@).take(i as int));
        assert(str_views(more@).take(i + 1).last() == more@[i as int]@);
        if !contains_string(into, &more[i]) {
            let ghost before = into@;
            into.push(more[i].clone());
            assert(str_views(into@) =~= str_views(before).push(more@[i as int]@));
        }
    }
    assert(str_views(more@).take(more@.len() as int) =~= str_views(more@));
}

/// Merging never adds a string twice: when `into` holds no string twice,
/// neither does the result, which holds every string of `into` and `more`
/// and begins with `into`.
pub proof fn lemma_merged_unique(into: Seq<Seq<char>>, more: Seq<Seq<char>>)
    requires
        into.no_duplicates(),
    ensures
        merged(into, more).no_duplicates(),
        merged(into, more).len() >= into.len(),
        merged(into, more).take(into.len() as int) == into,
        forall|x: Seq<char>| into.contains(x) || more.contains(x) ==> merged(into, more).contains(x),
        forall|x: Seq<char>| merged(into, more).contains(x) ==> into.contains(x) || more.contains(x),
    decreases more.len(),
{
    if more.len() == 0 {
        assert(into.take(into.len() as int) =~= into);
    } else {
        lemma_merged_unique(into, more.drop_last());
        let prev = merged(into, more.drop_last());
        if !prev.contains(more.last()) {
            assert(prev.push(more.last()).take(into.len() as int) =~= prev.take(into.len() as int));
            assert forall|x: Seq<char>| prev.push(more.last()).contains(x) implies into.contains(x)
                || more.contains(x) by {
                let j = choose|j: int| 0 <= j < prev.push(more.last()).len() && prev.push(more.last())[j] == x;
                if j < prev.len() {
                    assert(prev[j] == x);
                    if more.drop_last().contains(x) {
                        let k = choose|k: int| 0 <= k < more.drop_last().len() && more.drop_last()[k] == x;
                        assert(more[k] == x);
                    }
                } else {
                    assert(more[more.len() - 1] == x);
                }
            }
            assert forall|x: Seq<char>| into.contains(x) || more.contains(x) implies prev.push(
                more.last(),
            ).contains(x) by {
                if into.contains(x) {
                    let j = choose|j: int| 0 <= j < prev.len() && prev[j] == x;
                    assert(prev.push(more.last())[j] == x);
                } else {
                    let k = choose|k: int| 0 <= k < more.len() && more[k] == x;
                    if k < more.len() - 1 {
                        assert(more.drop_last()[k] == x);
                        let j = choose|j: int| 0 <= j < prev.len() && prev[j] == x;
                        assert(prev.push(more.last())[j] == x);
                    } else {
                        assert(prev.push(more.last())[prev.len() as int] == x);
                    }
                }
            }
        } else {
            assert forall|x: Seq<char>| prev.contains(x) implies into.contains(x) || more.contains(
                x,
            ) by {
                if more.drop_last().contains(x) {
                    let k = choose|k: int| 0 <= k < more.drop_last().len() && more.drop_last()[k] == x;
                    assert(more[k] == x);
                }
            }
            assert forall|x: Seq<char>| into.contains(x) || more.contains(x) implies prev.contains(
                x,
            ) by {
                if !into.contains(x) {
                    let k = choose|k: int| 0 <= k < more.len() && more[k] == x;
                    if k < more.len() - 1 {
                        assert(more.drop_last()[k] == x);
                    }
                }
            }
        }
    }
}

/// `sitemap.xml` and `sitemap_index.xml` at the root of the origin of the
/// page at `base_href`, each where it joins onto that root.
pub open spec fn sitemap_roots(base_href: Seq<char>) -> Seq<Seq<char>> {
    match url_origin_root(base_href) {
        Some(root) => {
            let a: Seq<Seq<char>> = match url_joined(root.href, "sitemap.xml"@) {
                Some(u) => seq![u.href],
                None => seq![],
            };
            match url_joined(root.href, "sitemap_index.xml"@) {
                Some(u) => a.push(u.href),
                None => a,
            }
        },
        None => seq![],
    }
}

/// The sitemap locations guessed for a site: `sitemap.xml` and
/// `sitemap_index.xml` at the root of its origin, then the hints not yet
/// listed.
pub open spec fn guessed_sitemaps(base_href: Seq<char>, hints: Seq<Seq<char>>) -> Seq<Seq<char>> {
    merged(sitemap_roots(base_href), hints)
}

/// The guessed sitemaps begin with the two guesses at the origin's root, in
/// that order, then hold every hint of `robots.txt` and nothing else, each
/// URL once (the two root guesses being different URLs).
pub proof fn law_guessed_sitemaps(base_href: Seq<char>, hints: Seq<Seq<char>>)
    ensures
        sitemap_roots(base_href).no_duplicates() ==> {
            let g = guessed_sitemaps(base_href, hints);
            let roots = sitemap_roots(base_href);
            &&& g.take(roots.len() as int) == roots
            &&& g.no_duplicates()
            &&& forall|x: Seq<char>| hints.contains(x) ==> g.contains(x)
            &&& forall|x: Seq<char>| g.contains(x) ==> roots.contains(x) || hints.contains(x)
        },
{
    if sitemap_roots(base_href).no_duplicates() {
        lemma_merged_unique(sitemap_roots(base_href), hints);
    }
}

/// Guesses the sitemap locations of the site at `base`, given the sitemap
/// hints of its `robots.txt`.
pub fn guess_sitemaps(base: &WebUrl, hints: &Vec<String>) -> (r: Vec<String>)
    ensures
        str_views(r@) == guessed_sitemaps(base@.href, str_views(hints@)),
{
    let mut v: Vec<String> = Vec::new();
    if let Some(root) = origin_root_url(base) {
        if let Ok(u) = join_url(&root, "sitemap.xml") {
            v.push(u.href);
        }
        if let Ok(u) = join_url(&root, "sitemap_index.xml") {
            v.push(u.href);
        }
    }
    proof {
        match url_origin_root(base@.href) {
            Some(root) => {
                let a: Seq<Seq<char>> = match url_joined(root.href, "sitemap.xml"@) {
                    Some(u) => seq![u.href],
                    None => seq![],
                };
                let b = match url_joined(root.href, "sitemap_index.xml"@) {
                    Some(u) => a.push(u.href),
                    None => a,
                };
                assert(str_views(v@) =~= b);
            },
            None => {
                assert(str_views(v@) =~= Seq::<Seq<char>>::empty());
            },
        }
    }
    merge_unique(&mut v, clone_strings(hints));
    v
}

/// The launcher entry written for a pinned site.
pub open spec fn desktop_file_text(title: Seq<char>, site_id: Seq<char>) -> Seq<char> {
    "[Desktop Entry]\nType=Application\nName="@ + title + "\nExec=xpde-webview --site-id "@
        + site_id + "\nCategories=XPDE-Web;\nOnlyShowIn=xpde;\n"@
}

/// The text of the launcher entry written for a pinned site.
pub fn desktop_file_contents(title: &str, site_id: &str) -> (r: String)
    ensures
        r@ == desktop_file_text(title@, site_id@),
{
    let mut s = String::from_str("[Desktop Entry]\nType=Application\nName=");
    s.append(title);
    s.append("\nExec=xpde-webview --site-id ");
    s.append(site_id);
    s.append("\nCategories=XPDE-Web;\nOnlyShowIn=xpde;\n");
    s
}

/// What `serde_json` finds under `key` in the JSON document `doc`: none when
/// the document does not parse; otherwise the string value of the top-level
/// member `key`, none when there is no such member or it is not a string.
pub uninterp spec fn json_str_member(doc: Seq<u8>, key: Seq<char>) -> Option<Option<Seq<char>>>;

/// `serde_json::from_slice::<Value>` then `Value::get(key)` and `as_str`.
/// The contract names the result.
#[verifier::external_body]
fn json_member(doc: &[u8], key: &str) -> (r: Option<Option<String>>)
    ensures
        match (r, json_str_member(doc@, key@)) {
            (Some(x), Some(y)) => opt_view(x) == y,
            (None, None) => true,
            _ => false,
        },
{
    let v: serde_json::Value = serde_json::from_slice(doc).ok()?;
    match v.get(key) {
        Some(serde_json::Value::String(s)) => Some(Some(s.clone())),
        _ => Some(None),
    }
}

/// The member `key` of a manifest that parses.
pub open spec fn member(doc: Seq<u8>, key: Seq<char>) -> Option<Seq<char>> {
    match json_str_member(doc, key) {
        Some(m) => m,
        None => None,
    }
}

/// The summary of the web app manifest `doc`: none when it is not JSON;
/// otherwise each of `name`, `short_name`, `display`, `start_url` and
/// `theme_color` that is a string member of the top-level object.
pub open spec fn manifest_spec(doc: Seq<u8>) -> Option<ManifestView> {
    if json_str_member(doc, "name"@) is None {
        None
    } else {
        Some(
            ManifestView {
                name: member(doc, "name"@),
                short_name: member(doc, "short_name"@),
                display: member(doc, "display"@),
                start_url: member(doc, "start_url"@),
                theme_color: member(doc, "theme_color"@),
            },
        )
    }
}

/// Reads the summary fields of a web app manifest.
pub fn manifest_summary(doc: &[u8]) -> (r: Option<WebManifestSummary>)
    ensures
        opt_manifest_view(r) == manifest_spec(doc@),
{
    let name = json_member(doc, "name")?;
    let short_name = match json_member(doc, "short_name") {
        Some(x) => x,
        None => None,
    };
    let display = match json_member(doc, "display") {
        Some(x) => x,
        None => None,
    };
    let start_url = match json_member(doc, "start_url") {
        Some(x) => x,
        None => None,
    };
    let theme_color = match json_member(doc, "theme_color") {
        Some(x) => x,
        None => None,
    };
    Some(WebManifestSummary { name, short_name, display, start_url, theme_color })
}


// ---------------------------------------------------------------------------
// The launcher entry of a pinned site, read back
// ---------------------------------------------------------------------------

proof fn lemma_lines_cons(a: Seq<char>, rest: Seq<char>)
    requires
        !a.contains('\n'),
    ensures
        lines(a + seq!['\n'] + rest) == seq![strip_cr(a)] + lines(rest),
{
    let s = a + seq!['\n'] + rest;
    assert forall|j: int| 0 <= j < a.len() implies s[j] != '\n' by {
        assert(s[j] == a[j]);
    }
    lemma_find_from(s, '\n', 0, a.len() as int);
    assert(s.take(a.len() as int) =~= a);
    assert(s.skip(a.len() as int + 1) =~= rest);
}

proof fn lemma_trim_start_len(s: Seq<char>)
    ensures
        trim_start(s).len() <= s.len(),
    decreases s.len(),
{
    if s.len() > 0 {
        lemma_trim_start_len(s.drop_first());
    }
}

proof fn lemma_trim_end_len(s: Seq<char>)
    ensures
        trim_end(s).len() <= s.len(),
    decreases s.len(),
{
    if s.len() > 0 {
        lemma_trim_end_len(s.drop_last());
    }
}

proof fn lemma_trim_len(s: Seq<char>)
    ensures
        trim_start(s).len() <= s.len(),
        trim_end(s).len() <= s.len(),
        trim(s).len() <= s.len(),
{
    lemma_trim_start_len(s);
    lemma_trim_end_len(s);
    lemma_trim_end_len(trim_start(s));
}

/// A text that trimming leaves alone starts and ends with no white space.
proof fn lemma_trimmed_ends(s: Seq<char>)
    requires
        trim(s) == s,
        s.len() > 0,
    ensures
        !is_ws(s[0]),
        !is_ws(s.last()),
{
    lemma_trim_len(s);
    if is_ws(s[0]) {
        lemma_trim_len(s.drop_first());
        lemma_trim_len(trim_start(s));
        assert(trim_start(s) == trim_start(s.drop_first()));
        assert(trim(s).len() <= trim_start(s).len());
    }
    if trim_start(s).len() == s.len() {
        assert(trim_start(s) == s) by {
            if s.len() > 0 && is_ws(s[0]) {
                lemma_trim_len(s.drop_first());
            }
        }
        if is_ws(s.last()) {
            lemma_trim_len(s.drop_last());
            assert(trim_end(s) == trim_end(s.drop_last()));
        }
    }
}

/// A text that starts and ends with no white space is its own trim.
proof fn lemma_trim_fixed(s: Seq<char>)
    requires
        s.len() > 0,
        !is_ws(s[0]),
        !is_ws(s.last()),
    ensures
        trim(s) == s,
{
    assert(trim_start(s) == s);
}


/// The lines of a pinned site's launcher entry.
spec fn entry_lines(title: Seq<char>, id: Seq<char>) -> Seq<Seq<char>> {
    seq![
        "[Desktop Entry]"@,
        "Type=Application"@,
        "Name="@ + title,
        "Exec=xpde-webview --site-id "@ + id,
        "Categories=XPDE-Web;"@,
        "OnlyShowIn=xpde;"@,
    ]
}

proof fn lemma_no_lf(a: Seq<char>, b: Seq<char>)
    requires
        !a.contains('\n'),
        !b.contains('\n'),
    ensures
        !(a + b).contains('\n'),
{
    if (a + b).contains('\n') {
        let j = choose|j: int| 0 <= j < (a + b).len() && (a + b)[j] == '\n';
        if j < a.len() {
            assert(a[j] == '\n');
        } else {
            assert(b[j - a.len()] == '\n');
        }
    }
}

proof fn lemma_entry_lines(title: Seq<char>, id: Seq<char>)
    requires
        !title.contains('\n'),
        !id.contains('\n'),
        title.len() == 0 || title.last() != '\r',
        id.len() > 0,
        id.last() != '\r',
    ensures
        lines(desktop_file_text(title, id)) == entry_lines(title, id),
{
    reveal_strlit("[Desktop Entry]\nType=Application\nName=");
    reveal_strlit("\nExec=xpde-webview --site-id ");
    reveal_strlit("\nCategories=XPDE-Web;\nOnlyShowIn=xpde;\n");
    reveal_strlit("[Desktop Entry]");
    reveal_strlit("Type=Application");
    reveal_strlit("Name=");
    reveal_strlit("Exec=xpde-webview --site-id ");
    reveal_strlit("Categories=XPDE-Web;");
    reveal_strlit("OnlyShowIn=xpde;");
    let l1 = "[Desktop Entry]"@;
    let l2 = "Type=Application"@;
    let l3 = "Name="@ + title;
    let l4 = "Exec=xpde-webview --site-id "@ + id;
    let l5 = "Categories=XPDE-Web;"@;
    let l6 = "OnlyShowIn=xpde;"@;
    let nl = seq!['\n'];
    let r6 = l6 + nl + Seq::<char>::empty();
    let r5 = l5 + nl + r6;
    let r4 = l4 + nl + r5;
    let r3 = l3 + nl + r4;
    let r2 = l2 + nl + r3;
    let r1 = l1 + nl + r2;
    assert("[Desktop Entry]\nType=Application\nName="@ =~= l1 + nl + l2 + nl + "Name="@);
    assert("\nExec=xpde-webview --site-id "@ =~= nl + "Exec=xpde-webview --site-id "@);
    assert("\nCategories=XPDE-Web;\nOnlyShowIn=xpde;\n"@ =~= nl + l5 + nl + l6 + nl);
    assert(desktop_file_text(title, id) =~= r1);
    assert(!l1.contains('\n'));
    assert(!l2.contains('\n'));
    assert(!"Name="@.contains('\n'));
    lemma_no_lf("Name="@, title);
    assert(!"Exec=xpde-webview --site-id "@.contains('\n'));
    lemma_no_lf("Exec=xpde-webview --site-id "@, id);
    assert(!l5.contains('\n'));
    assert(!l6.contains('\n'));
    lemma_lines_cons(l1, r2);
    lemma_lines_cons(l2, r3);
    lemma_lines_cons(l3, r4);
    lemma_lines_cons(l4, r5);
    lemma_lines_cons(l5, r6);
    lemma_lines_cons(l6, Seq::<char>::empty());
    assert(strip_cr(l3) == l3);
    assert(strip_cr(l4) == l4);
    assert(lines(desktop_file_text(title, id)) =~= entry_lines(title, id));
}


/// How a `key=value` line of the entry group reads: it is its own trim,
/// it is no group header, and it splits at its first `=` into the key and
/// the value, each its own trim.
proof fn lemma_key_line(key: Seq<char>, val: Seq<char>)
    requires
        key.len() > 0,
        !key.contains('='),
        !is_ws(key[0]),
        !is_ws(key.last()),
        key[0] != '[',
        val.len() == 0 || (!is_ws(val[0]) && !is_ws(val.last())),
    ensures
        ({
            let line = key + seq!['='] + val;
            &&& trim(line) == line
            &&& !(line.len() > 0 && line[0] == '[')
            &&& split_once(line, '=') == Some((key, val))
            &&& trim(key) == key
            &&& trim(val) == val
        }),
{
    let line = key + seq!['='] + val;
    assert(line[0] == key[0]);
    assert(line.last() == if val.len() == 0 {
        '='
    } else {
        val.last()
    });
    lemma_trim_fixed(line);
    lemma_trim_fixed(key);
    if val.len() > 0 {
        lemma_trim_fixed(val);
    }
    assert forall|j: int| 0 <= j < key.len() implies line[j] != '=' by {
        assert(line[j] == key[j]);
    }
    lemma_find_from(line, '=', 0, key.len() as int);
    assert(line.take(key.len() as int) =~= key);
    assert(line.skip(key.len() as int + 1) =~= val);
}

/// The state a pinned site's launcher entry leaves after its lines.
spec fn entry_scan(title: Seq<char>, id: Seq<char>) -> DesktopScan {
    DesktopScan {
        in_entry: true,
        type_app: true,
        name: Some(title),
        command: Some("xpde-webview --site-id "@ + id),
        no_display: false,
        hidden: false,
        only_show_in: Some("xpde;"@),
        not_show_in: None,
    }
}

proof fn lemma_entry_scan(title: Seq<char>, id: Seq<char>)
    requires
        trim(title) == title,
        trim(id) == id,
        id.len() > 0,
    ensures
        scan_lines(entry_lines(title, id)) == entry_scan(title, id),
{
    reveal_strlit("[Desktop Entry]");
    reveal_strlit("[desktop entry]");
    reveal_strlit("Type=Application");
    reveal_strlit("Type");
    reveal_strlit("Application");
    reveal_strlit("application");
    reveal_strlit("Name=");
    reveal_strlit("Name");
    reveal_strlit("Exec=xpde-webview --site-id ");
    reveal_strlit("Exec");
    reveal_strlit("xpde-webview --site-id ");
    reveal_strlit("Categories=XPDE-Web;");
    reveal_strlit("Categories");
    reveal_strlit("XPDE-Web;");
    reveal_strlit("OnlyShowIn=xpde;");
    reveal_strlit("OnlyShowIn");
    reveal_strlit("xpde;");
    reveal_strlit("NoDisplay");
    reveal_strlit("Hidden");
    reveal_strlit("NotShowIn");
    let e = entry_lines(title, id);
    assert(e.take(0) =~= Seq::<Seq<char>>::empty());
    let st0 = scan_lines(e.take(0));
    // [Desktop Entry]
    let l1 = "[Desktop Entry]"@;
    lemma_trim_fixed(l1);
    assert(eq_ignore_ascii_case(l1, "[desktop entry]"@));
    assert(e.take(1).drop_last() =~= e.take(0));
    let st1 = scan_lines(e.take(1));
    assert(st1 == DesktopScan { in_entry: true, ..scan_start() });
    // Type=Application
    assert("Type=Application"@ =~= "Type"@ + seq!['='] + "Application"@);
    lemma_key_line("Type"@, "Application"@);
    assert(eq_ignore_ascii_case("Application"@, "application"@));
    assert(e.take(2).drop_last() =~= e.take(1));
    let st2 = scan_lines(e.take(2));
    assert(st2 == DesktopScan { type_app: true, ..st1 });
    // Name=<title>
    assert("Name="@ + title =~= "Name"@ + seq!['='] + title);
    if title.len() > 0 {
        lemma_trimmed_ends(title);
    }
    lemma_key_line("Name"@, title);
    assert("Name"@[0] != "Type"@[0]);
    assert(e.take(3).drop_last() =~= e.take(2));
    let st3 = scan_lines(e.take(3));
    assert(st3 == DesktopScan { name: Some(title), ..st2 });
    // Exec=xpde-webview --site-id <id>
    let cmd = "xpde-webview --site-id "@ + id;
    assert("Exec=xpde-webview --site-id "@ + id =~= "Exec"@ + seq!['='] + cmd);
    assert(cmd[0] == 'x');
    assert(cmd.last() == id.last());
    lemma_trimmed_ends(id);
    lemma_key_line("Exec"@, cmd);
    assert("Exec"@[0] != "Type"@[0]);
    assert("Exec"@[0] != "Name"@[0]);
    assert(e.take(4).drop_last() =~= e.take(3));
    let st4 = scan_lines(e.take(4));
    assert(st4 == DesktopScan { command: Some(cmd), ..st3 });
    // Categories=XPDE-Web;
    assert("Categories=XPDE-Web;"@ =~= "Categories"@ + seq!['='] + "XPDE-Web;"@);
    lemma_key_line("Categories"@, "XPDE-Web;"@);
    assert("Categories"@[0] != "Type"@[0]);
    assert("Categories"@[0] != "Name"@[0]);
    assert("Categories"@[0] != "Exec"@[0]);
    assert("Categories"@[0] != "NoDisplay"@[0]);
    assert("Categories"@[0] != "Hidden"@[0]);
    assert("Categories"@[0] != "OnlyShowIn"@[0]);
    assert("Categories"@[0] != "NotShowIn"@[0]);
    assert(e.take(5).drop_last() =~= e.take(4));
    let st5 = scan_lines(e.take(5));
    assert(st5 == st4);
    // OnlyShowIn=xpde;
    assert("OnlyShowIn=xpde;"@ =~= "OnlyShowIn"@ + seq!['='] + "xpde;"@);
    lemma_key_line("OnlyShowIn"@, "xpde;"@);
    assert("OnlyShowIn"@[0] != "Type"@[0]);
    assert("OnlyShowIn"@[0] != "Name"@[0]);
    assert("OnlyShowIn"@[0] != "Exec"@[0]);
    assert("OnlyShowIn"@[0] != "NoDisplay"@[0]);
    assert("OnlyShowIn"@[0] != "Hidden"@[0]);
    assert(e.take(6).drop_last() =~= e.take(5));
    assert(e.take(6) =~= e);
    assert(scan_lines(e) == DesktopScan { only_show_in: Some("xpde;"@), ..st5 });
}


/// The launcher entry written for a pinned site lists the site as an
/// application: read back as the `.desktop` file `file_name`, it names the
/// site by its title and runs `xpde-webview --site-id <id>`; it is shown in
/// sessions that name no desktop or name `xpde`, and hidden in others. This
/// holds for a title and an id on one line each, with no white space at
/// their ends (the reader trims values), and an id that is not empty.
pub proof fn law_pinned_entry_listed(
    title: Seq<char>,
    id: Seq<char>,
    file_name: Seq<char>,
    current_desktop: Seq<char>,
)
    requires
        !title.contains('\n'),
        trim(title) == title,
        !id.contains('\n'),
        trim(id) == id,
        id.len() > 0,
    ensures
        desktop_entry(desktop_file_text(title, id), file_name, current_desktop) == (if split_nonempty(
            current_desktop,
            ':',
        ).len() == 0 || split_nonempty(current_desktop, ':').contains("xpde"@) {
            Some(
                AppEntryView {
                    id: file_name,
                    name: title,
                    command: "xpde-webview --site-id "@ + id,
                },
            )
        } else {
            None
        }),
{
    if title.len() > 0 {
        lemma_trimmed_ends(title);
    }
    lemma_trimmed_ends(id);
    lemma_entry_lines(title, id);
    lemma_entry_scan(title, id);
    reveal_strlit("xpde;");
    reveal_strlit("xpde");
    let x = "xpde;"@;
    lemma_find_from(x, ';', 0, 4);
    assert(x.take(4) =~= "xpde"@);
    assert(x.skip(5) =~= Seq::<char>::empty());
    assert(split_nonempty(x.skip(5), ';') =~= Seq::<Seq<char>>::empty());
    assert(x.len() == 5 && x[4] == ';');
    assert(split_nonempty(x, ';') == seq![x.take(4)] + split_nonempty(x.skip(5), ';'));
    assert(split_nonempty(x, ';') =~= seq!["xpde"@]);
    let desktops = split_nonempty(current_desktop, ':');
    if desktops.contains("xpde"@) {
        let j = choose|j: int| 0 <= j < desktops.len() && desktops[j] == "xpde"@;
        assert(seq!["xpde"@][0] == desktops[j]);
        assert(share_piece(seq!["xpde"@], desktops));
    }
    if share_piece(seq!["xpde"@], desktops) {
        let (i, j) = choose|i: int, j: int|
            0 <= i < 1 && 0 <= j < desktops.len() && seq!["xpde"@][i] == desktops[j];
        assert(desktops[j] == "xpde"@);
        assert(desktops.contains("xpde"@));
    }
}

} // verus!
