//! Probing a page for what can be installed from it: its title, icon, web
//! app manifest, feeds, OpenSearch descriptions and sitemaps.
use vstd::prelude::*;

use crate::ipc::{feed_link_views, opt_view, str_views, FeedLink, FeedLinkView, ProbeResult, ProbeView};
use crate::feed::is_success;
use crate::pin::{guess_sitemaps, guessed_sitemaps, manifest_spec, manifest_summary, merge_unique, merged};
use crate::text::{
    ascii_lower_seq, ascii_lowercase, chars_eq_str, chars_of, contains, contains_chars, decimal,
    decimal_chars, ends_with, ends_with_chars, lines, lines_of, string_of, strip_prefix_ascii_case,
    strip_prefix_ignore_ascii_case, strip_sliceable, trim, trim_chars, views, words, words_of,
};
use crate::weburl::{
    join_url, origin_root_url, parse_url, same_origin, same_origin_spec, same_origin_str, url_joined,
    url_origin_root, url_parsed, WebUrl, WebUrlView,
};

verus! {

/// An element matched by a CSS selector: its inner HTML and the values of
/// the attributes asked for, in the order asked.
#[derive(Debug, PartialEq, Eq)]
pub struct HtmlElement {
    pub inner_html: String,
    pub attrs: Vec<Option<String>>,
}

/// The text of an [`HtmlElement`].
pub struct HtmlElementView {
    pub inner_html: Seq<char>,
    pub attrs: Seq<Option<Seq<char>>>,
}

/// The views of a list of optional strings.
pub open spec fn opt_views(s: Seq<Option<String>>) -> Seq<Option<Seq<char>>> {
    Seq::new(s.len(), |i: int| opt_view(s[i]))
}

impl View for HtmlElement {
    type V = HtmlElementView;

    open spec fn view(&self) -> HtmlElementView {
        HtmlElementView { inner_html: self.inner_html@, attrs: opt_views(self.attrs@) }
    }
}

/// The views of a list of elements.
pub open spec fn element_views(s: Seq<HtmlElement>) -> Seq<HtmlElementView> {
    Seq::new(s.len(), |i: int| s[i]@)
}

/// The elements of the document `html`, parsed as `scraper::Html` does, that
/// match the CSS selector `selector`, in document order, each with the
/// attributes named by `names`; none when the selector does not parse.
pub uninterp spec fn html_selection(
    html: Seq<char>,
    selector: Seq<char>,
    names: Seq<Seq<char>>,
) -> Option<Seq<HtmlElementView>>;

/// `scraper::Selector::parse` and `scraper::Html::parse_document`, then
/// `Html::select`, each element read by `inner_html` and
/// `value().attr(name)`. The contract names the result, and that each
/// element carries one value per name asked.
#[verifier::external_body]
fn select_html(html: &str, selector: &str, names: &Vec<String>) -> (r: Option<Vec<HtmlElement>>)
    ensures
        match r {
            Some(v) => html_selection(html@, selector@, str_views(names@)) == Some(element_views(v@))
                && forall|i: int| 0 <= i < v@.len() ==> #[trigger] v@[i].attrs@.len() == names@.len(),
            None => html_selection(html@, selector@, str_views(names@)) is None,
        },
{
    let sel = scraper::Selector::parse(selector).ok()?;
    let doc = scraper::Html::parse_document(html);
    Some(doc.select(&sel).map(|el| HtmlElement {
        inner_html: el.inner_html(),
        attrs: names.iter().map(|n| el.value().attr(n).map(|a| a.to_string())).collect(),
    }).collect())
}

/// What `String::from_utf8_lossy` makes of `bytes`.
pub uninterp spec fn utf8_lossy_text(bytes: Seq<u8>) -> Seq<char>;

/// `String::from_utf8_lossy`. The contract names the result and, as its
/// documentation says, that valid UTF-8 comes back as it is.
#[verifier::external_body]
pub(crate) fn utf8_lossy(bytes: &[u8]) -> (r: String)
    ensures
        r@ == utf8_lossy_text(bytes@),
        vstd::utf8::valid_utf8(bytes@) ==> r@ == vstd::utf8::decode_utf8(bytes@),
{
    String::from_utf8_lossy(bytes).into_owned()
}

/// What a page's `<link>` elements tell: its manifest, OpenSearch
/// descriptions, feeds and icon.
pub struct LinkFacts {
    pub manifest: Option<Seq<char>>,
    pub opensearch: Seq<Seq<char>>,
    pub feeds: Seq<FeedLinkView>,
    pub favicon: Option<Seq<char>>,
}

/// The link facts a probe result holds.
pub open spec fn facts_of(p: ProbeView) -> LinkFacts {
    LinkFacts {
        manifest: p.manifest_url,
        opensearch: p.opensearch_urls,
        feeds: p.feed_urls,
        favicon: p.favicon_url,
    }
}

/// The attributes read from `<link>` elements: `rel`, `href`, `type`, `title`.
pub open spec fn link_attr_names() -> Seq<Seq<char>> {
    seq!["rel"@, "href"@, "type"@, "title"@]
}

/// An optional attribute's value, or the empty string.
pub open spec fn or_empty(a: Option<Seq<char>>) -> Seq<char> {
    match a {
        Some(s) => s,
        None => seq![],
    }
}

/// A feed type: one that names RSS or Atom, or ends in `+xml`.
pub open spec fn is_feed_type(t: Seq<char>) -> bool {
    contains(t, "rss"@) || contains(t, "atom"@) || ends_with(t, "+xml"@)
}

/// One `<link>` element read against the page at `base`: its `href`,
/// resolved against the page, becomes the manifest (if none yet) for
/// `rel=manifest`, an OpenSearch description for `rel=search` with an
/// OpenSearch type or an `href` ending in `xml`, a feed for `rel=alternate`
/// with a feed type (lower-cased), and the icon (if none yet) for
/// `rel=icon`. Rel words are compared after ASCII lower-casing; a link
/// without `href`, or whose `href` does not resolve, tells nothing.
pub open spec fn link_step(st: LinkFacts, el: HtmlElementView, base: Seq<char>) -> LinkFacts {
    let rel = words(ascii_lower_seq(or_empty(el.attrs[0])), true);
    match el.attrs[1] {
        None => st,
        Some(href) => match url_joined(base, href) {
            None => st,
            Some(abs) => {
                let a = abs.href;
                let ty = or_empty(el.attrs[2]);
                let tyl = ascii_lower_seq(ty);
                LinkFacts {
                    manifest: if rel.contains("manifest"@) && st.manifest is None {
                        Some(a)
                    } else {
                        st.manifest
                    },
                    opensearch: if rel.contains("search"@) && (contains(ty, "opensearch"@)
                        || ends_with(href, "xml"@)) {
                        st.opensearch.push(a)
                    } else {
                        st.opensearch
                    },
                    feeds: if rel.contains("alternate"@) && is_feed_type(tyl) {
                        st.feeds.push(FeedLinkView { href: a, type_: Some(tyl), title: el.attrs[3] })
                    } else {
                        st.feeds
                    },
                    favicon: if (rel.contains("icon"@) || rel.contains("shortcut icon"@))
                        && st.favicon is None {
                        Some(a)
                    } else {
                        st.favicon
                    },
                }
            },
        },
    }
}

/// The facts of the `<link>` elements `els`, read in order after `st`.
pub open spec fn links_fold(els: Seq<HtmlElementView>, base: Seq<char>, st: LinkFacts) -> LinkFacts
    decreases els.len(),
{
    if els.len() == 0 {
        st
    } else {
        link_step(links_fold(els.drop_last(), base, st), els.last(), base)
    }
}

/// The page's title: the trimmed inner HTML of its first `<title>` when
/// not empty, else what was known before.
pub open spec fn page_title(before: Option<Seq<char>>, titles: Seq<HtmlElementView>) -> Option<
    Seq<char>,
> {
    if titles.len() > 0 && trim(titles[0].inner_html).len() > 0 {
        Some(trim(titles[0].inner_html))
    } else {
        before
    }
}

/// The icon, or else `favicon.ico` at the root of the page's origin.
pub open spec fn icon_or_default(icon: Option<Seq<char>>, base: Seq<char>) -> Option<Seq<char>> {
    match icon {
        Some(i) => Some(i),
        None => match url_origin_root(base) {
            Some(root) => match url_joined(root.href, "favicon.ico"@) {
                Some(u) => Some(u.href),
                None => None,
            },
            None => None,
        },
    }
}

/// What reading the HTML `html` of the page at `base` makes of a probe
/// result: nothing changes when either selector fails; otherwise the title,
/// and the link facts read in document order and completed by the default
/// icon.
pub open spec fn enrich_spec(before: ProbeView, base: Seq<char>, html: Seq<char>) -> ProbeView {
    match (html_selection(html, "title"@, seq![]), html_selection(html, "link"@, link_attr_names())) {
        (Some(titles), Some(links)) => {
            let f = links_fold(links, base, facts_of(before));
            ProbeView {
                title: page_title(before.title, titles),
                manifest_url: f.manifest,
                opensearch_urls: f.opensearch,
                feed_urls: f.feeds,
                favicon_url: icon_or_default(f.favicon, base),
                ..before
            }
        },
        _ => before,
    }
}

/// `p` and `q` agree on the fields that reading a page's HTML leaves alone.
pub open spec fn same_outside_html(p: ProbeView, q: ProbeView) -> bool {
    &&& p.url == q.url
    &&& p.status_code == q.status_code
    &&& p.final_url == q.final_url
    &&& p.manifest == q.manifest
    &&& p.sitemap_urls == q.sitemap_urls
    &&& p.robots_sitemap_hints == q.robots_sitemap_hints
    &&& p.error == q.error
}

fn has_word(ws: &Vec<Vec<char>>, w: &str) -> (r: bool)
    ensures
        r == views(ws@).contains(w@),
{
    let mut i: usize = 0;
    let mut found = false;
    while i < ws.len() && !found
        invariant
            i <= ws@.len(),
            found == exists|j: int| 0 <= j < i && views(ws@)[j] == w@,
        decreases ws@.len() - i,
    {
        found = chars_eq_str(&ws[i], w);
        assert(views(ws@)[i as int] == ws@[i as int]@);
        i = i + 1;
    }
    proof {
        if found {
            let j = choose|j: int| 0 <= j < i && views(ws@)[j] == w@;
            assert(views(ws@)[j] == w@);
        } else {
            assert forall|j: int| 0 <= j < views(ws@).len() implies views(ws@)[j] != w@ by {
                assert(j < i);
            }
        }
    }
    found
}

fn attr_chars(el: &HtmlElement, k: usize) -> (r: Vec<char>)
    requires
        k < el.attrs@.len(),
    ensures
        r@ == or_empty(el@.attrs[k as int]),
{
    match &el.attrs[k] {
        Some(a) => chars_of(a.as_str()),
        None => Vec::new(),
    }
}

fn read_link(out: &mut ProbeResult, el: &HtmlElement, base: &WebUrl)
    requires
        el.attrs@.len() == 4,
    ensures
        facts_of(final(out)@) == link_step(facts_of(old(out)@), el@, base.href@),
        same_outside_html(old(out)@, final(out)@),
        final(out)@.title == old(out)@.title,
{
    let ghost st = facts_of(out@);
    let rel_raw = attr_chars(el, 0);
    let rel = words_of(&ascii_lowercase(&rel_raw), true);
    let href = match &el.attrs[1] {
        Some(h) => h,
        None => return,
    };
    let abs = match join_url(base, href.as_str()) {
        Ok(u) => u,
        Err(_) => return,
    };
    let ty = attr_chars(el, 2);
    let tyl = ascii_lowercase(&ty);
    if has_word(&rel, "manifest") && out.manifest_url.is_none() {
        out.manifest_url = Some(abs.href.clone());
    }
    if has_word(&rel, "search") {
        let hv = chars_of(href.as_str());
        if contains_chars(&ty, &chars_of("opensearch")) || ends_with_chars(&hv, &chars_of("xml")) {
            let ghost before = out.opensearch_urls@;
            out.opensearch_urls.push(abs.href.clone());
            assert(str_views(out.opensearch_urls@) =~= str_views(before).push(abs.href@));
        }
    }
    if has_word(&rel, "alternate") {
        if contains_chars(&tyl, &chars_of("rss")) || contains_chars(&tyl, &chars_of("atom"))
            || ends_with_chars(&tyl, &chars_of("+xml")) {
            let title = crate::ipc::clone_opt(&el.attrs[3]);
            let link = FeedLink { href: abs.href.clone(), type_: Some(string_of(&tyl)), title };
            let ghost before = out.feed_urls@;
            out.feed_urls.push(link);
            assert(feed_link_views(out.feed_urls@) =~= feed_link_views(before).push(
                FeedLinkView { href: abs.href@, type_: Some(tyl@), title: el@.attrs[3] },
            ));
        }
    }
    if (has_word(&rel, "icon") || has_word(&rel, "shortcut icon")) && out.favicon_url.is_none() {
        out.favicon_url = Some(abs.href.clone());
    }
    assert(facts_of(out@) =~~= link_step(st, el@, base.href@));
}

/// Reads a page's HTML into a probe result: its title, and from its
/// `<link>` elements its manifest, OpenSearch descriptions, feeds and icon,
/// with `favicon.ico` at the origin's root as the icon of last resort.
pub fn enrich_from_html(out: &mut ProbeResult, base: &WebUrl, html: &str)
    ensures
        final(out)@ == enrich_spec(old(out)@, base.href@, html@),
{
    let no_names: Vec<String> = Vec::new();
    assert(str_views(no_names@) =~= Seq::<Seq<char>>::empty());
    let titles = match select_html(html, "title", &no_names) {
        Some(t) => t,
        None => return,
    };
    let mut names: Vec<String> = Vec::new();
    names.push(String::from_str("rel"));
    names.push(String::from_str("href"));
    names.push(String::from_str("type"));
    names.push(String::from_str("title"));
    assert(str_views(names@) =~= link_attr_names());
    let links = match select_html(html, "link", &names) {
        Some(l) => l,
        None => return,
    };
    let ghost before = out@;
    if titles.len() > 0 {
        assert(element_views(titles@)[0] == titles@[0]@);
        let text = trim_chars(&chars_of(titles[0].inner_html.as_str()));
        if text.len() > 0 {
            out.title = Some(string_of(&text));
        }
    }
    let ghost after_title = out@;
    let mut i: usize = 0;
    assert(element_views(links@).take(0) =~= Seq::<HtmlElementView>::empty());
    while i < links.len()
        invariant
            i <= links@.len(),
            forall|j: int| 0 <= j < links@.len() ==> #[trigger] links@[j].attrs@.len() == 4,
            facts_of(out@) == links_fold(element_views(links@).take(i as int), base.href@, facts_of(before)),
            same_outside_html(before, out@),
            out@.title == after_title.title,
            facts_of(after_title) == facts_of(before),
        decreases links@.len() - i,
    {
        read_link(out, &links[i], base);
        proof {
            let s = element_views(links@).take(i + 1);
            assert(s.drop_last() =~= element_views(links@).take(i as int));
            assert(s.last() == links@[i as int]@);
        }
        i = i + 1;
    }
    assert(element_views(links@).take(links@.len() as int) =~= element_views(links@));
    if out.favicon_url.is_none() {
        if let Some(root) = origin_root_url(base) {
            if let Ok(u) = join_url(&root, "favicon.ico") {
                out.favicon_url = Some(u.href);
            }
        }
    }
}

/// The rel words of a `<link>` element, in ASCII lower case.
pub open spec fn rel_words(el: HtmlElementView) -> Seq<Seq<char>> {
    words(ascii_lower_seq(or_empty(el.attrs[0])), true)
}

/// A `<link>` element's `href` resolved against the page at `base`, when it
/// has one that resolves.
pub open spec fn link_target(el: HtmlElementView, base: Seq<char>) -> Option<Seq<char>> {
    match el.attrs[1] {
        None => None,
        Some(href) => match url_joined(base, href) {
            None => None,
            Some(abs) => Some(abs.href),
        },
    }
}

/// A link that names an OpenSearch description: its rel words include
/// `search`, its `href` resolves against the page at `base`, and its type
/// contains `opensearch` or its `href` ends in `xml`.
pub open spec fn is_opensearch_link(el: HtmlElementView, base: Seq<char>) -> bool {
    &&& rel_words(el).contains("search"@)
    &&& link_target(el, base) is Some
    &&& (contains(or_empty(el.attrs[2]), "opensearch"@) || ends_with(or_empty(el.attrs[1]), "xml"@))
}

proof fn lemma_opensearch_fold(els: Seq<HtmlElementView>, base: Seq<char>, st: LinkFacts)
    ensures
        links_fold(els, base, st).opensearch == st.opensearch + els.filter(
            |e: HtmlElementView| is_opensearch_link(e, base),
        ).map_values(|e: HtmlElementView| link_target(e, base).unwrap()),
    decreases els.len(),
{
    reveal(Seq::filter);
    let pred = |e: HtmlElementView| is_opensearch_link(e, base);
    let tgt = |e: HtmlElementView| link_target(e, base).unwrap();
    if els.len() == 0 {
        assert(els.filter(pred) =~= Seq::<HtmlElementView>::empty());
        assert(st.opensearch + els.filter(pred).map_values(tgt) =~= st.opensearch);
    } else {
        lemma_opensearch_fold(els.drop_last(), base, st);
        let prev = els.drop_last().filter(pred);
        let last = els.last();
        if pred(last) {
            assert(els.filter(pred) == prev.push(last));
            assert(prev.push(last).map_values(tgt) =~= prev.map_values(tgt).push(tgt(last)));
            assert(st.opensearch + prev.map_values(tgt).push(tgt(last)) =~= (st.opensearch
                + prev.map_values(tgt)).push(tgt(last)));
        } else {
            assert(els.filter(pred) == prev);
        }
    }
}

/// The OpenSearch descriptions a page names are read in full and in order:
/// after reading a page whose title and links could be selected, the list
/// is the one known before followed by the resolved `href` of every link
/// that names an OpenSearch description, in document order, and nothing
/// else.
pub proof fn law_opensearch_links(before: ProbeView, base: Seq<char>, html: Seq<char>)
    ensures
        match (
            html_selection(html, "title"@, seq![]),
            html_selection(html, "link"@, link_attr_names()),
        ) {
            (Some(_), Some(links)) => enrich_spec(before, base, html).opensearch_urls
                == before.opensearch_urls + links.filter(
                |e: HtmlElementView| is_opensearch_link(e, base),
            ).map_values(|e: HtmlElementView| link_target(e, base).unwrap()),
            _ => enrich_spec(before, base, html).opensearch_urls == before.opensearch_urls,
        },
{
    if let Some(links) = html_selection(html, "link"@, link_attr_names()) {
        lemma_opensearch_fold(links, base, facts_of(before));
    }
}

/// A link that names a feed: its rel words include `alternate`, its `href`
/// resolves against the page at `base`, and its type, in ASCII lower case,
/// names RSS or Atom or ends in `+xml`.
pub open spec fn is_feed_link(el: HtmlElementView, base: Seq<char>) -> bool {
    &&& rel_words(el).contains("alternate"@)
    &&& link_target(el, base) is Some
    &&& is_feed_type(ascii_lower_seq(or_empty(el.attrs[2])))
}

/// The feed a feed link names: its resolved `href`, its lower-cased type and
/// its title.
pub open spec fn feed_of_link(el: HtmlElementView, base: Seq<char>) -> FeedLinkView {
    FeedLinkView {
        href: link_target(el, base).unwrap(),
        type_: Some(ascii_lower_seq(or_empty(el.attrs[2]))),
        title: el.attrs[3],
    }
}

proof fn lemma_feeds_fold(els: Seq<HtmlElementView>, base: Seq<char>, st: LinkFacts)
    ensures
        links_fold(els, base, st).feeds == st.feeds + els.filter(
            |e: HtmlElementView| is_feed_link(e, base),
        ).map_values(|e: HtmlElementView| feed_of_link(e, base)),
    decreases els.len(),
{
    reveal(Seq::filter);
    let pred = |e: HtmlElementView| is_feed_link(e, base);
    let fl = |e: HtmlElementView| feed_of_link(e, base);
    if els.len() == 0 {
        assert(els.filter(pred) =~= Seq::<HtmlElementView>::empty());
        assert(st.feeds + els.filter(pred).map_values(fl) =~= st.feeds);
    } else {
        lemma_feeds_fold(els.drop_last(), base, st);
        let prev = els.drop_last().filter(pred);
        let last = els.last();
        if pred(last) {
            assert(els.filter(pred) == prev.push(last));
            assert(prev.push(last).map_values(fl) =~= prev.map_values(fl).push(fl(last)));
            assert(st.feeds + prev.map_values(fl).push(fl(last)) =~= (st.feeds + prev.map_values(fl)).push(
                fl(last),
            ));
        } else {
            assert(els.filter(pred) == prev);
        }
    }
}

/// The feeds a page names are read in full and in order: after reading a
/// page whose title and links could be selected, the feed list is the one
/// known before followed by the feed of every link that names a feed, in
/// document order, and nothing else.
pub proof fn law_feed_links(before: ProbeView, base: Seq<char>, html: Seq<char>)
    ensures
        match (
            html_selection(html, "title"@, seq![]),
            html_selection(html, "link"@, link_attr_names()),
        ) {
            (Some(_), Some(links)) => enrich_spec(before, base, html).feed_urls == before.feed_urls
                + links.filter(|e: HtmlElementView| is_feed_link(e, base)).map_values(
                |e: HtmlElementView| feed_of_link(e, base),
            ),
            _ => enrich_spec(before, base, html).feed_urls == before.feed_urls,
        },
{
    if let Some(links) = html_selection(html, "link"@, link_attr_names()) {
        lemma_feeds_fold(links, base, facts_of(before));
    }
}

/// A page's title is its first `<title>`, trimmed, when that is not
/// empty; otherwise the title known before stays, as it does when the page
/// could not be selected from. Later `<title>`s are never read.
pub proof fn law_page_title(before: ProbeView, base: Seq<char>, html: Seq<char>)
    ensures
        match (
            html_selection(html, "title"@, seq![]),
            html_selection(html, "link"@, link_attr_names()),
        ) {
            (Some(titles), Some(_)) => {
                &&& (titles.len() > 0 && trim(titles[0].inner_html).len() > 0) ==> enrich_spec(
                    before,
                    base,
                    html,
                ).title == Some(trim(titles[0].inner_html))
                &&& !(titles.len() > 0 && trim(titles[0].inner_html).len() > 0) ==> enrich_spec(
                    before,
                    base,
                    html,
                ).title == before.title
            },
            _ => enrich_spec(before, base, html).title == before.title,
        },
{
}

/// A link naming a web app manifest.
pub open spec fn is_manifest_link(el: HtmlElementView) -> bool {
    rel_words(el).contains("manifest"@)
}

/// A link naming an icon.
pub open spec fn is_icon_link(el: HtmlElementView) -> bool {
    rel_words(el).contains("icon"@) || rel_words(el).contains("shortcut icon"@)
}

/// The resolved target of the first element of `els`, in document order,
/// that `wanted` accepts and whose `href` resolves.
pub open spec fn first_link(
    els: Seq<HtmlElementView>,
    base: Seq<char>,
    wanted: spec_fn(HtmlElementView) -> bool,
) -> Option<Seq<char>>
    decreases els.len(),
{
    if els.len() == 0 {
        None
    } else {
        match first_link(els.drop_last(), base, wanted) {
            Some(t) => Some(t),
            None => if wanted(els.last()) {
                link_target(els.last(), base)
            } else {
                None
            },
        }
    }
}

/// `a`, or else `b`.
pub open spec fn either(a: Option<Seq<char>>, b: Option<Seq<char>>) -> Option<Seq<char>> {
    match a {
        Some(x) => Some(x),
        None => b,
    }
}

proof fn lemma_links_first_match(els: Seq<HtmlElementView>, base: Seq<char>, st: LinkFacts)
    ensures
        links_fold(els, base, st).manifest == either(
            st.manifest,
            first_link(els, base, |e: HtmlElementView| is_manifest_link(e)),
        ),
        links_fold(els, base, st).favicon == either(
            st.favicon,
            first_link(els, base, |e: HtmlElementView| is_icon_link(e)),
        ),
    decreases els.len(),
{
    if els.len() > 0 {
        lemma_links_first_match(els.drop_last(), base, st);
    }
}

/// The manifest and the icon come from the first matching link: after
/// reading a page whose title and links could be selected, the manifest URL
/// is the one already known, else the resolved `href` of the first
/// `rel=manifest` link, in document order, whose `href` resolves; the icon is
/// likewise the first `rel=icon` (or `shortcut icon`) link's, and
/// `favicon.ico` at the origin's root when there is none. The page's
/// address, status, manifest, sitemaps and error are left as they were
/// either way, and nothing changes when a selection fails.
pub proof fn law_enrich_first_match(before: ProbeView, base: Seq<char>, html: Seq<char>)
    ensures
        ({
            let after = enrich_spec(before, base, html);
            &&& same_outside_html(before, after)
            &&& match (
                html_selection(html, "title"@, seq![]),
                html_selection(html, "link"@, link_attr_names()),
            ) {
                (Some(_), Some(links)) => {
                    &&& after.manifest_url == either(
                        before.manifest_url,
                        first_link(links, base, |e: HtmlElementView| is_manifest_link(e)),
                    )
                    &&& after.favicon_url == icon_or_default(
                        either(
                            before.favicon_url,
                            first_link(links, base, |e: HtmlElementView| is_icon_link(e)),
                        ),
                        base,
                    )
                },
                _ => after == before,
            }
        }),
{
    if let Some(links) = html_selection(html, "link"@, link_attr_names()) {
        lemma_links_first_match(links, base, facts_of(before));
    }
}

// ---------------------------------------------------------------------------
// robots.txt
// ---------------------------------------------------------------------------

/// `other` parses to a URL with the origin of the URL that `base` parses to.
pub open spec fn same_origin_text(base: Seq<char>, other: Seq<char>) -> bool {
    match url_parsed(base) {
        Some(b) => same_origin_spec(b, other),
        None => false,
    }
}

/// The sitemap a `robots.txt` line names: a trimmed line that starts with
/// `sitemap:` in any ASCII case gives the trimmed rest, when that is not
/// empty and has the origin of `root`.
pub open spec fn sitemap_hint(line: Seq<char>, root: Seq<char>) -> Option<Seq<char>> {
    match strip_prefix_ascii_case(trim(line), "sitemap:"@) {
        Some(rest) => {
            let u = trim(rest);
            if u.len() > 0 && same_origin_text(root, u) {
                Some(u)
            } else {
                None
            }
        },
        None => None,
    }
}

/// The sitemap hints of the lines `ls`, in order.
pub open spec fn hints_of(ls: Seq<Seq<char>>, root: Seq<char>) -> Seq<Seq<char>>
    decreases ls.len(),
{
    if ls.len() == 0 {
        seq![]
    } else {
        let prev = hints_of(ls.drop_last(), root);
        match sitemap_hint(ls.last(), root) {
            Some(u) => prev.push(u),
            None => prev,
        }
    }
}

/// The sitemap hints of the `robots.txt` text `text` found at the origin
/// root `root`.
pub open spec fn robots_hints_spec(root: Seq<char>, text: Seq<char>) -> Seq<Seq<char>> {
    hints_of(lines(text), root)
}

/// A line whose trimmed text can be cut after as many bytes as `sitemap:`
/// has, as the prefix test does.
pub open spec fn line_sliceable(line: Seq<char>) -> bool {
    strip_sliceable(trim(line), "sitemap:"@)
}

/// Every line of `text` is [`line_sliceable`].
pub open spec fn robots_sliceable(text: Seq<char>) -> bool {
    forall|i: int| 0 <= i < lines(text).len() ==> line_sliceable(#[trigger] lines(text)[i])
}

fn line_sliceable_exec(line: &Vec<char>) -> (r: bool)
    ensures
        r == line_sliceable(line@),
{
    let t = string_of(&trim_chars(line));
    let b = t.as_str().as_bytes();
    let q = "sitemap:".as_bytes();
    b.len() < q.len() || t.as_str().is_char_boundary(q.len())
}

/// Whether every line of a `robots.txt` text can be tested for the
/// `sitemap:` prefix (see [`line_sliceable`]).
pub fn robots_text_sliceable(text: &str) -> (r: bool)
    ensures
        r == robots_sliceable(text@),
{
    let ls = lines_of(&chars_of(text));
    let mut i: usize = 0;
    let mut ok = true;
    while i < ls.len() && ok
        invariant
            i <= ls@.len(),
            views(ls@) == lines(text@),
            ok == forall|j: int| 0 <= j < i ==> line_sliceable(#[trigger] lines(text@)[j]),
        decreases ls@.len() - i,
    {
        assert(views(ls@)[i as int] == ls@[i as int]@);
        ok = line_sliceable_exec(&ls[i]);
        proof {
            if ok {
                assert forall|j: int| 0 <= j < i + 1 implies line_sliceable(
                    #[trigger] lines(text@)[j],
                ) by {}
            }
        }
        i = i + 1;
    }
    proof {
        if ok {
            assert forall|j: int| 0 <= j < lines(text@).len() implies line_sliceable(
                #[trigger] lines(text@)[j],
            ) by {
                assert(j < i);
            }
        }
    }
    ok
}

/// The sitemap a `robots.txt` line names, if any.
pub fn sitemap_hint_of(line: &Vec<char>, root: &str) -> (r: Option<String>)
    requires
        line_sliceable(line@),
    ensures
        opt_view(r) == sitemap_hint(line@, root@),
{
    let l = string_of(&trim_chars(line));
    match strip_prefix_ignore_ascii_case(l.as_str(), "sitemap:") {
        Some(rest) => {
            let u = trim_chars(&chars_of(rest));
            if u.len() > 0 {
                let us = string_of(&u);
                if same_origin_str(root, us.as_str()) {
                    return Some(us);
                }
            }
            None
        },
        None => None,
    }
}

/// The sitemap hints of a `robots.txt` text found at the origin root
/// `origin_root_url`: for each line in order, the URL after a `sitemap:`
/// prefix (in any ASCII case), trimmed, when not empty and of the root's
/// origin.
pub fn robots_sitemap_hints(origin_root_url: &str, text: &str) -> (r: Vec<String>)
    requires
        robots_sliceable(text@),
    ensures
        str_views(r@) == robots_hints_spec(origin_root_url@, text@),
{
    let ls = lines_of(&chars_of(text));
    let mut out: Vec<String> = Vec::new();
    let mut i: usize = 0;
    assert(views(ls@).take(0) =~= Seq::<Seq<char>>::empty());
    while i < ls.len()
        invariant
            i <= ls@.len(),
            views(ls@) == lines(text@),
            robots_sliceable(text@),
            str_views(out@) == hints_of(views(ls@).take(i as int), origin_root_url@),
        decreases ls@.len() - i,
    {
        assert(views(ls@).take(i + 1).drop_last() =~= views(ls@).take(i as int));
        assert(views(ls@).take(i + 1).last() == ls@[i as int]@);
        assert(line_sliceable(lines(text@)[i as int]));
        match sitemap_hint_of(&ls[i], origin_root_url) {
            Some(u) => {
                let ghost before = out@;
                out.push(u);
                assert(str_views(out@) =~= str_views(before).push(u@));
            },
            None => {},
        }
        i = i + 1;
    }
    assert(views(ls@).take(ls@.len() as int) =~= views(ls@));
    out
}

// ---------------------------------------------------------------------------
// The probe
// ---------------------------------------------------------------------------

/// What a probe waits for.
#[derive(Debug, PartialEq, Eq)]
pub enum ProbeStage {
    /// The page itself, parsed as `base`.
    Page { base: WebUrl },
    /// The `robots.txt` at the origin root `root` of the page `base`.
    Robots { base: WebUrl, root: String },
    /// The page's web app manifest.
    Manifest,
    /// Nothing: the probe is over.
    Done,
}

/// A probe of a URL under way: what is known so far, and what it waits for.
#[derive(Debug, PartialEq, Eq)]
pub struct Probe {
    pub result: ProbeResult,
    pub stage: ProbeStage,
}

/// What the probe asks its runner to do next.
#[derive(Debug, PartialEq, Eq)]
pub enum ProbeAction {
    /// GET this URL and hand back the outcome.
    Fetch(String),
    /// The probe is over; its result is final.
    Finish,
    /// A `robots.txt` line could not be cut after its eighth byte: the
    /// prefix test gives up here, as slicing a `str` inside a character does.
    Abort,
}

/// The outcome of a GET.
#[derive(Debug, PartialEq, Eq)]
pub enum FetchOutcome {
    /// An answer came back.
    Response(crate::cache::Fetched),
    /// No answer came back; the message says why.
    Failed(String),
}

/// The view of a [`ProbeStage`].
pub enum ProbeStageView {
    Page { base: WebUrlView },
    Robots { base: WebUrlView, root: Seq<char> },
    Manifest,
    Done,
}

/// The view of a [`Probe`].
pub struct ProbeState {
    pub result: ProbeView,
    pub stage: ProbeStageView,
}

/// The view of a [`ProbeAction`].
pub enum ProbeActionView {
    Fetch(Seq<char>),
    Finish,
    Abort,
}

/// The view of a [`FetchOutcome`].
pub enum OutcomeView {
    Response { status: u16, final_url: Seq<char>, body: Seq<u8> },
    Failed(Seq<char>),
}

impl View for ProbeStage {
    type V = ProbeStageView;

    open spec fn view(&self) -> ProbeStageView {
        match self {
            ProbeStage::Page { base } => ProbeStageView::Page { base: base@ },
            ProbeStage::Robots { base, root } => ProbeStageView::Robots { base: base@, root: root@ },
            ProbeStage::Manifest => ProbeStageView::Manifest,
            ProbeStage::Done => ProbeStageView::Done,
        }
    }
}

impl View for Probe {
    type V = ProbeState;

    open spec fn view(&self) -> ProbeState {
        ProbeState { result: self.result@, stage: self.stage@ }
    }
}

impl View for ProbeAction {
    type V = ProbeActionView;

    open spec fn view(&self) -> ProbeActionView {
        match self {
            ProbeAction::Fetch(u) => ProbeActionView::Fetch(u@),
            ProbeAction::Finish => ProbeActionView::Finish,
            ProbeAction::Abort => ProbeActionView::Abort,
        }
    }
}

impl View for FetchOutcome {
    type V = OutcomeView;

    open spec fn view(&self) -> OutcomeView {
        match self {
            FetchOutcome::Response(f) => OutcomeView::Response {
                status: f.status,
                final_url: f.final_url@,
                body: f.bytes@,
            },
            FetchOutcome::Failed(e) => OutcomeView::Failed(e@),
        }
    }
}

/// A probe result that knows nothing yet about `url`.
pub open spec fn blank_probe(url: Seq<char>) -> ProbeView {
    ProbeView {
        url: url,
        status_code: None,
        final_url: None,
        title: None,
        favicon_url: None,
        manifest_url: None,
        manifest: None,
        sitemap_urls: seq![],
        feed_urls: seq![],
        opensearch_urls: seq![],
        robots_sitemap_hints: seq![],
        error: None,
    }
}

/// The probe is over with result `v`.
pub open spec fn done(v: ProbeView) -> (ProbeState, ProbeActionView) {
    (ProbeState { result: v, stage: ProbeStageView::Done }, ProbeActionView::Finish)
}

/// How a probe of `url` starts: a URL that does not parse ends it with the
/// error `invalid URL`; otherwise the page is fetched.
pub open spec fn start_spec(url: Seq<char>) -> (ProbeState, ProbeActionView) {
    match url_parsed(url) {
        None => done(ProbeView { error: Some("invalid URL"@), ..blank_probe(url) }),
        Some(b) => (
            ProbeState { result: blank_probe(url), stage: ProbeStageView::Page { base: b } },
            ProbeActionView::Fetch(url),
        ),
    }
}

/// Once the `robots.txt` hints are known: the guessed sitemaps (and the
/// hints) are merged into the sitemap list, then the manifest is fetched
/// when the page names one of its own origin; otherwise the probe is over.
pub open spec fn after_hints(v: ProbeView, base: WebUrlView) -> (ProbeState, ProbeActionView) {
    let w = ProbeView {
        sitemap_urls: merged(v.sitemap_urls, guessed_sitemaps(base.href, v.robots_sitemap_hints)),
        ..v
    };
    match w.manifest_url {
        Some(m) => if same_origin_spec(base, m) {
            (ProbeState { result: w, stage: ProbeStageView::Manifest }, ProbeActionView::Fetch(m))
        } else {
            done(w)
        },
        None => done(w),
    }
}

/// After the page was read: `robots.txt` at the root of the page's origin
/// is fetched. When the root does not parse back the hints are none; when
/// `robots.txt` does not join onto it they stay as they were.
pub open spec fn to_robots(v: ProbeView, base: WebUrlView) -> (ProbeState, ProbeActionView) {
    match url_origin_root(base.href) {
        None => after_hints(ProbeView { robots_sitemap_hints: seq![], ..v }, base),
        Some(root) => match url_parsed(root.href) {
            None => after_hints(ProbeView { robots_sitemap_hints: seq![], ..v }, base),
            Some(rp) => match url_joined(rp.href, "robots.txt"@) {
                None => after_hints(v, base),
                Some(ru) => (
                    ProbeState {
                        result: v,
                        stage: ProbeStageView::Robots { base: base, root: root.href },
                    },
                    ProbeActionView::Fetch(ru.href),
                ),
            },
        },
    }
}

/// The page answered: its status and final URL are recorded; a status
/// outside 200..300 ends the probe with the error `HTTP <status>`; otherwise
/// the body, read as UTF-8 with bad sequences replaced, is read as HTML.
pub open spec fn page_answered(
    v: ProbeView,
    base: WebUrlView,
    status: u16,
    final_url: Seq<char>,
    body: Seq<u8>,
) -> (ProbeState, ProbeActionView) {
    let v1 = ProbeView { status_code: Some(status), final_url: Some(final_url), ..v };
    if !(200 <= status < 300) {
        done(ProbeView { error: Some("HTTP "@ + decimal(status as nat)), ..v1 })
    } else {
        to_robots(enrich_spec(v1, base.href, utf8_lossy_text(body)), base)
    }
}

/// `robots.txt` answered: a status outside 200..300 means no hints; a text
/// that cannot be tested line by line aborts; otherwise its hints are kept.
pub open spec fn robots_answered(
    v: ProbeView,
    base: WebUrlView,
    root: Seq<char>,
    status: u16,
    body: Seq<u8>,
) -> (ProbeState, ProbeActionView) {
    if !(200 <= status < 300) {
        after_hints(ProbeView { robots_sitemap_hints: seq![], ..v }, base)
    } else if !robots_sliceable(utf8_lossy_text(body)) {
        (ProbeState { result: v, stage: ProbeStageView::Done }, ProbeActionView::Abort)
    } else {
        after_hints(
            ProbeView { robots_sitemap_hints: robots_hints_spec(root, utf8_lossy_text(body)), ..v },
            base,
        )
    }
}

/// The manifest answered: with a status in 200..300 and a body that is JSON,
/// its summary is kept. Either way the probe is over.
pub open spec fn manifest_answered(v: ProbeView, status: u16, body: Seq<u8>) -> (
    ProbeState,
    ProbeActionView,
) {
    if 200 <= status < 300 && manifest_spec(body) is Some {
        done(ProbeView { manifest: manifest_spec(body), ..v })
    } else {
        done(v)
    }
}

/// One step of a probe: what it makes of the outcome of the fetch it waits
/// for. A failed page fetch ends the probe with the failure's message; a
/// failed `robots.txt` fetch leaves the hints as they are; a failed manifest
/// fetch leaves the manifest out. A probe that is over stays over.
pub open spec fn step_spec(p: ProbeState, ev: OutcomeView) -> (ProbeState, ProbeActionView) {
    match p.stage {
        ProbeStageView::Done => (p, ProbeActionView::Finish),
        ProbeStageView::Page { base } => match ev {
            OutcomeView::Failed(e) => done(ProbeView { error: Some(e), ..p.result }),
            OutcomeView::Response { status, final_url, body } => page_answered(
                p.result,
                base,
                status,
                final_url,
                body,
            ),
        },
        ProbeStageView::Robots { base, root } => match ev {
            OutcomeView::Failed(_) => after_hints(p.result, base),
            OutcomeView::Response { status, body, .. } => robots_answered(
                p.result,
                base,
                root,
                status,
                body,
            ),
        },
        ProbeStageView::Manifest => match ev {
            OutcomeView::Failed(_) => done(p.result),
            OutcomeView::Response { status, body, .. } => manifest_answered(p.result, status, body),
        },
    }
}

fn blank_result(url: &str) -> (r: ProbeResult)
    ensures
        r@ == blank_probe(url@),
{
    let r = ProbeResult {
        url: String::from_str(url),
        status_code: None,
        final_url: None,
        title: None,
        favicon_url: None,
        manifest_url: None,
        manifest: None,
        sitemap_urls: Vec::new(),
        feed_urls: Vec::new(),
        opensearch_urls: Vec::new(),
        robots_sitemap_hints: Vec::new(),
        error: None,
    };
    assert(str_views(r.sitemap_urls@) =~= Seq::<Seq<char>>::empty());
    assert(str_views(r.opensearch_urls@) =~= Seq::<Seq<char>>::empty());
    assert(str_views(r.robots_sitemap_hints@) =~= Seq::<Seq<char>>::empty());
    assert(feed_link_views(r.feed_urls@) =~= Seq::<FeedLinkView>::empty());
    assert(r@ =~~= blank_probe(url@));
    r
}

/// Starts probing `url`.
pub fn probe_start(url: &str) -> (r: (Probe, ProbeAction))
    ensures
        (r.0@, r.1@) == start_spec(url@),
{
    let mut result = blank_result(url);
    match parse_url(url) {
        Err(_) => {
            result.error = Some(String::from_str("invalid URL"));
            proof {
                reveal_strlit("invalid URL");
            }
            (Probe { result, stage: ProbeStage::Done }, ProbeAction::Finish)
        },
        Ok(base) => (Probe { result, stage: ProbeStage::Page { base } }, ProbeAction::Fetch(String::from_str(url))),
    }
}

fn finish_hints(result: ProbeResult, base: WebUrl) -> (r: (Probe, ProbeAction))
    ensures
        (r.0@, r.1@) == after_hints(result@, base@),
{
    let mut result = result;
    let guessed = guess_sitemaps(&base, &result.robots_sitemap_hints);
    merge_unique(&mut result.sitemap_urls, guessed);
    let fetch = match &result.manifest_url {
        Some(m) => if same_origin(&base, m.as_str()) {
            Some(m.clone())
        } else {
            None
        },
        None => None,
    };
    match fetch {
        Some(m) => (Probe { result, stage: ProbeStage::Manifest }, ProbeAction::Fetch(m)),
        None => (Probe { result, stage: ProbeStage::Done }, ProbeAction::Finish),
    }
}

fn go_to_robots(result: ProbeResult, base: WebUrl) -> (r: (Probe, ProbeAction))
    ensures
        (r.0@, r.1@) == to_robots(result@, base@),
{
    let mut result = result;
    let root = match origin_root_url(&base) {
        Some(root) => root,
        None => {
            let ghost before = result@;
            result.robots_sitemap_hints = Vec::new();
            assert(str_views(result.robots_sitemap_hints@) =~= Seq::<Seq<char>>::empty());
            assert(result@ =~~= ProbeView { robots_sitemap_hints: seq![], ..before });
            return finish_hints(result, base);
        },
    };
    let parsed = match parse_url(root.href.as_str()) {
        Ok(p) => p,
        Err(_) => {
            let ghost before = result@;
            result.robots_sitemap_hints = Vec::new();
            assert(str_views(result.robots_sitemap_hints@) =~= Seq::<Seq<char>>::empty());
            assert(result@ =~~= ProbeView { robots_sitemap_hints: seq![], ..before });
            return finish_hints(result, base);
        },
    };
    match join_url(&parsed, "robots.txt") {
        Err(_) => finish_hints(result, base),
        Ok(ru) => (Probe { result, stage: ProbeStage::Robots { base, root: root.href } }, ProbeAction::Fetch(ru.href)),
    }
}

fn http_message(status: u16) -> (r: String)
    ensures
        r@ == "HTTP "@ + decimal(status as nat),
{
    let mut m = String::from_str("HTTP ");
    let d = string_of(&decimal_chars(status as usize));
    m.append(d.as_str());
    m
}

/// Hands a probe the outcome of the fetch it waits for.
pub fn probe_step(p: Probe, ev: FetchOutcome) -> (r: (Probe, ProbeAction))
    ensures
        (r.0@, r.1@) == step_spec(p@, ev@),
{
    let Probe { result, stage } = p;
    let mut result = result;
    match stage {
        ProbeStage::Done => (Probe { result, stage: ProbeStage::Done }, ProbeAction::Finish),
        ProbeStage::Page { base } => match ev {
            FetchOutcome::Failed(e) => {
                result.error = Some(e);
                (Probe { result, stage: ProbeStage::Done }, ProbeAction::Finish)
            },
            FetchOutcome::Response(f) => {
                result.status_code = Some(f.status);
                result.final_url = Some(f.final_url);
                if !is_success(f.status) {
                    result.error = Some(http_message(f.status));
                    return (Probe { result, stage: ProbeStage::Done }, ProbeAction::Finish);
                }
                let html = utf8_lossy(f.bytes.as_slice());
                enrich_from_html(&mut result, &base, html.as_str());
                go_to_robots(result, base)
            },
        },
        ProbeStage::Robots { base, root } => match ev {
            FetchOutcome::Failed(_) => finish_hints(result, base),
            FetchOutcome::Response(f) => {
                if !is_success(f.status) {
                    let ghost before = result@;
                    result.robots_sitemap_hints = Vec::new();
                    assert(str_views(result.robots_sitemap_hints@) =~= Seq::<Seq<char>>::empty());
                    assert(result@ =~~= ProbeView { robots_sitemap_hints: seq![], ..before });
                    return finish_hints(result, base);
                }
                let text = utf8_lossy(f.bytes.as_slice());
                if !robots_text_sliceable(text.as_str()) {
                    return (Probe { result, stage: ProbeStage::Done }, ProbeAction::Abort);
                }
                result.robots_sitemap_hints = robots_sitemap_hints(root.as_str(), text.as_str());
                finish_hints(result, base)
            },
        },
        ProbeStage::Manifest => match ev {
            FetchOutcome::Failed(_) => (Probe { result, stage: ProbeStage::Done }, ProbeAction::Finish),
            FetchOutcome::Response(f) => {
                if is_success(f.status) {
                    if let Some(m) = manifest_summary(f.bytes.as_slice()) {
                        result.manifest = Some(m);
                    }
                }
                (Probe { result, stage: ProbeStage::Done }, ProbeAction::Finish)
            },
        },
    }
}


// ---------------------------------------------------------------------------
// Laws of the probe
// ---------------------------------------------------------------------------

/// The sitemap hints taken from `robots.txt` all have the origin of the root
/// it was fetched from.
pub proof fn law_robots_hints_same_origin(root: Seq<char>, text: Seq<char>)
    ensures
        forall|i: int|
            0 <= i < robots_hints_spec(root, text).len() ==> same_origin_text(
                root,
                #[trigger] robots_hints_spec(root, text)[i],
            ),
{
    lemma_hints_same_origin(lines(text), root);
}

proof fn lemma_hints_same_origin(ls: Seq<Seq<char>>, root: Seq<char>)
    ensures
        forall|i: int|
            0 <= i < hints_of(ls, root).len() ==> same_origin_text(root, #[trigger] hints_of(ls, root)[i]),
    decreases ls.len(),
{
    if ls.len() > 0 {
        lemma_hints_same_origin(ls.drop_last(), root);
        let prev = hints_of(ls.drop_last(), root);
        match sitemap_hint(ls.last(), root) {
            Some(u) => {
                assert forall|i: int| 0 <= i < prev.push(u).len() implies same_origin_text(
                    root,
                    #[trigger] prev.push(u)[i],
                ) by {
                    if i < prev.len() {
                        assert(prev.push(u)[i] == prev[i]);
                    }
                }
            },
            None => {},
        }
    }
}

/// The well-formedness a probe keeps: a result without error has no status
/// while the page is awaited, and a status in 200..300 afterwards; a result
/// with an error is over; the sitemap list holds no URL twice.
pub open spec fn probe_wf(p: ProbeState) -> bool {
    &&& p.result.sitemap_urls.no_duplicates()
    &&& p.result.error is Some ==> p.stage is Done
    &&& p.result.error is None ==> match p.stage {
        ProbeStageView::Page { .. } => p.result.status_code is None,
        _ => p.result.status_code matches Some(s) && 200 <= s < 300,
    }
}

/// A probe starts well-formed and stays so at every step: in particular a
/// finished probe without error saw the page answer with a status in
/// 200..300, and its sitemap list never holds a URL twice.
pub proof fn law_probe_wf(url: Seq<char>, p: ProbeState, ev: OutcomeView)
    ensures
        probe_wf(start_spec(url).0),
        probe_wf(p) ==> probe_wf(step_spec(p, ev).0),
{
    assert(blank_probe(url).sitemap_urls.no_duplicates());
    if probe_wf(p) {
        match p.stage {
            ProbeStageView::Done => {},
            ProbeStageView::Page { base } => match ev {
                OutcomeView::Failed(e) => {},
                OutcomeView::Response { status, final_url, body } => {
                    if 200 <= status < 300 {
                        let v1 = ProbeView { status_code: Some(status), final_url: Some(final_url), ..p.result };
                        let v2 = enrich_spec(v1, base.href, utf8_lossy_text(body));
                        assert(v2.sitemap_urls == p.result.sitemap_urls);
                        lemma_after_hints_wf(v2, base);
                        lemma_after_hints_wf(ProbeView { robots_sitemap_hints: seq![], ..v2 }, base);
                    }
                },
            },
            ProbeStageView::Robots { base, root } => match ev {
                OutcomeView::Failed(_) => lemma_after_hints_wf(p.result, base),
                OutcomeView::Response { status, body, .. } => {
                    lemma_after_hints_wf(ProbeView { robots_sitemap_hints: seq![], ..p.result }, base);
                    lemma_after_hints_wf(
                        ProbeView {
                            robots_sitemap_hints: robots_hints_spec(root, utf8_lossy_text(body)),
                            ..p.result
                        },
                        base,
                    );
                },
            },
            ProbeStageView::Manifest => {},
        }
    }
}

proof fn lemma_after_hints_wf(v: ProbeView, base: WebUrlView)
    requires
        v.sitemap_urls.no_duplicates(),
        v.error is None,
        v.status_code matches Some(s) && 200 <= s < 300,
    ensures
        probe_wf(after_hints(v, base).0),
{
    crate::pin::lemma_merged_unique(v.sitemap_urls, guessed_sitemaps(base.href, v.robots_sitemap_hints));
}

/// The manifest is only ever fetched from the page's own origin.
pub proof fn law_manifest_same_origin(p: ProbeState, ev: OutcomeView)
    ensures
        match step_spec(p, ev) {
            (q, ProbeActionView::Fetch(m)) => q.stage is Manifest ==> match p.stage {
                ProbeStageView::Page { base } => same_origin_spec(base, m),
                ProbeStageView::Robots { base, .. } => same_origin_spec(base, m),
                _ => false,
            },
            _ => true,
        },
{
}

/// The state of a probe of `url` after its runner has handed back the
/// outcomes `evs`, one per step, in order.
pub open spec fn probe_run(url: Seq<char>, evs: Seq<OutcomeView>) -> ProbeState
    decreases evs.len(),
{
    if evs.len() == 0 {
        start_spec(url).0
    } else {
        step_spec(probe_run(url, evs.drop_last()), evs.last()).0
    }
}

/// What the page fetch's outcome makes of the error: the failure's message,
/// `HTTP <status>` for a status outside 200..300, or none.
pub open spec fn page_error(ev: OutcomeView) -> Option<Seq<char>> {
    match ev {
        OutcomeView::Failed(e) => Some(e),
        OutcomeView::Response { status, .. } => if 200 <= status < 300 {
            None
        } else {
            Some("HTTP "@ + decimal(status as nat))
        },
    }
}

/// The result of a probe whose page was answered by `ev` and not read.
pub open spec fn page_refused(url: Seq<char>, ev: OutcomeView) -> ProbeView {
    match ev {
        OutcomeView::Failed(e) => ProbeView { error: Some(e), ..blank_probe(url) },
        OutcomeView::Response { status, final_url, .. } => ProbeView {
            status_code: Some(status),
            final_url: Some(final_url),
            error: page_error(ev),
            ..blank_probe(url)
        },
    }
}

/// After the page was answered: the stage is past the page, and the
/// address, status, final URL and error are those the page's answer gave.
pub open spec fn past_page(p: ProbeState, url: Seq<char>, ev: OutcomeView) -> bool {
    &&& p.stage !is Page
    &&& p.result.url == url
    &&& p.result.status_code == match ev {
        OutcomeView::Response { status, .. } => Some(status),
        OutcomeView::Failed(_) => None,
    }
    &&& p.result.final_url == match ev {
        OutcomeView::Response { final_url, .. } => Some(final_url),
        OutcomeView::Failed(_) => None,
    }
    &&& p.result.error == page_error(ev)
    &&& page_error(ev) is Some ==> p.result == page_refused(url, ev) && p.stage is Done
}

proof fn lemma_after_hints_keeps(v: ProbeView, base: WebUrlView)
    ensures
        after_hints(v, base).0.stage !is Page,
        after_hints(v, base).0.result == (ProbeView { sitemap_urls: after_hints(v, base).0.result.sitemap_urls, ..v }),
{
}

proof fn lemma_step_past_page(p: ProbeState, url: Seq<char>, ev0: OutcomeView, ev: OutcomeView)
    requires
        past_page(p, url, ev0),
    ensures
        past_page(step_spec(p, ev).0, url, ev0),
{
    match p.stage {
        ProbeStageView::Robots { base, root } => {
            lemma_after_hints_keeps(p.result, base);
            lemma_after_hints_keeps(ProbeView { robots_sitemap_hints: seq![], ..p.result }, base);
            match ev {
                OutcomeView::Response { status, body, .. } => {
                    lemma_after_hints_keeps(
                        ProbeView {
                            robots_sitemap_hints: robots_hints_spec(root, utf8_lossy_text(body)),
                            ..p.result
                        },
                        base,
                    );
                },
                _ => {},
            }
        },
        _ => {},
    }
}

proof fn lemma_first_step_past_page(url: Seq<char>, ev: OutcomeView)
    requires
        url_parsed(url) is Some,
    ensures
        past_page(step_spec(start_spec(url).0, ev).0, url, ev),
{
    let base = url_parsed(url)->0;
    match ev {
        OutcomeView::Response { status, final_url, body } => {
            if 200 <= status < 300 {
                let v1 = ProbeView { status_code: Some(status), final_url: Some(final_url), ..blank_probe(url) };
                let v2 = enrich_spec(v1, base.href, utf8_lossy_text(body));
                lemma_after_hints_keeps(v2, base);
                lemma_after_hints_keeps(ProbeView { robots_sitemap_hints: seq![], ..v2 }, base);
            }
        },
        _ => {},
    }
}

proof fn lemma_run_past_page(url: Seq<char>, evs: Seq<OutcomeView>)
    requires
        url_parsed(url) is Some,
        evs.len() >= 1,
    ensures
        past_page(probe_run(url, evs), url, evs[0]),
    decreases evs.len(),
{
    if evs.len() == 1 {
        assert(evs.drop_last() =~= Seq::<OutcomeView>::empty());
        lemma_first_step_past_page(url, evs[0]);
    } else {
        lemma_run_past_page(url, evs.drop_last());
        lemma_step_past_page(probe_run(url, evs.drop_last()), url, evs[0], evs.last());
    }
}

proof fn lemma_run_invalid(url: Seq<char>, evs: Seq<OutcomeView>)
    requires
        url_parsed(url) is None,
    ensures
        probe_run(url, evs) == start_spec(url).0,
    decreases evs.len(),
{
    if evs.len() > 0 {
        lemma_run_invalid(url, evs.drop_last());
    }
}

/// The whole run of a probe, whatever the later fetches answer: a URL that
/// does not parse ends it at once with the error `invalid URL`. Otherwise,
/// once the page has answered, the result keeps the probed URL, the page's
/// status and final URL, and its error is none exactly when the page
/// answered with a status in 200..300; a failed fetch ends it with the
/// failure's message, and a status outside 200..300 with `HTTP <status>`,
/// with nothing else learnt (no title, icon, manifest, feed, search
/// description or sitemap).
pub proof fn law_probe_run(url: Seq<char>, evs: Seq<OutcomeView>)
    ensures
        url_parsed(url) is None ==> probe_run(url, evs).stage is Done && probe_run(url, evs).result
            == (ProbeView { error: Some("invalid URL"@), ..blank_probe(url) }),
        url_parsed(url) is Some && evs.len() >= 1 ==> {
            let r = probe_run(url, evs).result;
            &&& r.url == url
            &&& r.status_code == match evs[0] {
                OutcomeView::Response { status, .. } => Some(status),
                OutcomeView::Failed(_) => None,
            }
            &&& r.final_url == match evs[0] {
                OutcomeView::Response { final_url, .. } => Some(final_url),
                OutcomeView::Failed(_) => None,
            }
            &&& (r.error is None <==> (evs[0] matches OutcomeView::Response { status, .. } && 200 <= status < 300))
            &&& page_error(evs[0]) is Some ==> r == page_refused(url, evs[0])
        },
{
    if url_parsed(url) is None {
        lemma_run_invalid(url, evs);
    } else if evs.len() >= 1 {
        lemma_run_past_page(url, evs);
    }
}

/// The sitemap list of a probe of the page at `base`: empty until the
/// `robots.txt` hints are known, then the guesses at the origin's root and
/// the hints, merged into the empty list.
pub open spec fn sitemaps_as_guessed(v: ProbeView, base: WebUrlView) -> bool {
    v.sitemap_urls.len() == 0 || v.sitemap_urls == merged(
        seq![],
        guessed_sitemaps(base.href, v.robots_sitemap_hints),
    )
}

/// What holds of a probe of the page at `base` at every step: the stage
/// waits on that page, and the sitemap list is empty while the page or its
/// `robots.txt` is awaited and as guessed afterwards.
pub open spec fn probe_sitemaps_inv(p: ProbeState, base: WebUrlView) -> bool {
    &&& match p.stage {
        ProbeStageView::Page { base: b } => b == base && p.result.sitemap_urls.len() == 0,
        ProbeStageView::Robots { base: b, .. } => b == base && p.result.sitemap_urls.len() == 0,
        _ => true,
    }
    &&& sitemaps_as_guessed(p.result, base)
}

proof fn lemma_after_hints_guessed(v: ProbeView, base: WebUrlView)
    requires
        v.sitemap_urls.len() == 0,
    ensures
        probe_sitemaps_inv(after_hints(v, base).0, base),
{
    assert(v.sitemap_urls =~= Seq::<Seq<char>>::empty());
}

proof fn lemma_step_sitemaps(p: ProbeState, base: WebUrlView, ev: OutcomeView)
    requires
        probe_sitemaps_inv(p, base),
    ensures
        probe_sitemaps_inv(step_spec(p, ev).0, base),
{
    match p.stage {
        ProbeStageView::Page { base: b } => match ev {
            OutcomeView::Response { status, final_url, body } => {
                if 200 <= status < 300 {
                    let v1 = ProbeView { status_code: Some(status), final_url: Some(final_url), ..p.result };
                    let v2 = enrich_spec(v1, base.href, utf8_lossy_text(body));
                    lemma_after_hints_guessed(v2, base);
                    lemma_after_hints_guessed(ProbeView { robots_sitemap_hints: seq![], ..v2 }, base);
                }
            },
            _ => {},
        },
        ProbeStageView::Robots { base: b, root } => {
            lemma_after_hints_guessed(p.result, base);
            lemma_after_hints_guessed(ProbeView { robots_sitemap_hints: seq![], ..p.result }, base);
            match ev {
                OutcomeView::Response { status, body, .. } => {
                    lemma_after_hints_guessed(
                        ProbeView {
                            robots_sitemap_hints: robots_hints_spec(root, utf8_lossy_text(body)),
                            ..p.result
                        },
                        base,
                    );
                },
                _ => {},
            }
        },
        _ => {},
    }
}

proof fn lemma_run_sitemaps(url: Seq<char>, base: WebUrlView, evs: Seq<OutcomeView>)
    requires
        url_parsed(url) == Some(base),
    ensures
        probe_sitemaps_inv(probe_run(url, evs), base),
    decreases evs.len(),
{
    if evs.len() > 0 {
        lemma_run_sitemaps(url, base, evs.drop_last());
        lemma_step_sitemaps(probe_run(url, evs.drop_last()), base, evs.last());
    }
}

proof fn lemma_merged_into_empty(g: Seq<Seq<char>>)
    requires
        g.no_duplicates(),
    ensures
        merged(seq![], g) == g,
    decreases g.len(),
{
    if g.len() > 0 {
        let init = g.drop_last();
        assert(init.no_duplicates()) by {
            assert forall|i: int, j: int| 0 <= i < j < init.len() implies init[i] != init[j] by {
                assert(init[i] == g[i] && init[j] == g[j]);
            }
        }
        lemma_merged_into_empty(init);
        assert(!init.contains(g.last())) by {
            if init.contains(g.last()) {
                let k = choose|k: int| 0 <= k < init.len() && init[k] == g.last();
                assert(g[k] == g[g.len() - 1]);
            }
        }
        assert(init.push(g.last()) =~= g);
    }
}

/// The sitemap guesses over a whole probe run of a page whose URL parses
/// to `base`, whatever the fetches answer: the sitemap list is empty until
/// the `robots.txt` hints are known (or when the probe stops early), and
/// from then on it is exactly the guessed list: when the two guesses at
/// the origin's root are different URLs, they come first, in order, then
/// every hint, each URL once.
pub proof fn law_probe_sitemaps(url: Seq<char>, evs: Seq<OutcomeView>)
    ensures
        url_parsed(url) matches Some(base) ==> {
            let r = probe_run(url, evs).result;
            &&& sitemaps_as_guessed(r, base)
            &&& crate::pin::sitemap_roots(base.href).no_duplicates() && r.sitemap_urls.len() > 0 ==> {
                &&& r.sitemap_urls == guessed_sitemaps(base.href, r.robots_sitemap_hints)
                &&& r.sitemap_urls.take(crate::pin::sitemap_roots(base.href).len() as int)
                    == crate::pin::sitemap_roots(base.href)
                &&& r.sitemap_urls.no_duplicates()
                &&& forall|x: Seq<char>| r.robots_sitemap_hints.contains(x) ==> r.sitemap_urls.contains(x)
            }
        },
{
    if let Some(base) = url_parsed(url) {
        lemma_run_sitemaps(url, base, evs);
        let r = probe_run(url, evs).result;
        crate::pin::law_guessed_sitemaps(base.href, r.robots_sitemap_hints);
        if crate::pin::sitemap_roots(base.href).no_duplicates() && r.sitemap_urls.len() > 0 {
            lemma_merged_into_empty(guessed_sitemaps(base.href, r.robots_sitemap_hints));
        }
    }
}

} // verus!
