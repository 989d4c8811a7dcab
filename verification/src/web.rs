//! The web-object service: listing pinned sites and feeds, resolving
//! addresses, searching and building the configuration of a newly pinned site.
use vstd::prelude::*;

use crate::index::{federated, federated_hits, hit_views};
use crate::ipc::{
    clone_opt_manifest, opt_view, str_views, AppEntry, FederatedHit, FeedLink, FeedSubscriptionToml,
    FeedSummary, PinSiteSpec, PinnedSiteConfig, ProbeResult, ResolvedAddress, SearchBindingToml,
    SearchProviderDef, SiteSummary, SitemapConfigToml,
};
use crate::pin::{contains_string, site_id_for_url, site_id_spec};
use crate::search::{applied_template, apply_template};
use crate::sort::{arranged, stable_order, stable_sort_by_keys};
use crate::store::{as_map, distinct_ids, SiteStore};
use crate::weburl::{join_url, last_path_segment, last_segment, parse_url, WebUrlView, same_origin, same_origin_spec, url_joined, url_parsed, WebUrl};
use crate::text::{
    ascii_lower_seq, ascii_lowercase, chars_of, decimal, decimal_chars, eq_ignore_ascii_case,
    eq_ignore_case_chars, lex_le,
    join_spaced, join_spaced_from, starts_with, starts_with_chars, string_of, to_lowercase_chars,
    str_eq, trim, trim_char_start, trim_chars, trim_start_char, unicode_lowercase, views, words,
    words_of,
};

verus! {

/// The text of a [`SiteSummary`].
pub struct SiteSummaryView {
    pub id: Seq<char>,
    pub url: Seq<char>,
    pub title: Seq<char>,
}

/// The summary of a configuration.
pub open spec fn summary_of(c: PinnedSiteConfig) -> SiteSummaryView {
    SiteSummaryView { id: c.id@, url: c.url@, title: c.title@ }
}

/// The summaries of configurations.
pub open spec fn summaries_of(s: Seq<PinnedSiteConfig>) -> Seq<SiteSummaryView> {
    Seq::new(s.len(), |i: int| summary_of(s[i]))
}

/// The views of a list of summaries.
pub open spec fn summary_views(s: Seq<SiteSummary>) -> Seq<SiteSummaryView> {
    Seq::new(s.len(), |i: int| SiteSummaryView { id: s[i].id@, url: s[i].url@, title: s[i].title@ })
}

/// The sort keys of summaries: their titles in Unicode lower case.
pub open spec fn title_keys(s: Seq<SiteSummaryView>) -> Seq<Seq<char>> {
    Seq::new(s.len(), |i: int| unicode_lowercase(s[i].title))
}

/// The pinned sites as summaries, ordered stably by their lower-cased titles
/// (from the store's enumeration order).
pub fn list_pinned_summaries(store: &SiteStore) -> (r: Vec<SiteSummary>)
    ensures
        exists|p: Seq<int>|
            stable_order(title_keys(summaries_of(store.entries())), p) && arranged(
                summary_views(r@),
                summaries_of(store.entries()),
                p,
            ),
{
    let cfgs = store.configs();
    let mut out: Vec<SiteSummary> = Vec::new();
    let mut keys: Vec<Vec<char>> = Vec::new();
    for i in 0..cfgs.len()
        invariant
            cfgs@ == store.entries(),
            summary_views(out@) == summaries_of(cfgs@.take(i as int)),
            views(keys@) == title_keys(summaries_of(cfgs@.take(i as int))),
    {
        let c = &cfgs[i];
        let s = SiteSummary { id: c.id.clone(), url: c.url.clone(), title: c.title.clone() };
        let k = to_lowercase_chars(c.title.as_str());
        let ghost before = out@;
        let ghost kbefore = keys@;
        out.push(s);
        keys.push(k);
        proof {
            let t1 = cfgs@.take(i + 1);
            assert(t1 =~= cfgs@.take(i as int).push(cfgs@[i as int]));
            assert(summaries_of(t1) =~= summaries_of(cfgs@.take(i as int)).push(summary_of(cfgs@[i as int])));
            assert(summary_views(out@) =~= summary_views(before).push(summary_of(cfgs@[i as int])));
            assert(views(keys@) =~= views(kbefore).push(k@));
            assert(title_keys(summaries_of(t1)) =~= title_keys(summaries_of(cfgs@.take(i as int))).push(
                unicode_lowercase(cfgs@[i as int].title@),
            ));
        }
    }
    assert(cfgs@.take(cfgs@.len() as int) =~= cfgs@);
    let r = stable_sort_by_keys(out, keys);
    proof {
        let p = choose|p: Seq<int>|
            stable_order(views(keys@), p) && arranged(r@, out@, p);
        assert(arranged(summary_views(r@), summaries_of(store.entries()), p));
    }
    r
}

/// The text of a [`FeedSummary`].
pub struct FeedSummaryView {
    pub id: Seq<char>,
    pub url: Seq<char>,
    pub title: Seq<char>,
}

/// The feeds of the sites, site by site: each with its id, URL, and the
/// site's title and the feed's joined by ` — `.
pub open spec fn feeds_of(s: Seq<PinnedSiteConfig>) -> Seq<FeedSummaryView>
    decreases s.len(),
{
    if s.len() == 0 {
        seq![]
    } else {
        let site = s.last();
        feeds_of(s.drop_last()) + Seq::new(
            site.feeds@.len(),
            |j: int|
                FeedSummaryView {
                    id: site.feeds@[j].id@,
                    url: site.feeds@[j].url@,
                    title: site.title@ + " — "@ + site.feeds@[j].title@,
                },
        )
    }
}

/// The views of a list of feed summaries.
pub open spec fn feed_summary_views(s: Seq<FeedSummary>) -> Seq<FeedSummaryView> {
    Seq::new(s.len(), |i: int| FeedSummaryView { id: s[i].id@, url: s[i].url@, title: s[i].title@ })
}

/// The feeds of all pinned sites.
pub fn list_feed_summaries(store: &SiteStore) -> (r: Vec<FeedSummary>)
    ensures
        feed_summary_views(r@) == feeds_of(store.entries()),
{
    let cfgs = store.configs();
    let mut out: Vec<FeedSummary> = Vec::new();
    for i in 0..cfgs.len()
        invariant
            cfgs@ == store.entries(),
            feed_summary_views(out@) == feeds_of(cfgs@.take(i as int)),
    {
        let site = &cfgs[i];
        let ghost start = feed_summary_views(out@);
        assert(cfgs@.take(i + 1).drop_last() =~= cfgs@.take(i as int));
        for j in 0..site.feeds.len()
            invariant
                feed_summary_views(out@) == start + Seq::new(
                    j as nat,
                    |t: int|
                        FeedSummaryView {
                            id: site.feeds@[t].id@,
                            url: site.feeds@[t].url@,
                            title: site.title@ + " — "@ + site.feeds@[t].title@,
                        },
                ),
        {
            let f = &site.feeds[j];
            let mut title = String::from_str(site.title.as_str());
            title.append(" — ");
            title.append(f.title.as_str());
            let ghost before = out@;
            out.push(FeedSummary { id: f.id.clone(), url: f.url.clone(), title });
            assert(feed_summary_views(out@) =~= feed_summary_views(before).push(
                FeedSummaryView {
                    id: site.feeds@[j as int].id@,
                    url: site.feeds@[j as int].url@,
                    title: site.title@ + " — "@ + site.feeds@[j as int].title@,
                },
            ));
            assert(feed_summary_views(out@) =~= start + Seq::new(
                (j + 1) as nat,
                |t: int|
                    FeedSummaryView {
                        id: site.feeds@[t].id@,
                        url: site.feeds@[t].url@,
                        title: site.title@ + " — "@ + site.feeds@[t].title@,
                    },
            ));
        }
    }
    assert(cfgs@.take(cfgs@.len() as int) =~= cfgs@);
    out
}

/// The URL of the feed `feed_id`: that of the first feed with this id, site
/// by site in the store's enumeration order.
pub open spec fn feed_url_spec(s: Seq<PinnedSiteConfig>, feed_id: Seq<char>) -> Option<Seq<char>>
    decreases s.len(),
{
    if s.len() == 0 {
        None
    } else {
        match feed_url_spec(s.drop_first(), feed_id) {
            r => match first_feed(s[0].feeds@, feed_id, 0) {
                Some(u) => Some(u),
                None => r,
            },
        }
    }
}

/// The URL of the first feed at or after `j` with id `feed_id`.
pub open spec fn first_feed(
    fs: Seq<crate::ipc::FeedSubscriptionToml>,
    feed_id: Seq<char>,
    j: int,
) -> Option<Seq<char>>
    decreases fs.len() - j,
{
    if j >= fs.len() {
        None
    } else if fs[j].id@ == feed_id {
        Some(fs[j].url@)
    } else {
        first_feed(fs, feed_id, j + 1)
    }
}

/// Finds the URL of the feed `feed_id`; none for an unknown feed.
pub fn feed_url(store: &SiteStore, feed_id: &str) -> (r: Option<String>)
    ensures
        crate::ipc::opt_view(r) == feed_url_spec(store.entries(), feed_id@),
{
    let cfgs = store.configs();
    let mut i: usize = 0;
    assert(cfgs@.skip(0) =~= cfgs@);
    while i < cfgs.len()
        invariant
            cfgs@ == store.entries(),
            i <= cfgs@.len(),
            feed_url_spec(cfgs@, feed_id@) == feed_url_spec(cfgs@.skip(i as int), feed_id@),
        decreases cfgs@.len() - i,
    {
        let site = &cfgs[i];
        let mut j: usize = 0;
        while j < site.feeds.len()
            invariant
                cfgs@ == store.entries(),
                i < cfgs@.len(),
                *site == cfgs@[i as int],
                feed_url_spec(cfgs@, feed_id@) == feed_url_spec(cfgs@.skip(i as int), feed_id@),
                j <= site.feeds@.len(),
                first_feed(site.feeds@, feed_id@, 0) == first_feed(site.feeds@, feed_id@, j as int),
            decreases site.feeds@.len() - j,
        {
            if crate::text::str_eq(site.feeds[j].id.as_str(), feed_id) {
                assert(cfgs@.skip(i as int)[0] == cfgs@[i as int]);
                assert(first_feed(site.feeds@, feed_id@, j as int) == Some(site.feeds@[j as int].url@));
                return Some(site.feeds[j].url.clone());
            }
            j += 1;
        }
        assert(cfgs@.skip(i as int)[0] == cfgs@[i as int]);
        assert(cfgs@.skip(i as int).drop_first() =~= cfgs@.skip(i + 1));
        i += 1;
    }
    None
}

/// Searches applications, pinned sites and keyword providers for `query`.
pub fn search(
    query: &str,
    store: &SiteStore,
    apps: &Vec<AppEntry>,
    providers: &Vec<SearchProviderDef>,
) -> (r: Vec<FederatedHit>)
    ensures
        exists|sites: Seq<SiteSummary>|
            (exists|p: Seq<int>|
                stable_order(title_keys(summaries_of(store.entries())), p) && arranged(
                    summary_views(sites),
                    summaries_of(store.entries()),
                    p,
                )) && hit_views(r@) == federated(
                sites,
                apps@,
                query@,
                ascii_lower_seq(query@),
                providers@,
            ),
{
    let q = chars_of(query);
    let q_lower = string_of(&ascii_lowercase(&q));
    let sites = list_pinned_summaries(store);
    federated_hits(&sites, apps, query, q_lower.as_str(), providers)
}

/// The text of a [`ResolvedAddress`].
pub struct ResolvedView {
    pub scheme: Seq<char>,
    pub target: Seq<char>,
    pub query: Option<Seq<char>>,
}

/// Index of the first provider at or after `i` whose keyword is `kw` up to
/// ASCII case and whose template takes `rest`, or `ps.len()`.
pub open spec fn usable_provider(ps: Seq<SearchProviderDef>, kw: Seq<char>, rest: Seq<char>, i: int) -> int
    decreases ps.len() - i,
{
    if i >= ps.len() {
        ps.len() as int
    } else if eq_ignore_ascii_case(ps[i].keyword@, kw) && applied_template(ps[i].template@, rest)
        is Some {
        i
    } else {
        usable_provider(ps, kw, rest, i + 1)
    }
}

/// What an address bar entry resolves to, after trimming white space:
/// `http://` and `https://` addresses to an `https` target; `feed://`
/// addresses to a `feed` with an `https` target; two or more words whose
/// first is a provider keyword (ASCII case ignored) to that provider's
/// search URL for the other words, the first usable provider in order; else
/// the trimmed text as `unknown`.
pub open spec fn resolved(input: Seq<char>, ps: Seq<SearchProviderDef>) -> ResolvedView {
    let t = trim(input);
    if starts_with(t, "http://"@) {
        ResolvedView { scheme: "https"@, target: "https://"@ + t.skip(7), query: None }
    } else if starts_with(t, "https://"@) {
        ResolvedView { scheme: "https"@, target: "https://"@ + t.skip(8), query: None }
    } else if starts_with(t, "feed://"@) {
        ResolvedView { scheme: "feed"@, target: "https://"@ + t.skip(7), query: None }
    } else {
        let parts = words(t, false);
        let fallback = ResolvedView { scheme: "unknown"@, target: t, query: None };
        if parts.len() >= 2 {
            let kw = parts[0];
            let rest = join_spaced(parts.skip(1));
            let i = usable_provider(ps, kw, rest, 0);
            if i < ps.len() {
                ResolvedView {
                    scheme: "search"@,
                    target: applied_template(ps[i].template@, rest).unwrap(),
                    query: Some(rest),
                }
            } else {
                fallback
            }
        } else {
            fallback
        }
    }
}

/// Web addresses resolve to themselves over https: an address whose trimmed
/// text starts with `https://` resolves to that text, unchanged; one that
/// starts with `http://` resolves to the same text with `http` turned into
/// `https` (an `s` inserted after its fourth character). Either way it is
/// an `https` address with no query.
pub proof fn law_web_addresses_resolve_to_https(input: Seq<char>, ps: Seq<SearchProviderDef>)
    ensures
        starts_with(trim(input), "https://"@) ==> resolved(input, ps) == (ResolvedView {
            scheme: "https"@,
            target: trim(input),
            query: None,
        }),
        starts_with(trim(input), "http://"@) ==> {
            let t = trim(input);
            let r = resolved(input, ps);
            &&& r.scheme == "https"@
            &&& r.query is None
            &&& r.target.len() == t.len() + 1
            &&& r.target.take(4) == t.take(4)
            &&& r.target[4] == 's'
            &&& r.target.skip(5) == t.skip(4)
            &&& starts_with(r.target, "https://"@)
        },
{
    let t = trim(input);
    reveal_strlit("https://");
    reveal_strlit("http://");
    if starts_with(t, "https://"@) {
        assert(!starts_with(t, "http://"@)) by {
            assert(t.take(8)[4] == "https://"@[4]);
            assert(t[4] == 's');
            assert(t.take(7)[4] == t[4]);
            assert("http://"@[4] == ':');
        }
        assert("https://"@ + t.skip(8) =~= t) by {
            assert(t.take(8) == "https://"@);
        }
    }
    if starts_with(t, "http://"@) {
        let r = resolved(input, ps);
        assert(t.take(7) == "http://"@);
        assert(r.target =~= "https://"@ + t.skip(7));
        assert(r.target.take(4) =~= t.take(4));
        assert forall|k: int| 0 <= k < t.len() - 4 implies r.target.skip(5)[k] == t.skip(4)[k] by {
            if k < 3 {
                assert(t.take(7)[4 + k] == "http://"@[4 + k]);
                assert(r.target[5 + k] == "https://"@[5 + k]);
            } else {
                assert(r.target[5 + k] == t.skip(7)[k - 3]);
            }
        }
        assert(r.target.skip(5) =~= t.skip(4));
        assert(r.target.take(8) =~= "https://"@);
    }
}

/// A `feed://` address resolves to a feed at the same place over https:
/// `https://` followed by what follows `feed://`, with no query. An entry
/// that is not an address and is a single word (or nothing) is unknown and
/// kept as typed, trimmed.
pub proof fn law_feed_and_single_word_entries(input: Seq<char>, ps: Seq<SearchProviderDef>)
    ensures
        starts_with(trim(input), "feed://"@) ==> {
            let t = trim(input);
            let r = resolved(input, ps);
            &&& r.scheme == "feed"@
            &&& r.query is None
            &&& r.target.take(8) == "https://"@
            &&& r.target.skip(8) == t.skip(7)
        },
        !starts_with(trim(input), "http://"@) && !starts_with(trim(input), "https://"@)
            && !starts_with(trim(input), "feed://"@) && words(trim(input), false).len() < 2 ==> resolved(
            input,
            ps,
        ) == (ResolvedView { scheme: "unknown"@, target: trim(input), query: None }),
{
    let t = trim(input);
    reveal_strlit("https://");
    reveal_strlit("http://");
    reveal_strlit("feed://");
    if starts_with(t, "feed://"@) {
        assert(!starts_with(t, "http://"@)) by {
            assert(t.take(7)[0] == "feed://"@[0]);
            assert(t.take(7)[0] == t[0]);
            assert(t.take(4)[0] == t[0]);
        }
        if starts_with(t, "https://"@) {
            assert(t.take(7)[0] == t[0]);
            assert(t.take(8)[0] == t[0]);
            assert(t.take(7)[0] == "feed://"@[0]);
            assert(t.take(8)[0] == "https://"@[0]);
            assert(false);
        }
        let r = resolved(input, ps);
        assert(r.target =~= "https://"@ + t.skip(7));
        assert(r.target.take(8) =~= "https://"@);
        assert(r.target.skip(8) =~= t.skip(7));
    }
}

/// Whether provider `j` can serve the keyword `kw`: its keyword is `kw` up
/// to ASCII case and its template has a `{query}` placeholder.
pub open spec fn serves_keyword(ps: Seq<SearchProviderDef>, kw: Seq<char>, j: int) -> bool {
    eq_ignore_ascii_case(ps[j].keyword@, kw) && crate::text::contains(ps[j].template@, "{query}"@)
}

proof fn lemma_usable_provider(
    ps: Seq<SearchProviderDef>,
    kw: Seq<char>,
    rest: Seq<char>,
    i: int,
    m: int,
)
    requires
        0 <= i <= m <= ps.len(),
        forall|j: int|
            i <= j < m ==> !(eq_ignore_ascii_case(#[trigger] ps[j].keyword@, kw) && applied_template(
                ps[j].template@,
                rest,
            ) is Some),
        m == ps.len() || (eq_ignore_ascii_case(ps[m].keyword@, kw) && applied_template(
            ps[m].template@,
            rest,
        ) is Some),
    ensures
        usable_provider(ps, kw, rest, i) == m,
    decreases m - i,
{
    if i < m {
        lemma_usable_provider(ps, kw, rest, i + 1, m);
    }
}

fn prefixed(prefix: &str, rest: &Vec<char>) -> (r: String)
    ensures
        r@ == prefix@ + rest@,
{
    let mut s = String::from_str(prefix);
    let tail = string_of(rest);
    s.append(tail.as_str());
    s
}

/// Resolves an address bar entry, with the keyword providers in their listed order.
pub fn resolve_address(input: &str, providers: &Vec<SearchProviderDef>) -> (r: ResolvedAddress)
    ensures
        (ResolvedView {
            scheme: r.scheme@,
            target: r.target@,
            query: crate::ipc::opt_view(r.query),
        }) == resolved(input@, providers@),
{
    proof {
        reveal_strlit("http://");
        reveal_strlit("https://");
        reveal_strlit("feed://");
    }
    let raw = chars_of(input);
    let t = trim_chars(&raw);
    let http = chars_of("http://");
    let https = chars_of("https://");
    let feed = chars_of("feed://");
    if starts_with_chars(&t, &http) {
        let rest = crate::text::slice_vec(&t, 7, t.len());
        assert(rest@ =~= t@.skip(7));
        return ResolvedAddress {
            scheme: String::from_str("https"),
            target: prefixed("https://", &rest),
            query: None,
        };
    }
    if starts_with_chars(&t, &https) {
        let rest = crate::text::slice_vec(&t, 8, t.len());
        assert(rest@ =~= t@.skip(8));
        return ResolvedAddress {
            scheme: String::from_str("https"),
            target: prefixed("https://", &rest),
            query: None,
        };
    }
    if starts_with_chars(&t, &feed) {
        let rest = crate::text::slice_vec(&t, 7, t.len());
        assert(rest@ =~= t@.skip(7));
        return ResolvedAddress {
            scheme: String::from_str("feed"),
            target: prefixed("https://", &rest),
            query: None,
        };
    }
    let parts = words_of(&t, false);
    if parts.len() >= 2 {
        let kw = &parts[0];
        assert(views(parts@)[0] == parts@[0]@);
        let rest = join_spaced_from(&parts, 1);
        let rest_s = string_of(&rest);
        let mut i: usize = 0;
        while i < providers.len()
            invariant
                i <= providers@.len(),
                rest_s@ == rest@,
                views(parts@) == words(t@, false),
                t@ == trim(input@),
                !starts_with(t@, "http://"@),
                !starts_with(t@, "https://"@),
                !starts_with(t@, "feed://"@),
                parts@.len() >= 2,
                kw@ == views(parts@)[0],
                rest@ == join_spaced(views(parts@).skip(1)),
                forall|j: int|
                    0 <= j < i ==> !(eq_ignore_ascii_case(#[trigger] providers@[j].keyword@, kw@)
                        && applied_template(providers@[j].template@, rest@) is Some),
            decreases providers@.len() - i,
        {
            let p = &providers[i];
            if eq_ignore_case_chars(&chars_of(p.keyword.as_str()), kw) {
                match apply_template(p.template.as_str(), rest_s.as_str()) {
                    Ok(url) => {
                        proof {
                            lemma_usable_provider(providers@, kw@, rest@, 0, i as int);
                            assert(words(t@, false)[0] == kw@);
                            assert(join_spaced(words(t@, false).skip(1)) == rest@);
                            assert(usable_provider(providers@, kw@, rest@, 0) == i);
                            assert(applied_template(providers@[i as int].template@, rest@) == Some(
                                url@,
                            ));
                        }
                        return ResolvedAddress {
                            scheme: String::from_str("search"),
                            target: url,
                            query: Some(rest_s),
                        };
                    },
                    Err(_) => {},
                }
            }
            i += 1;
        }
        proof {
            lemma_usable_provider(providers@, kw@, rest@, 0, providers@.len() as int);
        }
    }
    ResolvedAddress { scheme: String::from_str("unknown"), target: string_of(&t), query: None }
}

// ---------------------------------------------------------------------------
// Pinning
// ---------------------------------------------------------------------------

/// Why a site could not be pinned.
#[derive(Debug, PartialEq, Eq)]
pub enum PinError {
    /// The probe failed before any HTTP status came back.
    ProbeFailed(String),
}

impl PinError {
    /// The message shown for the error.
    pub fn message(&self) -> (r: String)
        ensures
            match self {
                PinError::ProbeFailed(e) => r@ == "probe failed: "@ + e@,
            },
    {
        match self {
            PinError::ProbeFailed(e) => {
                let mut m = String::from_str("probe failed: ");
                m.append(e.as_str());
                m
            },
        }
    }
}

/// The title of a newly pinned site: the requested one, else the page title,
/// else the manifest's short name, else its name, else the site id.
pub open spec fn chosen_title(spec: PinSiteSpec, probe: ProbeResult, id: Seq<char>) -> Seq<char> {
    match spec.title {
        Some(t) => t@,
        None => match probe.title {
            Some(t) => t@,
            None => match probe.manifest {
                Some(m) => match m.short_name {
                    Some(n) => n@,
                    None => match m.name {
                        Some(n) => n@,
                        None => id,
                    },
                },
                None => id,
            },
        },
    }
}

/// `o` is the least of `all` in lexicographic order, or none when `all` is empty.
pub open spec fn is_least(o: Option<Seq<char>>, all: Seq<Seq<char>>) -> bool {
    match o {
        None => all.len() == 0,
        Some(x) => all.contains(x) && forall|i: int| 0 <= i < all.len() ==> lex_le(x, #[trigger] all[i]),
    }
}

/// The advertised feeds that are subscribed: those whose URL is in `subset`
/// when one is given, else all of them, in page order.
pub open spec fn chosen_feeds(links: Seq<FeedLink>, subset: Option<Vec<String>>) -> Seq<FeedLink>
    decreases links.len(),
{
    if links.len() == 0 {
        seq![]
    } else {
        let prev = chosen_feeds(links.drop_last(), subset);
        match subset {
            Some(sub) => if str_views(sub@).contains(links.last().href@) {
                prev.push(links.last())
            } else {
                prev
            },
            None => prev.push(links.last()),
        }
    }
}

/// `feeds` are the subscriptions made for `chosen`: the `i`th has the id
/// `<site id>-feed-<i>`, the feed's URL, its title or `Feed`, polls every 30
/// minutes and shows in the start menu.
pub open spec fn subscriptions_for(
    feeds: Seq<FeedSubscriptionToml>,
    chosen: Seq<FeedLink>,
    id: Seq<char>,
) -> bool {
    &&& feeds.len() == chosen.len()
    &&& forall|i: int|
        0 <= i < feeds.len() ==> {
            &&& (#[trigger] feeds[i]).id@ == id + "-feed-"@ + decimal(i as nat)
            &&& feeds[i].url@ == chosen[i].href@
            &&& feeds[i].title@ == match chosen[i].title {
                Some(t) => t@,
                None => "Feed"@,
            }
            &&& feeds[i].poll_minutes == 30
            &&& feeds[i].include_in_start_menu
        }
}

/// The configuration recorded for a site pinned as `spec`, given the probe of
/// its URL: refused when the probe failed without an HTTP status; otherwise
/// the site id of the URL, the chosen title, the probed manifest, the least
/// sitemap location (when the sitemap is wanted), the chosen feeds (when
/// feeds are wanted) and the search keyword with the first OpenSearch
/// description (when a keyword is given).
pub open spec fn pinned_config_ok(spec: PinSiteSpec, probe: ProbeResult, c: PinnedSiteConfig) -> bool {
    let id = site_id_spec(spec.url@);
    let all_sitemaps = str_views(probe.sitemap_urls@) + str_views(probe.robots_sitemap_hints@);
    &&& c.id@ == id
    &&& c.url@ == spec.url@
    &&& c.title@ == chosen_title(spec, probe, id)
    &&& c.manifest == probe.manifest
    &&& if spec.include_sitemap {
        c.sitemap matches Some(sm) && sm.max_depth == spec.sitemap_max_depth
            && sm.include_in_start_menu && sm.present == sm.source is Some && is_least(
            opt_view(sm.source),
            all_sitemaps,
        )
    } else {
        c.sitemap is None
    }
    &&& if spec.include_feeds {
        subscriptions_for(c.feeds@, chosen_feeds(probe.feed_urls@, spec.feed_urls), id)
    } else {
        c.feeds@.len() == 0
    }
    &&& match spec.register_search_keyword {
        None => c.search is None,
        Some(kw) => c.search matches Some(sb) && opt_view(sb.keyword) == Some(kw@) && opt_view(
            sb.opensearch,
        ) == if probe.opensearch_urls@.len() > 0 {
            Some(probe.opensearch_urls@[0]@)
        } else {
            None
        },
    }
}

/// A keyword entry: an entry that is not an address and has two or more
/// words is searched with the first provider that serves its first word
/// (ASCII case ignored), the query being the other words joined by single
/// spaces and the target that provider's template with every `{query}`
/// replaced by the percent-encoded query; when no provider serves that
/// word, the entry is unknown and kept as typed, trimmed.
pub proof fn law_keyword_entries(input: Seq<char>, ps: Seq<SearchProviderDef>)
    ensures
        ({
            let t = trim(input);
            let parts = words(t, false);
            let kw = parts[0];
            let rest = join_spaced(parts.skip(1));
            let r = resolved(input, ps);
            (!starts_with(t, "http://"@) && !starts_with(t, "https://"@) && !starts_with(t, "feed://"@)
                && parts.len() >= 2) ==> {
                &&& (forall|j: int| 0 <= j < ps.len() ==> !serves_keyword(ps, kw, j)) ==> r == (
                ResolvedView { scheme: "unknown"@, target: t, query: None })
                &&& forall|i: int|
                    0 <= i < ps.len() && serves_keyword(ps, kw, i) && (forall|j: int|
                        0 <= j < i ==> !serves_keyword(ps, kw, j)) ==> r == (ResolvedView {
                        scheme: "search"@,
                        target: crate::text::replace_all(
                            ps[i].template@,
                            "{query}"@,
                            crate::search::percent_encode(rest),
                        ),
                        query: Some(rest),
                    })
            }
        }),
{
    let t = trim(input);
    let parts = words(t, false);
    if parts.len() >= 2 {
        let kw = parts[0];
        let rest = join_spaced(parts.skip(1));
        if forall|j: int| 0 <= j < ps.len() ==> !serves_keyword(ps, kw, j) {
            assert forall|j: int|
                0 <= j < ps.len() implies !(eq_ignore_ascii_case(#[trigger] ps[j].keyword@, kw)
                && applied_template(ps[j].template@, rest) is Some) by {
                assert(!serves_keyword(ps, kw, j));
            }
            lemma_usable_provider(ps, kw, rest, 0, ps.len() as int);
        }
        assert forall|i: int|
            0 <= i < ps.len() && serves_keyword(ps, kw, i) && (forall|j: int|
                0 <= j < i ==> !serves_keyword(ps, kw, j)) implies resolved(input, ps) == (ResolvedView {
            scheme: "search"@,
            target: crate::text::replace_all(
                ps[i].template@,
                "{query}"@,
                crate::search::percent_encode(rest),
            ),
            query: Some(rest),
        }) || starts_with(t, "http://"@) || starts_with(t, "https://"@) || starts_with(t, "feed://"@) by {
            assert forall|j: int|
                0 <= j < i implies !(eq_ignore_ascii_case(#[trigger] ps[j].keyword@, kw) && applied_template(
                ps[j].template@,
                rest,
            ) is Some) by {
                assert(!serves_keyword(ps, kw, j));
            }
            lemma_usable_provider(ps, kw, rest, 0, i);
        }
    }
}

/// The feeds subscribed when pinning: every advertised feed, in page order,
/// when no subset is given; otherwise exactly those whose URL is in the
/// subset, in page order.
pub proof fn law_chosen_feeds(links: Seq<FeedLink>, subset: Option<Vec<String>>)
    ensures
        subset is None ==> chosen_feeds(links, subset) == links,
        subset is Some ==> chosen_feeds(links, subset) == links.filter(
            |l: FeedLink| str_views(subset.unwrap()@).contains(l.href@),
        ),
    decreases links.len(),
{
    reveal(Seq::filter);
    if links.len() > 0 {
        law_chosen_feeds(links.drop_last(), subset);
        if subset is None {
            assert(links.drop_last().push(links.last()) =~= links);
        }
    } else {
        assert(links =~= Seq::<FeedLink>::empty());
    }
}

/// The rest of a pinned site's configuration: its id is the site id of the
/// requested URL and its URL the requested one; when feeds are wanted, the
/// `i`th chosen feed becomes subscription `<id>-feed-<i>` with the feed's
/// URL, its title or `Feed`, polled every 30 minutes; when a sitemap is
/// wanted, its source is a sitemap location or hint that is no greater
/// (lexicographically) than any other, and none only when there is none;
/// when a keyword is given, it is recorded with the first OpenSearch
/// description found, if any.
pub proof fn law_pinned_fields(spec: PinSiteSpec, probe: ProbeResult, c: PinnedSiteConfig)
    requires
        pinned_config_ok(spec, probe, c),
    ensures
        c.id@ == site_id_spec(spec.url@),
        c.url@ == spec.url@,
        c.manifest == probe.manifest,
        spec.include_feeds ==> {
            let chosen = chosen_feeds(probe.feed_urls@, spec.feed_urls);
            &&& c.feeds@.len() == chosen.len()
            &&& forall|i: int|
                0 <= i < c.feeds@.len() ==> {
                    &&& (#[trigger] c.feeds@[i]).id@ == c.id@ + "-feed-"@ + decimal(i as nat)
                    &&& c.feeds@[i].url@ == chosen[i].href@
                    &&& (chosen[i].title is Some ==> c.feeds@[i].title@ == chosen[i].title.unwrap()@)
                    &&& (chosen[i].title is None ==> c.feeds@[i].title@ == "Feed"@)
                    &&& c.feeds@[i].poll_minutes == 30
                }
        },
        !spec.include_feeds ==> c.feeds@.len() == 0,
        !spec.include_sitemap ==> c.sitemap is None,
        spec.include_sitemap ==> c.sitemap is Some && c.sitemap.unwrap().max_depth == spec.sitemap_max_depth
            && {
            let all = str_views(probe.sitemap_urls@) + str_views(probe.robots_sitemap_hints@);
            match c.sitemap.unwrap().source {
                Some(src) => all.contains(src@) && forall|j: int| 0 <= j < all.len() ==> lex_le(src@, #[trigger] all[j]),
                None => all.len() == 0,
            }
        },
        spec.register_search_keyword is None ==> c.search is None,
        spec.register_search_keyword is Some ==> c.search is Some && opt_view(c.search.unwrap().keyword)
            == Some(spec.register_search_keyword.unwrap()@) && (probe.opensearch_urls@.len() > 0
            ==> opt_view(c.search.unwrap().opensearch) == Some(probe.opensearch_urls@[0]@)) && (
        probe.opensearch_urls@.len() == 0 ==> c.search.unwrap().opensearch is None),
{
}

/// Where a pinned site's title comes from: the title asked for; else the
/// page's title; else the probed manifest's short name; else its name; and
/// only when none of these exists, the site's id.
pub proof fn law_pinned_title(spec: PinSiteSpec, probe: ProbeResult, c: PinnedSiteConfig)
    requires
        pinned_config_ok(spec, probe, c),
    ensures
        spec.title is Some ==> c.title@ == spec.title.unwrap()@,
        spec.title is None && probe.title is Some ==> c.title@ == probe.title.unwrap()@,
        spec.title is None && probe.title is None && probe.manifest is Some
            && probe.manifest.unwrap().short_name is Some ==> c.title@
            == probe.manifest.unwrap().short_name.unwrap()@,
        spec.title is None && probe.title is None && probe.manifest is Some
            && probe.manifest.unwrap().short_name is None && probe.manifest.unwrap().name is Some
            ==> c.title@ == probe.manifest.unwrap().name.unwrap()@,
        spec.title is None && probe.title is None && (probe.manifest is None || (
        probe.manifest.unwrap().short_name is None && probe.manifest.unwrap().name is None)) ==> c.title@
            == c.id@,
{
}

fn least_into(best: &mut Option<String>, v: &Vec<String>, Ghost(before): Ghost<Seq<Seq<char>>>)
    requires
        is_least(opt_view(*old(best)), before),
    ensures
        is_least(opt_view(*final(best)), before + str_views(v@)),
{
    let ghost all = before + str_views(v@);
    assert(all.take(before.len() as int) =~= before);
    for i in 0..v.len()
        invariant
            all == before + str_views(v@),
            is_least(opt_view(*best), all.take(before.len() + i)),
    {
        let cand = &v[i];
        assert(cand@ == all[before.len() + i]);
        let cc = chars_of(cand.as_str());
        let take_it = match best {
            None => true,
            Some(x) => !crate::text::lex_le_chars(&chars_of(x.as_str()), &cc),
        };
        let ghost prefix = all.take(before.len() + i);
        assert(all.take(before.len() + i + 1) =~= prefix.push(cand@));
        if take_it {
            proof {
                if *best is Some {
                    let x = opt_view(*best).unwrap();
                    crate::text::lemma_lex_total(x, cand@);
                    assert forall|j: int| 0 <= j < prefix.len() + 1 implies lex_le(
                        cand@,
                        #[trigger] prefix.push(cand@)[j],
                    ) by {
                        if j < prefix.len() {
                            crate::text::lemma_lex_trans(cand@, x, prefix[j]);
                        } else {
                            crate::text::lemma_lex_refl(cand@);
                        }
                    }
                } else {
                    assert(prefix.len() == 0);
                    crate::text::lemma_lex_refl(cand@);
                    assert(prefix.push(cand@)[0] == cand@);
                }
                assert(prefix.push(cand@)[prefix.len() as int] == cand@);
            }
            *best = Some(cand.clone());
        } else {
            proof {
                let x = opt_view(*best).unwrap();
                let k = choose|k: int| 0 <= k < prefix.len() && prefix[k] == x;
                assert(prefix.push(cand@)[k] == x);
            }
        }
    }
    assert(all.take((before.len() + v@.len()) as int) =~= all);
}

fn least_sitemap(a: &Vec<String>, b: &Vec<String>) -> (r: Option<String>)
    ensures
        is_least(opt_view(r), str_views(a@) + str_views(b@)),
{
    let mut best: Option<String> = None;
    least_into(&mut best, a, Ghost(Seq::empty()));
    assert(Seq::<Seq<char>>::empty() + str_views(a@) =~= str_views(a@));
    least_into(&mut best, b, Ghost(str_views(a@)));
    best
}

fn feed_id(id: &String, i: usize) -> (r: String)
    ensures
        r@ == id@ + "-feed-"@ + decimal(i as nat),
{
    let mut s = id.clone();
    s.append("-feed-");
    let d = string_of(&decimal_chars(i));
    s.append(d.as_str());
    s
}

fn subscribe_feeds(links: &Vec<FeedLink>, subset: &Option<Vec<String>>, id: &String) -> (r: Vec<
    FeedSubscriptionToml,
>)
    ensures
        subscriptions_for(r@, chosen_feeds(links@, *subset), id@),
{
    let mut out: Vec<FeedSubscriptionToml> = Vec::new();
    let ghost mut chosen: Seq<FeedLink> = Seq::empty();
    for k in 0..links.len()
        invariant
            chosen == chosen_feeds(links@.take(k as int), *subset),
            subscriptions_for(out@, chosen, id@),
    {
        let f = &links[k];
        assert(links@.take(k + 1).drop_last() =~= links@.take(k as int));
        let keep = match subset {
            Some(sub) => contains_string(sub, &f.href),
            None => true,
        };
        if keep {
            let i = out.len();
            let title = match &f.title {
                Some(t) => t.clone(),
                None => String::from_str("Feed"),
            };
            let sub = FeedSubscriptionToml {
                id: feed_id(id, i),
                url: f.href.clone(),
                title,
                poll_minutes: 30,
                include_in_start_menu: true,
            };
            let ghost before = out@;
            out.push(sub);
            proof {
                chosen = chosen.push(*f);
                assert forall|j: int| 0 <= j < out@.len() implies {
                    &&& (#[trigger] out@[j]).id@ == id@ + "-feed-"@ + decimal(j as nat)
                    &&& out@[j].url@ == chosen[j].href@
                    &&& out@[j].title@ == match chosen[j].title {
                        Some(t) => t@,
                        None => "Feed"@,
                    }
                    &&& out@[j].poll_minutes == 30
                    &&& out@[j].include_in_start_menu
                } by {
                    if j < before.len() {
                        assert(out@[j] == before[j]);
                    }
                }
            }
        }
    }
    assert(links@.take(links@.len() as int) =~= links@);
    out
}

/// Builds the configuration of a site pinned as `spec`, from the probe of
/// its URL.
pub fn build_pinned_config(spec: &PinSiteSpec, probe: &ProbeResult) -> (r: Result<
    PinnedSiteConfig,
    PinError,
>)
    ensures
        r is Err <==> (probe.error is Some && probe.status_code is None),
        r matches Err(PinError::ProbeFailed(m)) ==> Some(m@) == opt_view(probe.error),
        r matches Ok(c) ==> pinned_config_ok(*spec, *probe, c),
{
    let id = site_id_for_url(spec.url.as_str());
    if let Some(e) = &probe.error {
        if probe.status_code.is_none() {
            return Err(PinError::ProbeFailed(e.clone()));
        }
    }
    let title = match &spec.title {
        Some(t) => t.clone(),
        None => match &probe.title {
            Some(t) => t.clone(),
            None => match &probe.manifest {
                Some(m) => match &m.short_name {
                    Some(n) => n.clone(),
                    None => match &m.name {
                        Some(n) => n.clone(),
                        None => id.clone(),
                    },
                },
                None => id.clone(),
            },
        },
    };
    let feeds = if spec.include_feeds {
        subscribe_feeds(&probe.feed_urls, &spec.feed_urls, &id)
    } else {
        Vec::new()
    };
    let sitemap = if spec.include_sitemap {
        let primary = least_sitemap(&probe.sitemap_urls, &probe.robots_sitemap_hints);
        Some(
            SitemapConfigToml {
                present: primary.is_some(),
                source: primary,
                max_depth: spec.sitemap_max_depth,
                include_in_start_menu: true,
            },
        )
    } else {
        None
    };
    let search = match &spec.register_search_keyword {
        Some(kw) => Some(
            SearchBindingToml {
                opensearch: if probe.opensearch_urls.len() > 0 {
                    Some(probe.opensearch_urls[0].clone())
                } else {
                    None
                },
                keyword: Some(kw.clone()),
            },
        ),
        None => None,
    };
    Ok(
        PinnedSiteConfig {
            id,
            url: spec.url.clone(),
            title,
            manifest: clone_opt_manifest(&probe.manifest),
            sitemap,
            feeds,
            search,
        },
    )
}

// ---------------------------------------------------------------------------
// Opening a site and planning its sitemap
// ---------------------------------------------------------------------------

/// Why a URL could not be formed.
#[derive(Debug, PartialEq, Eq)]
pub enum UrlError {
    /// The URL does not parse, or the path does not join onto it: the
    /// parser's message.
    Invalid(String),
}

impl UrlError {
    /// The message shown for the error: the parser's.
    pub fn message(&self) -> (r: String)
        ensures
            match self {
                UrlError::Invalid(e) => r@ == e@,
            },
    {
        match self {
            UrlError::Invalid(e) => e.clone(),
        }
    }
}

/// The reference that appends `rel` to the path of `u`: a join of
/// `./<last segment>/<rel>` keeps the last segment of the path and adds
/// `rel` below it; when the path already ends in `/` (or has no segments),
/// `rel` itself does.
pub open spec fn appending_ref(u: WebUrlView, rel: Seq<char>) -> Seq<char> {
    match last_segment(u.path) {
        Some(seg) => if seg.len() > 0 {
            "./"@ + seg + "/"@ + rel
        } else {
            rel
        },
        None => rel,
    }
}

/// The address opened for a pinned site at `site_url` and a path suffix: the
/// site URL itself for an empty suffix or `/`, else the site URL with the
/// suffix, without its leading `/`s, appended to its path.
pub open spec fn open_url_spec(site_url: Seq<char>, suffix: Seq<char>) -> Option<Seq<char>> {
    match url_parsed(site_url) {
        None => None,
        Some(u) => if suffix.len() == 0 || suffix == "/"@ {
            Some(u.href)
        } else {
            match url_joined(u.href, appending_ref(u, trim_char_start(suffix, '/'))) {
                Some(j) => Some(j.href),
                None => None,
            }
        },
    }
}

/// The address to open for a pinned site and a path suffix.
pub fn open_site_url(site_url: &str, path_suffix: &str) -> (r: Result<String, UrlError>)
    ensures
        match open_url_spec(site_url@, path_suffix@) {
            Some(a) => r matches Ok(s) && s@ == a,
            None => r is Err,
        },
{
    let u = match parse_url(site_url) {
        Ok(u) => u,
        Err(e) => return Err(UrlError::Invalid(e)),
    };
    if path_suffix.is_empty() || str_eq(path_suffix, "/") {
        return Ok(u.href);
    }
    let suffix = chars_of(path_suffix);
    let rel = string_of(&trim_start_char(&suffix, '/'));
    let reference = match last_path_segment(u.path.as_str()) {
        Some(seg) => if seg.as_str().is_empty() {
            rel
        } else {
            let mut r = String::from_str("./");
            r.append(seg.as_str());
            r.append("/");
            r.append(rel.as_str());
            r
        },
        None => rel,
    };
    match join_url(&u, reference.as_str()) {
        Ok(j) => Ok(j.href),
        Err(e) => Err(UrlError::Invalid(e)),
    }
}

/// Why a sitemap tree could not be built.
#[derive(Debug, PartialEq, Eq)]
pub enum SitemapError {
    /// No site is pinned under this id.
    UnknownSite(String),
    /// The site has no sitemap recorded.
    NoSitemap,
    /// The site's URL does not parse: the parser's message.
    InvalidUrl(String),
    /// The sitemap is not of the site's origin.
    OriginMismatch,
}

impl SitemapError {
    /// The message shown for the error.
    pub fn message(&self) -> (r: String)
        ensures
            match self {
                SitemapError::UnknownSite(id) => r@ == "unknown site "@ + id@,
                SitemapError::NoSitemap => r@ == "site has no sitemap"@,
                SitemapError::InvalidUrl(e) => r@ == e@,
                SitemapError::OriginMismatch => r@ == "sitemap origin mismatch"@,
            },
    {
        match self {
            SitemapError::UnknownSite(id) => {
                let mut m = String::from_str("unknown site ");
                m.append(id.as_str());
                m
            },
            SitemapError::NoSitemap => String::from_str("site has no sitemap"),
            SitemapError::InvalidUrl(e) => e.clone(),
            SitemapError::OriginMismatch => String::from_str("sitemap origin mismatch"),
        }
    }
}

/// What building a site's sitemap tree starts from.
#[derive(Debug)]
pub struct SitemapPlan {
    /// The site's own URL.
    pub base: WebUrl,
    /// The sitemap document to read first.
    pub source: String,
    /// How many levels of sitemap documents to read.
    pub limit: u32,
    /// The root of the tree: the site's URL and title.
    pub root_loc: String,
    pub root_title: String,
}

/// The depth limit: the requested depth capped by the configured one, at least 1.
pub open spec fn depth_limit(requested: u32, configured: u32) -> u32 {
    let m = if requested < configured {
        requested
    } else {
        configured
    };
    if m < 1 {
        1
    } else {
        m
    }
}

/// Checks that the site `site_id` has a sitemap of its own origin and plans
/// reading it to at most `max_depth` levels.
pub fn plan_sitemap(store: &SiteStore, site_id: &str, max_depth: u32) -> (r: Result<
    SitemapPlan,
    SitemapError,
>)
    ensures
        !store.map().contains_key(site_id@) ==> (r matches Err(SitemapError::UnknownSite(id))
            && id@ == site_id@),
        store.map().contains_key(site_id@) ==> {
            let cfg = store.map()[site_id@];
            match cfg.sitemap {
                Some(sm) => match sm.source {
                    Some(src) => match url_parsed(cfg.url@) {
                        Some(base) => if same_origin_spec(base, src@) {
                            (r matches Ok(p) && p.base@ == base && p.source@ == src@ && p.limit
                                == depth_limit(max_depth, sm.max_depth) && p.root_loc@ == cfg.url@
                                && p.root_title@ == cfg.title@)
                        } else {
                            r matches Err(SitemapError::OriginMismatch)
                        },
                        None => r matches Err(SitemapError::InvalidUrl(_)),
                    },
                    None => r matches Err(SitemapError::NoSitemap),
                },
                None => r matches Err(SitemapError::NoSitemap),
            }
        },
{
    let cfg = match store.get(site_id) {
        Some(c) => c,
        None => return Err(SitemapError::UnknownSite(String::from_str(site_id))),
    };
    let sm = match &cfg.sitemap {
        Some(sm) => sm,
        None => return Err(SitemapError::NoSitemap),
    };
    let src = match &sm.source {
        Some(s) => s,
        None => return Err(SitemapError::NoSitemap),
    };
    let base = match parse_url(cfg.url.as_str()) {
        Ok(b) => b,
        Err(e) => return Err(SitemapError::InvalidUrl(e)),
    };
    if !same_origin(&base, src.as_str()) {
        return Err(SitemapError::OriginMismatch);
    }
    let m = if max_depth < sm.max_depth {
        max_depth
    } else {
        sm.max_depth
    };
    let limit = if m < 1 {
        1
    } else {
        m
    };
    Ok(
        SitemapPlan {
            base,
            source: src.clone(),
            limit,
            root_loc: cfg.url.clone(),
            root_title: cfg.title.clone(),
        },
    )
}

/// What the sitemap tree of a site at `site_url` titled `site_title` is,
/// read from `source` with the site's URL parsing to `base`, to the depth
/// limit `limit`, once its walk has been handed the outcomes `evs`: each
/// document is asked for at most once, and a finished walk gives the tree
/// with the site's URL and title at its root and, below it, at most `limit`
/// levels of nodes of the site's origin, each titled by its short title,
/// with children only under sitemap documents.
pub open spec fn sitemap_tree_ok(
    site_url: Seq<char>,
    site_title: Seq<char>,
    base: WebUrlView,
    source: Seq<char>,
    limit: u32,
    evs: Seq<crate::probe::OutcomeView>,
) -> bool {
    let r = crate::tree::walk_run(base, source, limit, evs);
    &&& crate::tree::run_fetches(base, source, limit, evs).no_duplicates()
    &&& r.1 matches crate::tree::WalkActionView::Done(Ok(ns)) ==> {
        let root = crate::tree::NodeView { loc: site_url, title: Some(site_title), children: ns };
        &&& root.loc == site_url && root.title == Some(site_title)
        &&& crate::tree::tree_shaped(base, root.children)
        &&& crate::tree::within_levels(root.children, limit as int)
    }
}

/// The whole sitemap tree of a pinned site, as [`plan_sitemap`], the walk
/// and [`crate::tree::sitemap_root`] build it for a site whose sitemap is
/// of its own origin: the depth limit is the requested depth capped by the
/// configured one, and at least 1 (so a request for depth 0 reads one
/// level); then, whatever the fetches answer, the tree is as
/// [`sitemap_tree_ok`] says.
pub proof fn law_sitemap_tree(
    store: SiteStore,
    site_id: Seq<char>,
    max_depth: u32,
    evs: Seq<crate::probe::OutcomeView>,
)
    ensures
        store.map().contains_key(site_id) ==> match store.map()[site_id].sitemap {
            Some(sm) => match sm.source {
                Some(src) => match url_parsed(store.map()[site_id].url@) {
                    Some(base) => same_origin_spec(base, src@) ==> {
                        let limit = depth_limit(max_depth, sm.max_depth);
                        &&& 1 <= limit
                        &&& (limit == 1 || (limit <= max_depth && limit <= sm.max_depth))
                        &&& (limit == max_depth || limit == sm.max_depth || limit == 1)
                        &&& sitemap_tree_ok(
                            store.map()[site_id].url@,
                            store.map()[site_id].title@,
                            base,
                            src@,
                            limit,
                            evs,
                        )
                    },
                    None => true,
                },
                None => true,
            },
            None => true,
        },
{
    if store.map().contains_key(site_id) {
        if let Some(sm) = store.map()[site_id].sitemap {
            if let Some(src) = sm.source {
                if let Some(base) = url_parsed(store.map()[site_id].url@) {
                    let limit = depth_limit(max_depth, sm.max_depth);
                    crate::tree::law_walk_run(base, src@, limit, evs);
                }
            }
        }
    }
}

} // verus!
