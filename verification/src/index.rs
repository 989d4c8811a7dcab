//! Federated search over applications, pinned sites and keyword providers.
use vstd::prelude::*;

use crate::ipc::{AppEntry, FederatedHit, SearchProviderDef, SiteSummary};
use crate::search::{applied_template, apply_template};
use crate::text::{
    ascii_lower_seq, ascii_lowercase, chars_of, contains, contains_chars, eq_ignore_ascii_case,
    eq_ignore_case_chars, join_spaced, join_spaced_from, string_of, views, words, words_of,
};

verus! {

/// The text of a [`FederatedHit`].
pub struct HitView {
    pub kind: Seq<char>,
    pub title: Seq<char>,
    pub subtitle: Option<Seq<char>>,
    pub action: Seq<char>,
}

impl View for FederatedHit {
    type V = HitView;

    open spec fn view(&self) -> HitView {
        HitView {
            kind: self.kind@,
            title: self.title@,
            subtitle: match self.subtitle {
                Some(s) => Some(s@),
                None => None,
            },
            action: self.action@,
        }
    }
}

/// The views of a list of hits.
pub open spec fn hit_views(s: Seq<FederatedHit>) -> Seq<HitView> {
    Seq::new(s.len(), |i: int| s[i]@)
}

/// Hits for the applications whose name or id, in ASCII lower case, holds `q`.
pub open spec fn app_hits(apps: Seq<AppEntry>, q: Seq<char>) -> Seq<HitView>
    decreases apps.len(),
{
    if apps.len() == 0 {
        seq![]
    } else {
        let prev = app_hits(apps.drop_last(), q);
        let a = apps.last();
        if contains(ascii_lower_seq(a.name@), q) || contains(ascii_lower_seq(a.id@), q) {
            prev.push(
                HitView {
                    kind: "app"@,
                    title: a.name@,
                    subtitle: Some(a.id@),
                    action: "launch:desktop:"@ + a.id@,
                },
            )
        } else {
            prev
        }
    }
}

/// Hits for the pinned sites whose title or URL, in ASCII lower case, holds `q`.
pub open spec fn site_hits(sites: Seq<SiteSummary>, q: Seq<char>) -> Seq<HitView>
    decreases sites.len(),
{
    if sites.len() == 0 {
        seq![]
    } else {
        let prev = site_hits(sites.drop_last(), q);
        let s = sites.last();
        if contains(ascii_lower_seq(s.title@), q) || contains(ascii_lower_seq(s.url@), q) {
            prev.push(
                HitView {
                    kind: "site"@,
                    title: s.title@,
                    subtitle: Some(s.url@),
                    action: "open-site:"@ + s.id@ + ":"@,
                },
            )
        } else {
            prev
        }
    }
}

/// Index of the first provider at or after `i` whose keyword matches `kw`
/// up to ASCII case, or `ps.len()`.
pub open spec fn first_provider(ps: Seq<SearchProviderDef>, kw: Seq<char>, i: int) -> int
    decreases ps.len() - i,
{
    if i >= ps.len() {
        ps.len() as int
    } else if eq_ignore_ascii_case(ps[i].keyword@, kw) {
        i
    } else {
        first_provider(ps, kw, i + 1)
    }
}

/// The keyword hit for `query`: when it has two or more words, the first
/// provider whose keyword is the first word (ASCII case ignored) gives an
/// `open-url:` hit for the rest of the words joined by spaces, unless its
/// template has no `{query}`.
pub open spec fn keyword_hit(query: Seq<char>, ps: Seq<SearchProviderDef>) -> Option<HitView> {
    let parts = words(query, false);
    if parts.len() < 2 {
        None
    } else {
        let kw = ascii_lower_seq(parts[0]);
        let rest = join_spaced(parts.skip(1));
        let i = first_provider(ps, kw, 0);
        if i < ps.len() {
            match applied_template(ps[i].template@, rest) {
                Some(url) => Some(
                    HitView {
                        kind: "search"@,
                        title: ps[i].name@ + " — "@ + rest,
                        subtitle: Some(url),
                        action: "open-url:"@ + url,
                    },
                ),
                None => None,
            }
        } else {
            None
        }
    }
}

/// All hits for a query: applications, then sites, then the keyword hit.
pub open spec fn federated(
    sites: Seq<SiteSummary>,
    apps: Seq<AppEntry>,
    query: Seq<char>,
    q_lower: Seq<char>,
    ps: Seq<SearchProviderDef>,
) -> Seq<HitView> {
    app_hits(apps, q_lower) + site_hits(sites, q_lower) + match keyword_hit(query, ps) {
        Some(h) => seq![h],
        None => seq![],
    }
}

fn concat2(a: &str, b: &str) -> (r: String)
    ensures
        r@ == a@ + b@,
{
    let mut s = String::from_str(a);
    s.append(b);
    s
}

proof fn lemma_first_provider(ps: Seq<SearchProviderDef>, kw: Seq<char>, i: int, m: int)
    requires
        0 <= i <= m <= ps.len(),
        forall|j: int| i <= j < m ==> !eq_ignore_ascii_case(#[trigger] ps[j].keyword@, kw),
        m == ps.len() || eq_ignore_ascii_case(ps[m].keyword@, kw),
    ensures
        first_provider(ps, kw, i) == m,
    decreases m - i,
{
    if i < m {
        lemma_first_provider(ps, kw, i + 1, m);
    }
}

/// The keyword hit for `query`, if any.
fn keyword_hit_of(query: &str, providers: &Vec<SearchProviderDef>) -> (r: Option<FederatedHit>)
    ensures
        match keyword_hit(query@, providers@) {
            Some(h) => r matches Some(x) && x@ == h,
            None => r is None,
        },
{
    let qv = chars_of(query);
    let parts = words_of(&qv, false);
    if parts.len() < 2 {
        return None;
    }
    let kw = ascii_lowercase(&parts[0]);
    assert(views(parts@)[0] == parts@[0]@);
    let rest = join_spaced_from(&parts, 1);
    let rest_s = string_of(&rest);
    let mut j: usize = 0;
    while j < providers.len() && !eq_ignore_case_chars(&chars_of(providers[j].keyword.as_str()), &kw)
        invariant
            j <= providers@.len(),
            forall|t: int| 0 <= t < j ==> !eq_ignore_ascii_case(#[trigger] providers@[t].keyword@, kw@),
        decreases providers@.len() - j,
    {
        j += 1;
    }
    proof {
        lemma_first_provider(providers@, kw@, 0, j as int);
    }
    if j == providers.len() {
        return None;
    }
    let p = &providers[j];
    match apply_template(p.template.as_str(), rest_s.as_str()) {
        Ok(url) => {
            let mut title = concat2(p.name.as_str(), " — ");
            title.append(rest_s.as_str());
            let action = concat2("open-url:", url.as_str());
            Some(FederatedHit { kind: String::from_str("search"), title, subtitle: Some(url), action })
        },
        Err(_) => None,
    }
}

/// Federated search: `q_lower` is `query` in ASCII lower case; `providers`
/// are the keyword providers in their listed order.
pub fn federated_hits(
    sites: &Vec<SiteSummary>,
    apps: &Vec<AppEntry>,
    query: &str,
    q_lower: &str,
    providers: &Vec<SearchProviderDef>,
) -> (r: Vec<FederatedHit>)
    ensures
        hit_views(r@) == federated(sites@, apps@, query@, q_lower@, providers@),
{
    let q = chars_of(q_lower);
    let mut hits: Vec<FederatedHit> = Vec::new();
    for i in 0..apps.len()
        invariant
            q@ == q_lower@,
            hit_views(hits@) == app_hits(apps@.take(i as int), q_lower@),
    {
        assert(apps@.take(i + 1).drop_last() =~= apps@.take(i as int));
        let a = &apps[i];
        let name = ascii_lowercase(&chars_of(a.name.as_str()));
        let id = ascii_lowercase(&chars_of(a.id.as_str()));
        if contains_chars(&name, &q) || contains_chars(&id, &q) {
            let h = FederatedHit {
                kind: String::from_str("app"),
                title: a.name.clone(),
                subtitle: Some(a.id.clone()),
                action: concat2("launch:desktop:", a.id.as_str()),
            };
            let ghost before = hits@;
            hits.push(h);
            assert(hit_views(hits@) =~= hit_views(before).push(h@));
        }
    }
    assert(apps@.take(apps@.len() as int) =~= apps@);
    let ghost app_part = hit_views(hits@);
    let mut site_part: Vec<FederatedHit> = Vec::new();
    for i in 0..sites.len()
        invariant
            q@ == q_lower@,
            hit_views(site_part@) == site_hits(sites@.take(i as int), q_lower@),
    {
        assert(sites@.take(i + 1).drop_last() =~= sites@.take(i as int));
        let s = &sites[i];
        let title = ascii_lowercase(&chars_of(s.title.as_str()));
        let url = ascii_lowercase(&chars_of(s.url.as_str()));
        if contains_chars(&title, &q) || contains_chars(&url, &q) {
            let mut action = concat2("open-site:", s.id.as_str());
            action.append(":");
            let h = FederatedHit {
                kind: String::from_str("site"),
                title: s.title.clone(),
                subtitle: Some(s.url.clone()),
                action,
            };
            let ghost before = site_part@;
            site_part.push(h);
            assert(hit_views(site_part@) =~= hit_views(before).push(h@));
        }
    }
    assert(sites@.take(sites@.len() as int) =~= sites@);
    let ghost site_views = hit_views(site_part@);
    let ghost before_sites = hits@;
    hits.append(&mut site_part);
    assert(hit_views(hits@) =~= app_part + site_views);
    if let Some(h) = keyword_hit_of(query, providers) {
        let ghost before = hits@;
        hits.push(h);
        assert(hit_views(hits@) =~= hit_views(before).push(h@));
    }
    hits
}


/// A query made of a provider's keyword and more words ends its hits with
/// an `open-url:` hit for the rest of the query, joined by single spaces and
/// percent-encoded into the template of the first provider with that
/// keyword, when that template has a `{query}` placeholder.
pub proof fn law_keyword_query_opens_url(
    sites: Seq<SiteSummary>,
    apps: Seq<AppEntry>,
    query: Seq<char>,
    q_lower: Seq<char>,
    ps: Seq<SearchProviderDef>,
)
    requires
        words(query, false).len() >= 2,
        first_provider(ps, ascii_lower_seq(words(query, false)[0]), 0) < ps.len(),
        contains(ps[first_provider(ps, ascii_lower_seq(words(query, false)[0]), 0)].template@, "{query}"@),
    ensures
        ({
            let hits = federated(sites, apps, query, q_lower, ps);
            let p = ps[first_provider(ps, ascii_lower_seq(words(query, false)[0]), 0)];
            let rest = join_spaced(words(query, false).skip(1));
            &&& hits.len() > 0
            &&& hits.last().kind == "search"@
            &&& hits.last().action == "open-url:"@ + crate::text::replace_all(
                p.template@,
                "{query}"@,
                crate::search::percent_encode(rest),
            )
        }),
{
}

/// Whether an application hit's title or subtitle (the entry's name and id),
/// in ASCII lower case, holds `q`.
pub open spec fn app_hit_matches(h: HitView, q: Seq<char>) -> bool {
    contains(ascii_lower_seq(h.title), q) || match h.subtitle {
        Some(id) => contains(ascii_lower_seq(id), q),
        None => false,
    }
}

/// Whether a site hit's title or subtitle (the site's title and URL), in
/// ASCII lower case, holds `q`.
pub open spec fn site_hit_matches(h: HitView, q: Seq<char>) -> bool {
    contains(ascii_lower_seq(h.title), q) || match h.subtitle {
        Some(url) => contains(ascii_lower_seq(url), q),
        None => false,
    }
}

proof fn lemma_contains_trans(a: Seq<char>, b: Seq<char>, c: Seq<char>)
    requires
        contains(a, b),
        contains(b, c),
    ensures
        contains(a, c),
{
    let i = choose|i: int| crate::text::occurs_at(a, b, i);
    let j = choose|j: int| crate::text::occurs_at(b, c, j);
    assert(a.subrange(i + j, i + j + c.len()) =~= b.subrange(j, j + c.len()));
    assert(crate::text::occurs_at(a, c, i + j));
}

proof fn lemma_app_hits_narrow(apps: Seq<AppEntry>, q1: Seq<char>, q2: Seq<char>)
    requires
        contains(q1, q2),
    ensures
        app_hits(apps, q1) == app_hits(apps, q2).filter(|h: HitView| app_hit_matches(h, q1)),
    decreases apps.len(),
{
    reveal(Seq::filter);
    if apps.len() > 0 {
        lemma_app_hits_narrow(apps.drop_last(), q1, q2);
        let a = apps.last();
        if contains(ascii_lower_seq(a.name@), q1) {
            lemma_contains_trans(ascii_lower_seq(a.name@), q1, q2);
        }
        if contains(ascii_lower_seq(a.id@), q1) {
            lemma_contains_trans(ascii_lower_seq(a.id@), q1, q2);
        }
        let prev = app_hits(apps.drop_last(), q2);
        let whole = app_hits(apps, q2);
        if contains(ascii_lower_seq(a.name@), q2) || contains(ascii_lower_seq(a.id@), q2) {
            assert(whole.drop_last() =~= prev);
        }
    }
}

proof fn lemma_site_hits_narrow(sites: Seq<SiteSummary>, q1: Seq<char>, q2: Seq<char>)
    requires
        contains(q1, q2),
    ensures
        site_hits(sites, q1) == site_hits(sites, q2).filter(|h: HitView| site_hit_matches(h, q1)),
    decreases sites.len(),
{
    reveal(Seq::filter);
    if sites.len() > 0 {
        lemma_site_hits_narrow(sites.drop_last(), q1, q2);
        let s = sites.last();
        if contains(ascii_lower_seq(s.title@), q1) {
            lemma_contains_trans(ascii_lower_seq(s.title@), q1, q2);
        }
        if contains(ascii_lower_seq(s.url@), q1) {
            lemma_contains_trans(ascii_lower_seq(s.url@), q1, q2);
        }
        let prev = site_hits(sites.drop_last(), q2);
        let whole = site_hits(sites, q2);
        if contains(ascii_lower_seq(s.title@), q2) || contains(ascii_lower_seq(s.url@), q2) {
            assert(whole.drop_last() =~= prev);
        }
    }
}

/// Narrowing a query narrows its hits: when `q2` occurs in `q1` (both in
/// lower case), the application and site hits for `q1` are exactly those for
/// `q2` that still match `q1`, in the same order, so they form a subsequence
/// of them.
pub proof fn law_narrower_query_filters_hits(
    sites: Seq<SiteSummary>,
    apps: Seq<AppEntry>,
    q1: Seq<char>,
    q2: Seq<char>,
)
    requires
        contains(q1, q2),
    ensures
        app_hits(apps, q1) == app_hits(apps, q2).filter(|h: HitView| app_hit_matches(h, q1)),
        site_hits(sites, q1) == site_hits(sites, q2).filter(|h: HitView| site_hit_matches(h, q1)),
{
    lemma_app_hits_narrow(apps, q1, q2);
    lemma_site_hits_narrow(sites, q1, q2);
}

proof fn lemma_all_match_empty(apps: Seq<AppEntry>, sites: Seq<SiteSummary>)
    ensures
        app_hits(apps, seq![]).len() == apps.len(),
        site_hits(sites, seq![]).len() == sites.len(),
    decreases apps.len() + sites.len(),
{
    if apps.len() > 0 {
        let n = ascii_lower_seq(apps.last().name@);
        assert(n.subrange(0, 0) =~= Seq::<char>::empty());
        assert(crate::text::occurs_at(n, seq![], 0));
        lemma_all_match_empty(apps.drop_last(), sites);
    }
    if sites.len() > 0 {
        let t = ascii_lower_seq(sites.last().title@);
        assert(t.subrange(0, 0) =~= Seq::<char>::empty());
        assert(crate::text::occurs_at(t, seq![], 0));
        lemma_all_match_empty(apps, sites.drop_last());
    }
}

/// An empty query matches everything: one hit per application and one per
/// pinned site.
pub proof fn law_empty_query_lists_all(sites: Seq<SiteSummary>, apps: Seq<AppEntry>)
    ensures
        app_hits(apps, seq![]).len() == apps.len(),
        site_hits(sites, seq![]).len() == sites.len(),
{
    lemma_all_match_empty(apps, sites);
}

} // verus!
