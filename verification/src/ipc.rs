//! The records the shell exchanges over D-Bus and keeps on disk.
use vstd::prelude::*;

verus! {

/// A launchable desktop application.
#[derive(Debug, PartialEq, Eq)]
pub struct AppEntry {
    pub id: String,
    pub name: String,
    pub command: String,
}

/// The text of an [`AppEntry`].
pub struct AppEntryView {
    pub id: Seq<char>,
    pub name: Seq<char>,
    pub command: Seq<char>,
}

impl View for AppEntry {
    type V = AppEntryView;

    open spec fn view(&self) -> AppEntryView {
        AppEntryView { id: self.id@, name: self.name@, command: self.command@ }
    }
}

/// Result of probing a URL for installable web surfaces (manifest, sitemap, feeds, OpenSearch).
#[derive(Debug, PartialEq, Eq)]
pub struct ProbeResult {
    pub url: String,
    pub status_code: Option<u16>,
    pub final_url: Option<String>,
    pub title: Option<String>,
    pub favicon_url: Option<String>,
    pub manifest_url: Option<String>,
    pub manifest: Option<WebManifestSummary>,
    pub sitemap_urls: Vec<String>,
    pub feed_urls: Vec<FeedLink>,
    pub opensearch_urls: Vec<String>,
    pub robots_sitemap_hints: Vec<String>,
    pub error: Option<String>,
}

/// The text of a [`ProbeResult`].
pub struct ProbeView {
    pub url: Seq<char>,
    pub status_code: Option<u16>,
    pub final_url: Option<Seq<char>>,
    pub title: Option<Seq<char>>,
    pub favicon_url: Option<Seq<char>>,
    pub manifest_url: Option<Seq<char>>,
    pub manifest: Option<ManifestView>,
    pub sitemap_urls: Seq<Seq<char>>,
    pub feed_urls: Seq<FeedLinkView>,
    pub opensearch_urls: Seq<Seq<char>>,
    pub robots_sitemap_hints: Seq<Seq<char>>,
    pub error: Option<Seq<char>>,
}

impl View for ProbeResult {
    type V = ProbeView;

    open spec fn view(&self) -> ProbeView {
        ProbeView {
            url: self.url@,
            status_code: self.status_code,
            final_url: opt_view(self.final_url),
            title: opt_view(self.title),
            favicon_url: opt_view(self.favicon_url),
            manifest_url: opt_view(self.manifest_url),
            manifest: opt_manifest_view(self.manifest),
            sitemap_urls: str_views(self.sitemap_urls@),
            feed_urls: feed_link_views(self.feed_urls@),
            opensearch_urls: str_views(self.opensearch_urls@),
            robots_sitemap_hints: str_views(self.robots_sitemap_hints@),
            error: opt_view(self.error),
        }
    }
}

/// The text of a [`WebManifestSummary`].
pub struct ManifestView {
    pub name: Option<Seq<char>>,
    pub short_name: Option<Seq<char>>,
    pub display: Option<Seq<char>>,
    pub start_url: Option<Seq<char>>,
    pub theme_color: Option<Seq<char>>,
}

impl View for WebManifestSummary {
    type V = ManifestView;

    open spec fn view(&self) -> ManifestView {
        ManifestView {
            name: opt_view(self.name),
            short_name: opt_view(self.short_name),
            display: opt_view(self.display),
            start_url: opt_view(self.start_url),
            theme_color: opt_view(self.theme_color),
        }
    }
}

/// The view of an optional manifest.
pub open spec fn opt_manifest_view(m: Option<WebManifestSummary>) -> Option<ManifestView> {
    match m {
        Some(x) => Some(x@),
        None => None,
    }
}

/// The text of a [`FeedLink`].
pub struct FeedLinkView {
    pub href: Seq<char>,
    pub type_: Option<Seq<char>>,
    pub title: Option<Seq<char>>,
}

impl View for FeedLink {
    type V = FeedLinkView;

    open spec fn view(&self) -> FeedLinkView {
        FeedLinkView { href: self.href@, type_: opt_view(self.type_), title: opt_view(self.title) }
    }
}

/// The views of a list of feed links.
pub open spec fn feed_link_views(s: Seq<FeedLink>) -> Seq<FeedLinkView> {
    Seq::new(s.len(), |i: int| s[i]@)
}

/// The fields of a web app manifest that the shell shows.
#[derive(Debug, PartialEq, Eq)]
pub struct WebManifestSummary {
    pub name: Option<String>,
    pub short_name: Option<String>,
    pub display: Option<String>,
    pub start_url: Option<String>,
    pub theme_color: Option<String>,
}

impl WebManifestSummary {
    /// A summary with every field absent.
    pub fn empty() -> (r: Self)
        ensures
            r.name is None && r.short_name is None && r.display is None && r.start_url is None
                && r.theme_color is None,
    {
        WebManifestSummary {
            name: None,
            short_name: None,
            display: None,
            start_url: None,
            theme_color: None,
        }
    }
}

/// A feed advertised by a page (`<link rel="alternate">`).
#[derive(Debug, PartialEq, Eq)]
pub struct FeedLink {
    pub href: String,
    pub type_: Option<String>,
    pub title: Option<String>,
}

/// A pinned site as listed to the shell.
#[derive(Debug, PartialEq, Eq)]
pub struct SiteSummary {
    pub id: String,
    pub url: String,
    pub title: String,
}

/// A node of a site's sitemap tree.
#[derive(Debug, PartialEq, Eq)]
pub struct SitemapNode {
    pub loc: String,
    pub title: Option<String>,
    pub children: Vec<SitemapNode>,
}

/// A feed subscription as listed to the shell.
#[derive(Debug, PartialEq, Eq)]
pub struct FeedSummary {
    pub id: String,
    pub url: String,
    pub title: String,
}

/// One entry of a feed.
#[derive(Debug, PartialEq, Eq)]
pub struct FeedItem {
    pub title: String,
    pub link: String,
    pub published: Option<String>,
}

/// One hit of federated search.
#[derive(Debug, PartialEq, Eq)]
pub struct FederatedHit {
    /// `app`, `site`, `sitemap`, `feed`, `search`
    pub kind: String,
    pub title: String,
    pub subtitle: Option<String>,
    /// Opaque action hint for the shell, e.g. `launch:desktop:id`, `open-site:id`, `search:provider`
    pub action: String,
}

/// What an address bar entry resolves to.
#[derive(Debug, PartialEq, Eq)]
pub struct ResolvedAddress {
    pub scheme: String,
    pub target: String,
    pub query: Option<String>,
}

/// A request to pin a site.
#[derive(Debug, PartialEq, Eq)]
pub struct PinSiteSpec {
    pub url: String,
    pub title: Option<String>,
    pub include_sitemap: bool,
    pub sitemap_max_depth: u32,
    pub include_feeds: bool,
    pub feed_urls: Option<Vec<String>>,
    pub register_search_keyword: Option<String>,
}

/// A keyword search provider.
#[derive(Debug, PartialEq, Eq)]
pub struct SearchProviderDef {
    pub id: String,
    pub name: String,
    pub keyword: String,
    pub template: String,
}

/// On-disk shape under `~/.config/xpde/web-objects/<id>.toml`.
#[derive(Debug, PartialEq, Eq)]
pub struct PinnedSiteConfig {
    pub id: String,
    pub url: String,
    pub title: String,
    pub manifest: Option<WebManifestSummary>,
    pub sitemap: Option<SitemapConfigToml>,
    pub feeds: Vec<FeedSubscriptionToml>,
    pub search: Option<SearchBindingToml>,
}

/// Sitemap settings of a pinned site.
#[derive(Debug, PartialEq, Eq)]
pub struct SitemapConfigToml {
    pub present: bool,
    pub source: Option<String>,
    pub max_depth: u32,
    pub include_in_start_menu: bool,
}

/// A feed subscription of a pinned site.
#[derive(Debug, PartialEq, Eq)]
pub struct FeedSubscriptionToml {
    pub id: String,
    pub url: String,
    pub title: String,
    pub poll_minutes: u64,
    pub include_in_start_menu: bool,
}

/// Search settings of a pinned site.
#[derive(Debug, PartialEq, Eq)]
pub struct SearchBindingToml {
    pub opensearch: Option<String>,
    pub keyword: Option<String>,
}

/// Default for switches that start enabled.
pub fn default_true() -> (r: bool)
    ensures
        r,
{
    true
}

/// Default sitemap depth.
pub fn default_depth() -> (r: u32)
    ensures
        r == 2,
{
    2
}

/// Default feed polling interval, in minutes.
pub fn default_poll() -> (r: u64)
    ensures
        r == 30,
{
    30
}

/// The views of a list of strings.
pub open spec fn str_views(v: Seq<String>) -> Seq<Seq<char>> {
    Seq::new(v.len(), |i: int| v[i]@)
}

/// The view of an optional string.
pub open spec fn opt_view(o: Option<String>) -> Option<Seq<char>> {
    match o {
        Some(s) => Some(s@),
        None => None,
    }
}

/// A copy of an optional string.
pub fn clone_opt(o: &Option<String>) -> (r: Option<String>)
    ensures
        r == *o,
{
    match o {
        Some(s) => Some(s.clone()),
        None => None,
    }
}

/// A copy of a list of strings.
pub fn clone_strings(v: &Vec<String>) -> (r: Vec<String>)
    ensures
        r@ == v@,
{
    let mut r: Vec<String> = Vec::new();
    for i in 0..v.len()
        invariant
            r@ == v@.take(i as int),
    {
        r.push(v[i].clone());
        assert(r@ =~= v@.take(i + 1));
    }
    assert(v@.take(v@.len() as int) =~= v@);
    r
}

/// A copy of a manifest summary.
pub fn clone_manifest(m: &WebManifestSummary) -> (r: WebManifestSummary)
    ensures
        r == *m,
{
    WebManifestSummary {
        name: clone_opt(&m.name),
        short_name: clone_opt(&m.short_name),
        display: clone_opt(&m.display),
        start_url: clone_opt(&m.start_url),
        theme_color: clone_opt(&m.theme_color),
    }
}

/// A copy of an optional manifest summary.
pub fn clone_opt_manifest(m: &Option<WebManifestSummary>) -> (r: Option<WebManifestSummary>)
    ensures
        r == *m,
{
    match m {
        Some(x) => Some(clone_manifest(x)),
        None => None,
    }
}

} // verus!
