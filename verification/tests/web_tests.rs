use xpde::index::federated_hits;
use xpde::ipc::{
    AppEntry, FeedSubscriptionToml, PinnedSiteConfig, SearchProviderDef, SiteSummary, SitemapConfigToml,
};
use xpde::search::{
    all_provider_dirs, apply_template, join_path, order_providers, repo_provider_dir, repo_session_dir,
    system_provider_dir, TemplateError,
};
use xpde::store::SiteStore;
use xpde::web::{
    feed_url, list_feed_summaries, list_pinned_summaries, open_site_url, plan_sitemap, resolve_address, search,
    SitemapError, UrlError,
};
use xpde::weburl::{same_origin_str, short_title};

fn provider(id: &str, name: &str, keyword: &str, template: &str) -> SearchProviderDef {
    SearchProviderDef {
        id: id.to_string(),
        name: name.to_string(),
        keyword: keyword.to_string(),
        template: template.to_string(),
    }
}

fn wiki() -> SearchProviderDef {
    provider("wikipedia", "Wikipedia", "wiki", "https://en.wikipedia.org/w/index.php?search={query}")
}

fn site(id: &str, title: &str, url: &str) -> PinnedSiteConfig {
    PinnedSiteConfig {
        id: id.to_string(),
        url: url.to_string(),
        title: title.to_string(),
        manifest: None,
        sitemap: None,
        feeds: Vec::new(),
        search: None,
    }
}

#[test]
fn templates_take_the_encoded_query() {
    assert_eq!(
        apply_template("https://duckduckgo.com/?q={query}", "rust lang").unwrap(),
        "https://duckduckgo.com/?q=rust%20lang"
    );
    assert_eq!(apply_template("{query}+{query}", "a&b/é~").unwrap(), "a%26b%2F%C3%A9~+a%26b%2F%C3%A9~");
    let e = apply_template("https://example.com/search", "x").unwrap_err();
    assert_eq!(e, TemplateError::MissingPlaceholder);
    assert_eq!(e.message(), "provider template missing {query} placeholder");
}

#[test]
fn providers_are_ordered_by_keyword_stably() {
    let ps = vec![
        provider("b", "B", "wiki", "{query}"),
        provider("a", "A", "ddg", "{query}"),
        provider("c", "C", "wiki", "{query}"),
    ];
    let ids: Vec<String> = order_providers(ps).into_iter().map(|p| p.id).collect();
    assert_eq!(ids, vec!["a", "b", "c"]);
}

#[test]
fn provider_directories() {
    assert_eq!(system_provider_dir(), "/usr/share/xpde/search-providers");
    assert_eq!(join_path("/a/b", "c"), "/a/b/c");
    assert_eq!(join_path("/a/b/", "c"), "/a/b/c");
    assert_eq!(join_path("/a", "/x"), "/x");
    assert_eq!(repo_session_dir("/repo/crates/xpde-shelld"), "/repo/session/search-providers");
    assert_eq!(repo_provider_dir("/repo/session/search-providers".to_string(), false), None);
    let user = "/home/u/.config/xpde/search-providers";
    assert_eq!(
        all_provider_dirs(user, Some("/repo/session/search-providers".to_string()), true),
        vec!["/repo/session/search-providers", "/usr/share/xpde/search-providers", user]
    );
    assert_eq!(all_provider_dirs(user, None, false), vec![user]);
}

#[test]
fn federated_search_finds_apps_sites_and_keywords() {
    let sites = vec![SiteSummary {
        id: "debian".to_string(),
        url: "https://www.debian.org/".to_string(),
        title: "Debian".to_string(),
    }];
    let apps = vec![AppEntry {
        id: "firefox.desktop".to_string(),
        name: "Firefox".to_string(),
        command: "firefox".to_string(),
    }];
    let hits = federated_hits(&sites, &apps, "Fire", "fire", &vec![wiki()]);
    assert_eq!(hits.len(), 1);
    assert_eq!(hits[0].kind, "app");
    assert_eq!(hits[0].title, "Firefox");
    assert_eq!(hits[0].subtitle.as_deref(), Some("firefox.desktop"));
    assert_eq!(hits[0].action, "launch:desktop:firefox.desktop");

    let hits = federated_hits(&sites, &apps, "debian", "debian", &vec![wiki()]);
    assert_eq!(hits.len(), 1);
    assert_eq!(hits[0].kind, "site");
    assert_eq!(hits[0].action, "open-site:debian:");

    let hits = federated_hits(&sites, &apps, "wiki rust", "wiki rust", &vec![wiki()]);
    assert_eq!(hits.len(), 1);
    assert_eq!(hits[0].kind, "search");
    assert_eq!(hits[0].title, "Wikipedia — rust");
    assert_eq!(hits[0].subtitle.as_deref(), Some("https://en.wikipedia.org/w/index.php?search=rust"));
    assert_eq!(hits[0].action, "open-url:https://en.wikipedia.org/w/index.php?search=rust");
}

#[test]
fn search_lowercases_the_query() {
    let store = SiteStore::from_configs(vec![site("debian", "Debian", "https://www.debian.org/")]);
    let hits = search("DEBIAN", &store, &Vec::new(), &Vec::new());
    assert_eq!(hits.len(), 1);
    assert_eq!(hits[0].title, "Debian");
}

#[test]
fn addresses_resolve_to_https_feeds_and_searches() {
    let ps = vec![wiki()];
    let r = resolve_address("  http://example.com/a  ", &ps);
    assert_eq!((r.scheme.as_str(), r.target.as_str(), r.query), ("https", "https://example.com/a", None));
    let r = resolve_address("feed://blog.example/rss", &ps);
    assert_eq!((r.scheme.as_str(), r.target.as_str()), ("feed", "https://blog.example/rss"));
    let r = resolve_address("WIKI rust  lang", &ps);
    assert_eq!(r.scheme, "search");
    assert_eq!(r.target, "https://en.wikipedia.org/w/index.php?search=rust%20lang");
    assert_eq!(r.query.as_deref(), Some("rust lang"));
    let r = resolve_address("hello world", &ps);
    assert_eq!((r.scheme.as_str(), r.target.as_str(), r.query), ("unknown", "hello world", None));
}

#[test]
fn the_store_answers_what_was_inserted_and_removed() {
    let mut store = SiteStore::new();
    store.insert(site("a", "Alpha", "https://a.example/"));
    store.insert(site("b", "beta", "https://b.example/"));
    store.insert(site("a", "Alpha 2", "https://a.example/"));
    assert_eq!(store.get("a").unwrap().title, "Alpha 2");
    assert_eq!(store.configs().len(), 2);
    store.remove("a");
    assert!(store.get("a").is_none());
    assert_eq!(store.get("b").unwrap().title, "beta");
    assert!(store.set_manifest("b", None));
    assert!(!store.set_manifest("zz", None));
}

#[test]
fn pinned_sites_are_listed_by_title() {
    let store = SiteStore::from_configs(vec![
        site("b", "beta", "https://b.example/"),
        site("a", "Alpha", "https://a.example/"),
    ]);
    let titles: Vec<String> = list_pinned_summaries(&store).into_iter().map(|s| s.title).collect();
    assert_eq!(titles, vec!["Alpha", "beta"]);
}

#[test]
fn feeds_are_listed_and_found_by_id() {
    let mut c = site("debian", "Debian", "https://www.debian.org/");
    c.feeds.push(FeedSubscriptionToml {
        id: "debian-feed-0".to_string(),
        url: "https://www.debian.org/News/news".to_string(),
        title: "News".to_string(),
        poll_minutes: 30,
        include_in_start_menu: true,
    });
    let store = SiteStore::from_configs(vec![c]);
    let fs = list_feed_summaries(&store);
    assert_eq!(fs.len(), 1);
    assert_eq!(fs[0].title, "Debian — News");
    assert_eq!(feed_url(&store, "debian-feed-0").as_deref(), Some("https://www.debian.org/News/news"));
    assert_eq!(feed_url(&store, "nope"), None);
}

#[test]
fn sites_open_at_a_path_under_their_url() {
    assert_eq!(open_site_url("https://example.com/app/", "").unwrap(), "https://example.com/app/");
    assert_eq!(open_site_url("https://example.com/app/", "/").unwrap(), "https://example.com/app/");
    assert_eq!(open_site_url("https://example.com/app/", "//docs/x").unwrap(), "https://example.com/app/docs/x");
    assert_eq!(open_site_url("https://example.com/docs", "/intro").unwrap(), "https://example.com/docs/intro");
    assert_eq!(open_site_url("https://example.com/docs?x=1", "intro").unwrap(), "https://example.com/docs/intro");
    assert_eq!(open_site_url("https://example.com", "/a/b").unwrap(), "https://example.com/a/b");
    let e = open_site_url("nope", "x").unwrap_err();
    assert_eq!(e, UrlError::Invalid("relative URL without a base".to_string()));
    assert_eq!(e.message(), "relative URL without a base");
}

#[test]
fn sitemap_plans_check_the_site() {
    let mut with_map = site("d", "Debian", "https://www.debian.org/");
    with_map.sitemap = Some(SitemapConfigToml {
        present: true,
        source: Some("https://www.debian.org/sitemap.xml".to_string()),
        max_depth: 2,
        include_in_start_menu: true,
    });
    let mut foreign = site("f", "F", "https://www.debian.org/");
    foreign.sitemap = Some(SitemapConfigToml {
        present: true,
        source: Some("https://evil.example/sitemap.xml".to_string()),
        max_depth: 2,
        include_in_start_menu: true,
    });
    let store = SiteStore::from_configs(vec![with_map, foreign, site("n", "N", "https://n.example/")]);
    let e = plan_sitemap(&store, "x", 3).unwrap_err();
    assert_eq!(e.message(), "unknown site x");
    assert_eq!(plan_sitemap(&store, "n", 3).unwrap_err(), SitemapError::NoSitemap);
    assert_eq!(plan_sitemap(&store, "n", 3).unwrap_err().message(), "site has no sitemap");
    assert_eq!(plan_sitemap(&store, "f", 3).unwrap_err().message(), "sitemap origin mismatch");
    let p = plan_sitemap(&store, "d", 5).unwrap();
    assert_eq!(p.limit, 2);
    assert_eq!(p.source, "https://www.debian.org/sitemap.xml");
    assert_eq!(p.root_loc, "https://www.debian.org/");
    assert_eq!(p.root_title, "Debian");
    assert_eq!(plan_sitemap(&store, "d", 0).unwrap().limit, 1);
}

#[test]
fn urls_share_an_origin_and_have_short_titles() {
    assert!(same_origin_str("https://example.com/", "https://example.com:443/x"));
    assert!(!same_origin_str("https://example.com/", "http://example.com/"));
    assert!(!same_origin_str("nope", "https://example.com/"));
    assert_eq!(short_title("https://example.com/blog/post-1"), "post-1");
    assert_eq!(short_title("https://example.com/"), "https://example.com/");
    assert_eq!(short_title("not a url"), "not a url");
}

#[test]
fn pinned_sites_sort_by_lower_cased_title() {
    let store = SiteStore::from_configs(vec![
        site("z", "Zeta", "https://z.example/"),
        site("a", "alpha", "https://a.example/"),
        site("e", "\u{c9}cole", "https://e.example/"),
    ]);
    let titles: Vec<String> = list_pinned_summaries(&store).into_iter().map(|s| s.title).collect();
    assert_eq!(titles, vec!["alpha", "Zeta", "\u{c9}cole"]);
}

#[test]
fn unpinning_a_new_site_restores_the_store() {
    let mut store = SiteStore::from_configs(vec![site("b", "beta", "https://b.example/")]);
    store.insert(site("a", "Alpha", "https://a.example/"));
    assert_eq!(store.configs().len(), 2);
    store.remove("a");
    assert_eq!(store.configs().len(), 1);
    assert!(store.get("a").is_none());
    assert_eq!(store.get("b").unwrap().url, "https://b.example/");
}

#[test]
fn a_narrower_query_keeps_a_subsequence_of_the_hits() {
    let sites = vec![
        SiteSummary { id: "fx".to_string(), url: "https://firefox.com/".to_string(), title: "Fx".to_string() },
        SiteSummary { id: "fd".to_string(), url: "https://fedora.org/".to_string(), title: "Fedora".to_string() },
    ];
    let apps = vec![
        AppEntry { id: "firefox.desktop".to_string(), name: "Firefox".to_string(), command: "firefox".to_string() },
        AppEntry { id: "files.desktop".to_string(), name: "Files".to_string(), command: "nautilus".to_string() },
        AppEntry { id: "gimp.desktop".to_string(), name: "GIMP".to_string(), command: "gimp".to_string() },
    ];
    let wide: Vec<String> = federated_hits(&sites, &apps, "f", "f", &vec![]).into_iter().map(|h| h.title).collect();
    assert_eq!(wide, vec!["Firefox", "Files", "Fx", "Fedora"]);
    let narrow: Vec<String> =
        federated_hits(&sites, &apps, "fire", "fire", &vec![]).into_iter().map(|h| h.title).collect();
    assert_eq!(narrow, vec!["Firefox", "Fx"]);
    let all = federated_hits(&sites, &apps, "", "", &vec![]);
    assert_eq!(all.len(), apps.len() + sites.len());
}
