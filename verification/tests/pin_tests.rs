use xpde::ipc::{FeedLink, PinSiteSpec, ProbeResult};
use xpde::pin::{desktop_file_contents, guess_sitemaps, manifest_summary, merge_unique, site_id_for_url, slug_chars};
use xpde::web::{build_pinned_config, PinError};
use xpde::weburl::{UrlOrigin, WebUrl};

fn example_url(href: &str, path: &str) -> WebUrl {
    WebUrl {
        href: href.to_string(),
        host: Some("example.com".to_string()),
        path: path.to_string(),
        origin: Some(UrlOrigin { scheme: "https".to_string(), host: "example.com".to_string(), port: 443 }),
    }
}

#[test]
fn site_ids_come_from_host_and_path() {
    assert_eq!(site_id_for_url("https://www.debian.org"), "www-debian-org-root");
    assert_eq!(site_id_for_url("https://Example.COM/Docs/Intro/"), "example-com-docs-intro");
    assert_eq!(site_id_for_url("https://example.com/a__b//c?q=1"), "example-com-a-b-c");
    assert_eq!(site_id_for_url("not a url"), "invalid");
}

#[test]
fn site_ids_are_cut_at_80_characters_and_file_safe() {
    let long = format!("https://example.com/{}", "a".repeat(100));
    let id = site_id_for_url(&long);
    assert_eq!(id.len(), 80);
    assert!(id.starts_with("example-com-aaa"));
    for u in ["https://ü.example/%20x/..", "mailto:someone@example.com", "https://x.org/é/ü"] {
        let id = site_id_for_url(u);
        assert!(id.len() <= 80);
        assert!(id.chars().all(|c| c.is_ascii_lowercase() || c.is_ascii_digit() || c == '-'));
    }
}

#[test]
fn merging_adds_each_missing_url_once() {
    let mut v = vec!["a".to_string(), "b".to_string()];
    let more = ["b", "c", "a", "d", "c"].iter().map(|s| s.to_string()).collect();
    merge_unique(&mut v, more);
    assert_eq!(v, vec!["a", "b", "c", "d"]);
}

#[test]
fn sitemaps_are_guessed_at_the_origin_root() {
    let base = example_url("https://example.com/docs/page?x=1", "/docs/page");
    let hints = vec!["https://example.com/sitemap.xml".to_string(), "https://example.com/news.xml".to_string()];
    assert_eq!(
        guess_sitemaps(&base, &hints),
        vec![
            "https://example.com/sitemap.xml",
            "https://example.com/sitemap_index.xml",
            "https://example.com/news.xml",
        ]
    );
}

#[test]
fn the_desktop_file_of_a_pinned_site() {
    assert_eq!(
        desktop_file_contents("Debian", "www-debian-org-root"),
        "[Desktop Entry]\nType=Application\nName=Debian\nExec=xpde-webview --site-id www-debian-org-root\nCategories=XPDE-Web;\nOnlyShowIn=xpde;\n"
    );
}

#[test]
fn manifests_are_summarised() {
    let doc = br##"{"name":"Example App","short_name":"Ex","display":"standalone","start_url":"/","theme_color":"#ffffff","icons":[]}"##;
    let m = manifest_summary(doc).unwrap();
    assert_eq!(m.name.as_deref(), Some("Example App"));
    assert_eq!(m.short_name.as_deref(), Some("Ex"));
    assert_eq!(m.display.as_deref(), Some("standalone"));
    assert_eq!(m.start_url.as_deref(), Some("/"));
    assert_eq!(m.theme_color.as_deref(), Some("#ffffff"));
    let m = manifest_summary(br#"{"name": 3}"#).unwrap();
    assert!(m.name.is_none() && m.short_name.is_none());
    assert!(manifest_summary(b"<html>").is_none());
}

fn probe() -> ProbeResult {
    ProbeResult {
        url: "https://www.debian.org".to_string(),
        status_code: Some(200),
        final_url: Some("https://www.debian.org/".to_string()),
        title: Some("Debian".to_string()),
        favicon_url: None,
        manifest_url: None,
        manifest: None,
        sitemap_urls: vec!["https://www.debian.org/sitemap.xml".to_string()],
        feed_urls: vec![
            FeedLink {
                href: "https://www.debian.org/News/news".to_string(),
                type_: Some("application/rss+xml".to_string()),
                title: Some("News".to_string()),
            },
            FeedLink { href: "https://www.debian.org/security/dsa".to_string(), type_: None, title: None },
        ],
        opensearch_urls: vec!["https://www.debian.org/search.xml".to_string()],
        robots_sitemap_hints: vec!["https://www.debian.org/a.xml".to_string()],
        error: None,
    }
}

fn spec() -> PinSiteSpec {
    PinSiteSpec {
        url: "https://www.debian.org".to_string(),
        title: None,
        include_sitemap: true,
        sitemap_max_depth: 2,
        include_feeds: true,
        feed_urls: None,
        register_search_keyword: Some("deb".to_string()),
    }
}

#[test]
fn pinning_records_what_the_probe_found() {
    let c = build_pinned_config(&spec(), &probe()).unwrap();
    assert_eq!(c.id, "www-debian-org-root");
    assert_eq!(c.url, "https://www.debian.org");
    assert_eq!(c.title, "Debian");
    let sm = c.sitemap.unwrap();
    assert!(sm.present);
    assert_eq!(sm.source.as_deref(), Some("https://www.debian.org/a.xml"));
    assert_eq!(sm.max_depth, 2);
    assert_eq!(c.feeds.len(), 2);
    assert_eq!(c.feeds[0].id, "www-debian-org-root-feed-0");
    assert_eq!(c.feeds[0].title, "News");
    assert_eq!(c.feeds[1].id, "www-debian-org-root-feed-1");
    assert_eq!(c.feeds[1].title, "Feed");
    assert_eq!(c.feeds[1].poll_minutes, 30);
    let s = c.search.unwrap();
    assert_eq!(s.keyword.as_deref(), Some("deb"));
    assert_eq!(s.opensearch.as_deref(), Some("https://www.debian.org/search.xml"));
}

#[test]
fn pinning_keeps_only_the_chosen_feeds_and_title() {
    let mut sp = spec();
    sp.title = Some("My Debian".to_string());
    sp.feed_urls = Some(vec!["https://www.debian.org/security/dsa".to_string()]);
    sp.include_sitemap = false;
    sp.register_search_keyword = None;
    let c = build_pinned_config(&sp, &probe()).unwrap();
    assert_eq!(c.title, "My Debian");
    assert_eq!(c.feeds.len(), 1);
    assert_eq!(c.feeds[0].url, "https://www.debian.org/security/dsa");
    assert_eq!(c.feeds[0].id, "www-debian-org-root-feed-0");
    assert!(c.sitemap.is_none());
    assert!(c.search.is_none());
}

#[test]
fn a_probe_without_any_answer_refuses_the_pin() {
    let mut p = probe();
    p.status_code = None;
    p.error = Some("connection refused".to_string());
    let e = build_pinned_config(&spec(), &p).unwrap_err();
    assert_eq!(e, PinError::ProbeFailed("connection refused".to_string()));
    assert_eq!(e.message(), "probe failed: connection refused");
    let mut p = probe();
    p.status_code = Some(500);
    p.error = Some("HTTP 500".to_string());
    assert!(build_pinned_config(&spec(), &p).is_ok());
}

#[test]
fn the_launcher_entry_of_a_pinned_site_lists_it() {
    let text = desktop_file_contents("Debian", "www-debian-org-root");
    let file = "xpde-web-www-debian-org-root.desktop";
    let expected = xpde::ipc::AppEntry {
        id: file.to_string(),
        name: "Debian".to_string(),
        command: "xpde-webview --site-id www-debian-org-root".to_string(),
    };
    assert_eq!(xpde::desktop::parse_desktop_entry(&text, file, "xpde"), Some(expected.clone_entry()));
    assert_eq!(xpde::desktop::parse_desktop_entry(&text, file, "ubuntu:xpde"), Some(expected.clone_entry()));
    assert_eq!(xpde::desktop::parse_desktop_entry(&text, file, ""), Some(expected));
    assert_eq!(xpde::desktop::parse_desktop_entry(&text, file, "GNOME"), None);
}

trait CloneEntry {
    fn clone_entry(&self) -> Self;
}

impl CloneEntry for xpde::ipc::AppEntry {
    fn clone_entry(&self) -> Self {
        xpde::ipc::AppEntry { id: self.id.clone(), name: self.name.clone(), command: self.command.clone() }
    }
}

#[test]
fn a_slug_keeps_letters_and_digits_between_single_dashes() {
    let s: Vec<char> = "--Hello, World!! 42--".chars().collect();
    let r: String = slug_chars(&s).into_iter().collect();
    assert_eq!(r, "hello-world-42");
    let e: Vec<char> = "!!!".chars().collect();
    assert!(slug_chars(&e).is_empty());
}
