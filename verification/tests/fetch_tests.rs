use xpde::cache::Fetched;
use xpde::feed::{feed_items, FeedError};
use xpde::probe::{probe_start, probe_step, robots_sitemap_hints, robots_text_sliceable, FetchOutcome, ProbeAction, ProbeStage};
use xpde::sitemap::parse_locs;
use xpde::store::SiteStore;
use xpde::ipc::{PinnedSiteConfig, SitemapConfigToml};
use xpde::tree::{sitemap_root, walk_plan, walk_start, walk_step, WalkAction};
use xpde::web::plan_sitemap;
use xpde::weburl::{UrlOrigin, WebUrl};

fn ok(status: u16, url: &str, body: &str) -> FetchOutcome {
    FetchOutcome::Response(Fetched { status, final_url: url.to_string(), bytes: body.as_bytes().to_vec() })
}

fn example_base() -> WebUrl {
    WebUrl {
        href: "https://example.com/".to_string(),
        host: Some("example.com".to_string()),
        path: "/".to_string(),
        origin: Some(UrlOrigin { scheme: "https".to_string(), host: "example.com".to_string(), port: 443 }),
    }
}

const RSS: &str = "<?xml version=\"1.0\"?><rss version=\"2.0\"><channel><title>T</title>\
<item><title>One</title><link>https://example.com/posts/1</link><pubDate>Mon, 01 Jan 2024 00:00:00 GMT</pubDate></item>\
<item><description>no title</description></item></channel></rss>";

#[test]
fn feed_items_take_titles_links_and_dates() {
    let items = feed_items(200, RSS.as_bytes(), "https://example.com/feed.xml", 10).unwrap();
    assert_eq!(items.len(), 2);
    assert_eq!(items[0].title, "One");
    assert_eq!(items[0].link, "https://example.com/posts/1");
    assert_eq!(items[0].published.as_deref(), Some("2024-01-01T00:00:00+00:00"));
    assert_eq!(items[1].title, "(untitled)");
    assert_eq!(items[1].link, "https://example.com/feed.xml");
    assert_eq!(items[1].published, None);
    assert_eq!(feed_items(200, RSS.as_bytes(), "https://example.com/feed.xml", 1).unwrap().len(), 1);
}

#[test]
fn feeds_with_unsafe_time_values_are_refused() {
    let podcast = "<rss version=\"2.0\" xmlns:itunes=\"http://www.itunes.com/dtds/podcast-1.0.dtd\"><channel>\
<item><title>E1</title><itunes:duration>99999999999999999999999</itunes:duration></item></channel></rss>";
    let e = feed_items(200, podcast.as_bytes(), "u", 10).unwrap_err();
    assert_eq!(e, FeedError::Refused);
    assert_eq!(e.message(), "feed parse: document refused");
    let joined = "<rss version=\"2.0\" xmlns:itunes=\"http://www.itunes.com/dtds/podcast-1.0.dtd\"><channel>\
<item><title>E1</title><itunes:duration>12&#51;4</itunes:duration></item></channel></rss>";
    assert_eq!(feed_items(200, joined.as_bytes(), "u", 10).unwrap_err(), FeedError::Refused);
    let media = "<rss version=\"2.0\" xmlns:media=\"http://search.yahoo.com/mrss/\"><channel>\
<item><title>V</title><media:thumbnail url=\"x.png\" time = \"12:00:00\u{e9}\"/></item></channel></rss>";
    assert_eq!(feed_items(200, media.as_bytes(), "u", 10).unwrap_err(), FeedError::Refused);
    let plain_media = "<rss version=\"2.0\" xmlns:media=\"http://search.yahoo.com/mrss/\"><channel>\
<item><title>V</title><media:thumbnail url=\"x.png\"/></item></channel></rss>";
    assert_eq!(feed_items(200, plain_media.as_bytes(), "u", 10).unwrap()[0].title, "V");
}

#[test]
fn podcasts_with_short_durations_are_read() {
    let podcast = "<?xml version=\"1.0\" encoding=\"UTF-8\"?>\
<rss version=\"2.0\" xmlns:itunes=\"http://www.itunes.com/dtds/podcast-1.0.dtd\"><channel>\
<item><title>E1</title><itunes:duration>01:02:03</itunes:duration></item>\
<item><title>E2</title><itunes:duration>3600</itunes:duration></item></channel></rss>";
    let items = feed_items(200, podcast.as_bytes(), "u", 10).unwrap();
    assert_eq!(items.len(), 2);
    assert_eq!(items[1].title, "E2");
    let media = "<rss version=\"2.0\" xmlns:media=\"http://search.yahoo.com/mrss/\"><channel>\
<item><title>V</title><media:thumbnail url=\"x.png\" time=\"12:00:00.5\"/></item></channel></rss>";
    assert_eq!(feed_items(200, media.as_bytes(), "u", 10).unwrap()[0].title, "V");
}

#[test]
fn podcasts_with_non_ascii_text_and_cdata_durations_are_read() {
    let podcast = "<?xml version=\"1.0\" encoding=\"UTF-8\"?>\
<rss version=\"2.0\" xmlns:itunes=\"http://www.itunes.com/dtds/podcast-1.0.dtd\"><channel>\
<item><title>Caf\u{e9} 12345678901234567890</title><itunes:duration>00000000000000000000045:10</itunes:duration></item>\
<item><title>B</title><itunes:duration><![CDATA[1:02:03]]></itunes:duration></item></channel></rss>";
    let items = feed_items(200, podcast.as_bytes(), "u", 10).unwrap();
    assert_eq!(items.len(), 2);
    assert_eq!(items[0].title, "Caf\u{e9} 12345678901234567890");
    let split = "<rss version=\"2.0\" xmlns:itunes=\"http://www.itunes.com/dtds/podcast-1.0.dtd\"><channel>\
<item><title>C</title><itunes:duration>1234567890<![CDATA[12345678901]]></itunes:duration></item></channel></rss>";
    assert_eq!(feed_items(200, split.as_bytes(), "u", 10).unwrap_err(), FeedError::Refused);
}

#[test]
fn iso_2022_jp_escapes_are_refused() {
    let doc = "<?xml version=\"1.0\" encoding=\"ISO-2022-JP\"?>\
<rss version=\"2.0\" xmlns:itunes=\"http://www.itunes.\u{1b}(Bcom/dtds/podcast-1.0.dtd\"><channel>\
<item><title>E</title><itunes:duration>99999999999999999999999</itunes:duration></item></channel></rss>";
    assert_eq!(feed_items(200, doc.as_bytes(), "u", 10).unwrap_err(), FeedError::Refused);
}

#[test]
fn late_or_long_xml_declarations_are_refused() {
    let late = "<rss version=\"2.0\"><channel><title>T</title></channel></rss>\
<?xml version=\"1.0\" encoding=\"ISO-8859-1\"?>";
    assert_eq!(feed_items(200, late.as_bytes(), "u", 10).unwrap_err(), FeedError::Refused);
    let long = "<?xml version=\"1.0\"      encoding=\"ISO-8859-1\"      standalone=\"yes\"?>\
<rss version=\"2.0\"><channel><title>T</title></channel></rss>";
    assert_eq!(feed_items(200, long.as_bytes(), "u", 10).unwrap_err(), FeedError::Refused);
    let early = "<?xml version=\"1.0\" encoding=\"ISO-8859-1\"?><?xml-stylesheet href=\"s.xsl\"?>\
<rss version=\"2.0\"><channel><title>T</title><item><title>A</title></item></channel></rss>";
    assert_eq!(feed_items(200, early.as_bytes(), "u", 10).unwrap()[0].title, "A");
}

#[test]
fn feed_errors() {
    let e = feed_items(404, RSS.as_bytes(), "u", 10).unwrap_err();
    assert_eq!(e, FeedError::Http(404));
    assert_eq!(e.message(), "feed HTTP 404");
    let e = feed_items(200, b"not a feed", "u", 10).unwrap_err();
    assert!(matches!(e, FeedError::Parse(_)));
    assert!(e.message().starts_with("feed parse: "));
}

#[test]
fn sitemap_locations_are_read_in_order() {
    let doc = "<?xml version=\"1.0\" encoding=\"UTF-8\"?>\
<urlset xmlns=\"http://www.sitemaps.org/schemas/sitemap/0.9\">\
<url><loc>https://example.com/a</loc></url>\
<url><loc>\n  https://example.com/b?x=1&amp;y=2  </loc></url>\
<url><loc></loc></url>\
<url><loc><![CDATA[https://example.com/c]]></loc></url>\
</urlset>";
    assert_eq!(
        parse_locs(doc.as_bytes()).unwrap(),
        vec!["https://example.com/a", "https://example.com/b?x=1&y=2", "https://example.com/c"]
    );
}

#[test]
fn broken_sitemaps_are_errors() {
    assert!(parse_locs(b"<urlset><loc>&bogus;</loc></urlset>").is_err());
    assert!(parse_locs(b"<urlset><url></urlset>").is_err());
    assert_eq!(parse_locs(b"").unwrap(), Vec::<String>::new());
}

#[test]
fn robots_txt_names_same_origin_sitemaps() {
    let text = "User-agent: *\nSitemap: https://example.com/extra.xml\n  SITEMAP:https://example.com/b.xml \nsitemap: https://other.org/x.xml\nSitemap:\n";
    assert!(robots_text_sliceable(text));
    assert_eq!(
        robots_sitemap_hints("https://example.com/", text),
        vec!["https://example.com/extra.xml", "https://example.com/b.xml"]
    );
    assert!(!robots_text_sliceable("abcdefg\u{e9}xyz\n"));
    assert!(robots_text_sliceable("\u{e9}\u{e9}\u{e9}\u{e9}\n"));
}

const PAGE: &str = "<html><head><title> Example </title>\
<link rel=\"manifest\" href=\"/app.webmanifest\">\
<link rel=\"alternate\" type=\"application/RSS+xml\" title=\"News\" href=\"/feed.xml\">\
<link rel=\"search\" type=\"application/opensearchdescription+xml\" href=\"/os.xml\">\
<link rel=\"Shortcut Icon\" href=\"/favicon.png\">\
<link rel=\"stylesheet\" href=\"/s.css\">\
</head><body></body></html>";

#[test]
fn a_probe_reads_page_robots_and_manifest() {
    let (p, a) = probe_start("https://example.com/");
    assert_eq!(a, ProbeAction::Fetch("https://example.com/".to_string()));
    let (p, a) = probe_step(p, ok(200, "https://example.com/", PAGE));
    assert_eq!(a, ProbeAction::Fetch("https://example.com/robots.txt".to_string()));
    assert_eq!(p.result.title.as_deref(), Some("Example"));
    assert_eq!(p.result.manifest_url.as_deref(), Some("https://example.com/app.webmanifest"));
    assert_eq!(p.result.feed_urls.len(), 1);
    assert_eq!(p.result.feed_urls[0].href, "https://example.com/feed.xml");
    assert_eq!(p.result.feed_urls[0].type_.as_deref(), Some("application/rss+xml"));
    assert_eq!(p.result.feed_urls[0].title.as_deref(), Some("News"));
    assert_eq!(p.result.opensearch_urls, vec!["https://example.com/os.xml"]);
    assert_eq!(p.result.favicon_url.as_deref(), Some("https://example.com/favicon.png"));
    let robots = "Sitemap: https://example.com/extra.xml\nSitemap: https://other.org/x.xml\n";
    let (p, a) = probe_step(p, ok(200, "https://example.com/robots.txt", robots));
    assert_eq!(a, ProbeAction::Fetch("https://example.com/app.webmanifest".to_string()));
    assert_eq!(p.result.robots_sitemap_hints, vec!["https://example.com/extra.xml"]);
    assert_eq!(
        p.result.sitemap_urls,
        vec![
            "https://example.com/sitemap.xml",
            "https://example.com/sitemap_index.xml",
            "https://example.com/extra.xml",
        ]
    );
    let (p, a) = probe_step(p, ok(200, "https://example.com/app.webmanifest", "{\"name\":\"Example App\",\"short_name\":\"Ex\"}"));
    assert_eq!(a, ProbeAction::Finish);
    assert_eq!(p.stage, ProbeStage::Done);
    let m = p.result.manifest.unwrap();
    assert_eq!(m.name.as_deref(), Some("Example App"));
    assert_eq!(m.short_name.as_deref(), Some("Ex"));
    assert_eq!(p.result.status_code, Some(200));
    assert_eq!(p.result.error, None);
}

#[test]
fn a_probe_stops_on_a_bad_url_or_answer() {
    let (p, a) = probe_start("not a url");
    assert_eq!(a, ProbeAction::Finish);
    assert_eq!(p.result.error.as_deref(), Some("invalid URL"));
    let (p, _) = probe_start("https://example.com/");
    let (p, a) = probe_step(p, ok(404, "https://example.com/", ""));
    assert_eq!(a, ProbeAction::Finish);
    assert_eq!(p.result.status_code, Some(404));
    assert_eq!(p.result.error.as_deref(), Some("HTTP 404"));
    let (p, _) = probe_start("https://example.com/");
    let (p, a) = probe_step(p, FetchOutcome::Failed("timed out".to_string()));
    assert_eq!(a, ProbeAction::Finish);
    assert_eq!(p.result.status_code, None);
    assert_eq!(p.result.error.as_deref(), Some("timed out"));
}

#[test]
fn a_probe_falls_back_to_the_default_icon_and_skips_what_fails() {
    let (p, _) = probe_start("https://example.com/docs/");
    let (p, a) = probe_step(p, ok(200, "https://example.com/docs/", "<title></title>"));
    assert_eq!(a, ProbeAction::Fetch("https://example.com/robots.txt".to_string()));
    assert_eq!(p.result.title, None);
    assert_eq!(p.result.favicon_url.as_deref(), Some("https://example.com/favicon.ico"));
    let (p, a) = probe_step(p, FetchOutcome::Failed("refused".to_string()));
    assert_eq!(a, ProbeAction::Finish);
    assert!(p.result.robots_sitemap_hints.is_empty());
    assert_eq!(p.result.sitemap_urls.len(), 2);
    assert_eq!(p.result.error, None);
}

#[test]
fn a_probe_gives_up_on_a_robots_line_cut_inside_a_character() {
    let (p, _) = probe_start("https://example.com/");
    let (p, _) = probe_step(p, ok(200, "https://example.com/", "<title>x</title>"));
    let (_, a) = probe_step(p, ok(200, "https://example.com/robots.txt", "abcdefg\u{e9}xyz\n"));
    assert_eq!(a, ProbeAction::Abort);
}

const INDEX: &str = "<sitemapindex><sitemap><loc>https://example.com/posts.xml</loc></sitemap>\
<sitemap><loc>https://other.org/x.xml</loc></sitemap>\
<sitemap><loc>https://example.com/about</loc></sitemap></sitemapindex>";
const POSTS: &str = "<urlset><url><loc>https://example.com/p/1</loc></url>\
<url><loc>https://example.com/sitemap_index.xml</loc></url></urlset>";

fn fetched_url(a: &WalkAction) -> String {
    match a {
        WalkAction::Fetch(u) => u.clone(),
        WalkAction::Done(_) => panic!("walk ended early"),
    }
}

#[test]
fn a_walk_reads_nested_sitemaps_of_the_site_once() {
    let (w, a) = walk_start(example_base(), "https://example.com/sitemap_index.xml", 2);
    assert_eq!(fetched_url(&a), "https://example.com/sitemap_index.xml");
    let (w, a) = walk_step(w, ok(200, "https://example.com/sitemap_index.xml", INDEX));
    assert_eq!(fetched_url(&a), "https://example.com/posts.xml");
    let (_, a) = walk_step(w, ok(200, "https://example.com/posts.xml", POSTS));
    let nodes = match a {
        WalkAction::Done(Ok(n)) => n,
        _ => panic!("walk should be over"),
    };
    assert_eq!(nodes.len(), 2);
    assert_eq!(nodes[0].loc, "https://example.com/posts.xml");
    assert_eq!(nodes[0].title.as_deref(), Some("posts.xml"));
    assert_eq!(nodes[0].children.len(), 2);
    assert_eq!(nodes[0].children[0].title.as_deref(), Some("1"));
    assert!(nodes[0].children[1].children.is_empty());
    assert_eq!(nodes[1].loc, "https://example.com/about");
    assert!(nodes[1].children.is_empty());
}

#[test]
fn a_walk_never_fetches_a_document_twice() {
    let (w, _) = walk_start(example_base(), "https://example.com/sitemap_index.xml", 3);
    let (w, a) = walk_step(w, ok(200, "https://example.com/sitemap_index.xml", INDEX));
    assert_eq!(fetched_url(&a), "https://example.com/posts.xml");
    let (_, a) = walk_step(w, ok(200, "https://example.com/posts.xml", POSTS));
    match a {
        WalkAction::Done(Ok(nodes)) => {
            assert_eq!(nodes[0].children[1].loc, "https://example.com/sitemap_index.xml");
            assert!(nodes[0].children[1].children.is_empty());
        },
        _ => panic!("the index must not be fetched again"),
    }
}

#[test]
fn a_walk_fails_with_its_fetch_and_skips_bad_answers() {
    let (w, _) = walk_start(example_base(), "https://example.com/sitemap.xml", 2);
    let (_, a) = walk_step(w, FetchOutcome::Failed("dns error".to_string()));
    assert!(matches!(a, WalkAction::Done(Err(e)) if e == "dns error"));
    let (w, _) = walk_start(example_base(), "https://example.com/sitemap.xml", 2);
    let (_, a) = walk_step(w, ok(500, "https://example.com/sitemap.xml", ""));
    assert!(matches!(a, WalkAction::Done(Ok(n)) if n.is_empty()));
    let (w, _) = walk_start(example_base(), "https://example.com/sitemap.xml", 2);
    let (_, a) = walk_step(w, ok(200, "https://example.com/sitemap.xml", "<a></b>"));
    assert!(matches!(a, WalkAction::Done(Err(_))));
}

#[test]
fn a_sitemap_tree_hangs_from_the_site() {
    let mut c = PinnedSiteConfig {
        id: "ex".to_string(),
        url: "https://example.com/".to_string(),
        title: "Example".to_string(),
        manifest: None,
        sitemap: None,
        feeds: Vec::new(),
        search: None,
    };
    c.sitemap = Some(SitemapConfigToml {
        present: true,
        source: Some("https://example.com/sitemap.xml".to_string()),
        max_depth: 1,
        include_in_start_menu: true,
    });
    let store = SiteStore::from_configs(vec![c]);
    let plan = plan_sitemap(&store, "ex", 4).unwrap();
    let (w, a) = walk_plan(&plan);
    assert_eq!(fetched_url(&a), "https://example.com/sitemap.xml");
    let (_, a) = walk_step(w, ok(200, "https://example.com/sitemap.xml", INDEX));
    let children = match a {
        WalkAction::Done(Ok(n)) => n,
        _ => panic!("walk should be over"),
    };
    assert_eq!(children.len(), 2);
    assert!(children[0].children.is_empty());
    let root = sitemap_root(&plan, children);
    assert_eq!(root.loc, "https://example.com/");
    assert_eq!(root.title.as_deref(), Some("Example"));
    assert_eq!(root.children.len(), 2);
}

#[test]
fn a_manifest_of_another_origin_is_not_fetched() {
    let page = "<link rel=\"manifest\" href=\"https://cdn.other.org/m.json\">";
    let (p, _) = probe_start("https://example.com/");
    let (p, _) = probe_step(p, ok(200, "https://example.com/", page));
    assert_eq!(p.result.manifest_url.as_deref(), Some("https://cdn.other.org/m.json"));
    let (p, a) = probe_step(p, ok(404, "https://example.com/robots.txt", ""));
    assert_eq!(a, ProbeAction::Finish);
    assert!(p.result.manifest.is_none());
}

#[test]
fn the_first_manifest_and_icon_links_win() {
    let page = "<title>t</title>\
<link rel=\"manifest\" href=\"/one.json\">\
<link rel=\"manifest\" href=\"/two.json\">\
<link rel=\"icon\" href=\"/a.png\">\
<link rel=\"shortcut icon\" href=\"/b.png\">";
    let (p, _) = probe_start("https://example.com/");
    let (p, _) = probe_step(p, ok(200, "https://example.com/", page));
    assert_eq!(p.result.manifest_url.as_deref(), Some("https://example.com/one.json"));
    assert_eq!(p.result.favicon_url.as_deref(), Some("https://example.com/a.png"));
    assert_eq!(p.result.url, "https://example.com/");
}

#[test]
fn a_refused_page_is_the_whole_result() {
    let (p, _) = probe_start("https://example.com/");
    let (p, a) = probe_step(p, ok(500, "https://example.com/x", PAGE));
    assert_eq!(a, ProbeAction::Finish);
    assert_eq!(p.result.final_url.as_deref(), Some("https://example.com/x"));
    assert_eq!(p.result.error.as_deref(), Some("HTTP 500"));
    assert_eq!(p.result.title, None);
    assert_eq!(p.result.favicon_url, None);
    assert_eq!(p.result.manifest_url, None);
    assert!(p.result.sitemap_urls.is_empty() && p.result.feed_urls.is_empty());
    let (p2, a) = probe_step(p, ok(200, "https://example.com/robots.txt", ""));
    assert_eq!(a, ProbeAction::Finish);
    assert_eq!(p2.result.error.as_deref(), Some("HTTP 500"));
}
