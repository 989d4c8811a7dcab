use xpde::cache::spill_path;
use xpde::ipc::{default_depth, default_poll, default_true, WebManifestSummary};
use xpde::paths::XpdePaths;
use xpde::shell::{launch_command, ShellConfig, ShellDBus};

#[test]
fn ping_answers_pong() {
    assert_eq!(ShellDBus.ping(), "pong");
}

#[test]
fn the_default_session_is_xpde() {
    assert_eq!(ShellConfig::default().session_name, "xpde");
}

#[test]
fn launching_goes_through_a_user_scope() {
    assert_eq!(
        launch_command("firefox.desktop"),
        vec!["systemd-run", "--user", "--scope", "--", "gtk-launch", "firefox.desktop"]
    );
}

#[test]
fn defaults_of_the_configuration_files() {
    assert!(default_true());
    assert_eq!(default_depth(), 2);
    assert_eq!(default_poll(), 30);
    let m = WebManifestSummary::empty();
    assert!(m.name.is_none() && m.short_name.is_none() && m.theme_color.is_none());
}

#[test]
fn paths_are_laid_out_under_the_base_directories() {
    let p = XpdePaths::from_base_dirs(
        Some("/home/u/.config".to_string()),
        Some("/home/u/.cache".to_string()),
        Some("/home/u/.local/share".to_string()),
        Some("/home/u/.local/share".to_string()),
    )
    .unwrap();
    assert_eq!(p.config, "/home/u/.config/xpde");
    assert_eq!(p.web_objects, "/home/u/.config/xpde/web-objects");
    assert_eq!(p.search_providers, "/home/u/.config/xpde/search-providers");
    assert_eq!(p.cache_web, "/home/u/.cache/xpde/web");
    assert_eq!(p.state_web, "/home/u/.local/share/xpde/web");
    assert_eq!(p.applications, "/home/u/.local/share/applications");
    assert_eq!(p.site_config_path("debian"), "/home/u/.config/xpde/web-objects/debian.toml");
    assert_eq!(p.site_desktop_path("debian"), "/home/u/.local/share/applications/xpde-web-debian.desktop");
    assert_eq!(p.site_state_dir("debian"), "/home/u/.local/share/xpde/web/debian");
}

#[test]
fn a_missing_base_directory_is_named() {
    let some = |s: &str| Some(s.to_string());
    let e = XpdePaths::from_base_dirs(None, None, None, None).unwrap_err();
    assert_eq!(e, "no config directory (XDG)");
    let e = XpdePaths::from_base_dirs(some("/c"), None, some("/l"), some("/d")).unwrap_err();
    assert_eq!(e, "no cache directory (XDG)");
    let e = XpdePaths::from_base_dirs(some("/c"), some("/k"), None, some("/d")).unwrap_err();
    assert_eq!(e, "no local data directory (XDG)");
    let e = XpdePaths::from_base_dirs(some("/c"), some("/k"), some("/l"), None).unwrap_err();
    assert_eq!(e, "no data directory (XDG)");
}

#[test]
fn bodies_spill_to_the_hash_of_their_url() {
    assert_eq!(
        spill_path("/tmp/cache", "https://example.com/sitemap.xml"),
        "/tmp/cache/e8dddeb9ea4e26bb9c0654f4cc7a30e375a4b76e07515c209b523538664d9c3a.bin"
    );
}
