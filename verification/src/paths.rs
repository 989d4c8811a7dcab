//! Where the shell keeps its web objects, search providers, caches and
//! desktop entries.
use vstd::prelude::*;

use crate::search::{join_path, path_join};

verus! {

/// The shell's directories.
#[derive(Debug, Clone)]
pub struct XpdePaths {
    /// `<config>/xpde`.
    pub config: String,
    /// `<config>/xpde/web-objects`: one `<id>.toml` per pinned site.
    pub web_objects: String,
    /// `<config>/xpde/search-providers`: the user's search providers.
    pub search_providers: String,
    /// `<cache>/xpde/web`: bodies fetched from the web.
    pub cache_web: String,
    /// `<local data>/xpde/web`: per-site state.
    pub state_web: String,
    /// `<data>/applications`: the desktop entries of pinned sites.
    pub applications: String,
}

/// The text of [`XpdePaths`].
pub struct XpdePathsView {
    pub config: Seq<char>,
    pub web_objects: Seq<char>,
    pub search_providers: Seq<char>,
    pub cache_web: Seq<char>,
    pub state_web: Seq<char>,
    pub applications: Seq<char>,
}

impl View for XpdePaths {
    type V = XpdePathsView;

    open spec fn view(&self) -> XpdePathsView {
        XpdePathsView {
            config: self.config@,
            web_objects: self.web_objects@,
            search_providers: self.search_providers@,
            cache_web: self.cache_web@,
            state_web: self.state_web@,
            applications: self.applications@,
        }
    }
}

/// The directories laid out under the user's configuration, cache, local
/// data and data directories.
pub open spec fn paths_under(
    config: Seq<char>,
    cache: Seq<char>,
    data_local: Seq<char>,
    data: Seq<char>,
) -> XpdePathsView {
    let cfg = path_join(config, "xpde"@);
    XpdePathsView {
        config: cfg,
        web_objects: path_join(cfg, "web-objects"@),
        search_providers: path_join(cfg, "search-providers"@),
        cache_web: path_join(path_join(cache, "xpde"@), "web"@),
        state_web: path_join(path_join(data_local, "xpde"@), "web"@),
        applications: path_join(data, "applications"@),
    }
}

/// The message given when a base directory is unknown: the first of the
/// configuration, cache, local data and data directories that is missing.
pub open spec fn missing_dir_message(
    config: Option<Seq<char>>,
    cache: Option<Seq<char>>,
    data_local: Option<Seq<char>>,
    data: Option<Seq<char>>,
) -> Seq<char> {
    if config is None {
        "no config directory (XDG)"@
    } else if cache is None {
        "no cache directory (XDG)"@
    } else if data_local is None {
        "no local data directory (XDG)"@
    } else {
        "no data directory (XDG)"@
    }
}

impl XpdePaths {
    /// Lays the shell's directories out under the user's base directories;
    /// an error names the first one that is unknown.
    pub fn from_base_dirs(
        config: Option<String>,
        cache: Option<String>,
        data_local: Option<String>,
        data: Option<String>,
    ) -> (r: Result<XpdePaths, String>)
        ensures
            match (config, cache, data_local, data) {
                (Some(c), Some(k), Some(l), Some(d)) => r matches Ok(p) && p@ == paths_under(
                    c@,
                    k@,
                    l@,
                    d@,
                ),
                _ => r matches Err(e) && e@ == missing_dir_message(
                    crate::ipc::opt_view(config),
                    crate::ipc::opt_view(cache),
                    crate::ipc::opt_view(data_local),
                    crate::ipc::opt_view(data),
                ),
            },
    {
        proof {
            reveal_strlit("no config directory (XDG)");
            reveal_strlit("no cache directory (XDG)");
            reveal_strlit("no local data directory (XDG)");
            reveal_strlit("no data directory (XDG)");
        }
        let c = match config {
            Some(c) => c,
            None => return Err(String::from_str("no config directory (XDG)")),
        };
        let k = match cache {
            Some(k) => k,
            None => return Err(String::from_str("no cache directory (XDG)")),
        };
        let l = match data_local {
            Some(l) => l,
            None => return Err(String::from_str("no local data directory (XDG)")),
        };
        let d = match data {
            Some(d) => d,
            None => return Err(String::from_str("no data directory (XDG)")),
        };
        let cfg = join_path(c.as_str(), "xpde");
        let web_objects = join_path(cfg.as_str(), "web-objects");
        let search_providers = join_path(cfg.as_str(), "search-providers");
        let cache_x = join_path(k.as_str(), "xpde");
        let cache_web = join_path(cache_x.as_str(), "web");
        let local_x = join_path(l.as_str(), "xpde");
        let state_web = join_path(local_x.as_str(), "web");
        let applications = join_path(d.as_str(), "applications");
        Ok(XpdePaths {
            config: cfg,
            web_objects,
            search_providers,
            cache_web,
            state_web,
            applications,
        })
    }

    /// The file that holds the configuration of the pinned site `id`:
    /// `<web_objects>/<id>.toml`.
    pub fn site_config_path(&self, id: &str) -> (r: String)
        ensures
            r@ == path_join(self.web_objects@, id@ + ".toml"@),
    {
        let mut name = String::from_str(id);
        name.append(".toml");
        join_path(self.web_objects.as_str(), name.as_str())
    }

    /// The desktop entry of the pinned site `id`:
    /// `<applications>/xpde-web-<id>.desktop`.
    pub fn site_desktop_path(&self, id: &str) -> (r: String)
        ensures
            r@ == path_join(self.applications@, "xpde-web-"@ + id@ + ".desktop"@),
    {
        let mut name = String::from_str("xpde-web-");
        name.append(id);
        name.append(".desktop");
        join_path(self.applications.as_str(), name.as_str())
    }

    /// The state directory of the pinned site `id`: `<state_web>/<id>`.
    pub fn site_state_dir(&self, id: &str) -> (r: String)
        ensures
            r@ == path_join(self.state_web@, id@),
    {
        join_path(self.state_web.as_str(), id)
    }
}

} // verus!
