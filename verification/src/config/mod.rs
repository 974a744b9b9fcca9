//! Configuration: where it lives, the bundled template, and the model it decodes to.

pub mod env;
pub mod maps;
pub mod merge;
pub mod model;

use vstd::prelude::*;

use crate::config::env::{join_path, joined_path};

verus! {

/// The template written to `config.toml` when no configuration exists yet.
pub const DEFAULT_CONFIG_TEMPLATE: &'static str = "# tx configuration\n#\n# Top-level defaults.\nprovider = \"codex\"\nsearch_mode = \"first_prompt\"\n\n# A provider is a command-line assistant that tx launches.\n[providers.codex]\nbin = \"codex\"\nflags = []\nenv = []\nstdin_to = \"codex:exec -\"\n\n# Snippets run before (pre) or after (post) the provider.\n[snippets.pre]\n\n[snippets.post]\n\n# Wrappers run the assembled pipeline inside another command.\n[wrappers]\n\n# Profiles bundle a provider with snippets and a wrapper.\n[profiles.default]\nprovider = \"codex\"\ndescription = \"Codex with no extra steps\"\n";

/// The name of the application directory under each base directory.
pub const APP_NAME: &'static str = "tx";

/// The directories tx keeps its configuration, data and cache in.
#[derive(Debug, Clone)]
pub struct AppDirectories {
    pub config_dir: String,
    pub data_dir: String,
    pub cache_dir: String,
}

/// Where a configuration file was found.
#[derive(Debug, Clone, Copy, PartialEq, Eq, Structural)]
pub enum ConfigSourceKind {
    Main,
    DropIn,
    Project,
    ProjectDropIn,
}

/// A configuration file and where it was found.
#[derive(Debug, Clone)]
pub struct ConfigSource {
    pub kind: ConfigSourceKind,
    pub path: String,
}

/// The bundled default configuration template.
pub fn default_template() -> (r: &'static str)
    ensures
        r@ == DEFAULT_CONFIG_TEMPLATE@,
{
    DEFAULT_CONFIG_TEMPLATE
}

/// The contents written to a new `config.toml`: the template (the directories
/// do not change it).
fn default_config_contents(_dirs: &AppDirectories) -> (r: String)
    ensures
        r@ == DEFAULT_CONFIG_TEMPLATE@,
{
    DEFAULT_CONFIG_TEMPLATE.to_owned()
}

/// The bundled default configuration, for the given directories.
pub fn bundled_default_config(dirs: &AppDirectories) -> (r: String)
    ensures
        r@ == DEFAULT_CONFIG_TEMPLATE@,
{
    default_config_contents(dirs)
}

/// A base directory: the XDG variable's value when set, else `fallback` under home.
pub open spec fn xdg_dir(var: Option<Seq<char>>, home: Seq<char>, fallback: Seq<char>) -> Seq<char> {
    match var {
        Some(v) => v,
        None => joined_path(home, fallback),
    }
}

fn xdg_base(var: Option<String>, home: &str, fallback: &str) -> (r: String)
    ensures
        r@ == xdg_dir(match var { Some(v) => Some(v@), None => None }, home@, fallback@),
{
    match var {
        Some(v) => v,
        None => join_path(home, fallback),
    }
}

/// The default directories: `tx` under `$XDG_CONFIG_HOME`, `$XDG_DATA_HOME` and
/// `$XDG_CACHE_HOME`, which default to `.config`, `.local/share` and `.cache`
/// under the home directory. The caller reads the environment.
pub fn default_directories(
    home: &str,
    xdg_config: Option<String>,
    xdg_data: Option<String>,
    xdg_cache: Option<String>,
) -> (r: AppDirectories)
    ensures
        r.config_dir@ == joined_path(
            xdg_dir(match xdg_config { Some(v) => Some(v@), None => None }, home@, ".config"@),
            APP_NAME@,
        ),
        r.data_dir@ == joined_path(
            xdg_dir(match xdg_data { Some(v) => Some(v@), None => None }, home@, ".local/share"@),
            APP_NAME@,
        ),
        r.cache_dir@ == joined_path(
            xdg_dir(match xdg_cache { Some(v) => Some(v@), None => None }, home@, ".cache"@),
            APP_NAME@,
        ),
{
    let config_root = xdg_base(xdg_config, home, ".config");
    let data_root = xdg_base(xdg_data, home, ".local/share");
    let cache_root = xdg_base(xdg_cache, home, ".cache");
    AppDirectories {
        config_dir: join_path(config_root.as_str(), APP_NAME),
        data_dir: join_path(data_root.as_str(), APP_NAME),
        cache_dir: join_path(cache_root.as_str(), APP_NAME),
    }
}

/// The directories in use: the `--config-dir` argument, else `$TX_CONFIG_DIR`,
/// else the default; `$TX_DATA_DIR` and `$TX_CACHE_DIR` override the others.
pub fn resolve_directories(
    defaults: AppDirectories,
    dir_override: Option<String>,
    env_config: Option<String>,
    env_data: Option<String>,
    env_cache: Option<String>,
) -> (r: AppDirectories)
    ensures
        r.config_dir == (match dir_override {
            Some(d) => d,
            None => match env_config {
                Some(e) => e,
                None => defaults.config_dir,
            },
        }),
        r.data_dir == (match env_data {
            Some(e) => e,
            None => defaults.data_dir,
        }),
        r.cache_dir == (match env_cache {
            Some(e) => e,
            None => defaults.cache_dir,
        }),
{
    let config_dir = match dir_override {
        Some(d) => d,
        None => match env_config {
            Some(e) => e,
            None => defaults.config_dir,
        },
    };
    let data_dir = match env_data {
        Some(e) => e,
        None => defaults.data_dir,
    };
    let cache_dir = match env_cache {
        Some(e) => e,
        None => defaults.cache_dir,
    };
    AppDirectories { config_dir, data_dir, cache_dir }
}

/// Why no default directories could be found.
pub const NO_PLATFORM_DIRS: &'static str = "unable to resolve platform directories for tx";

/// The default directories from the platform: the project directories when the
/// first source knows them, else the base directories from the second; an error
/// when neither does.
pub fn resolve_default_directories_with<P, B>(project_dirs: P, base_dirs: B) -> (r: Result<(String, String, String), String>) where
    P: FnOnce() -> Option<(String, String, String)>,
    B: FnOnce() -> Option<(String, String, String)>,

    requires
        call_requires(project_dirs, ()),
        call_requires(base_dirs, ()),
    ensures
        match r {
            Ok(paths) => call_ensures(project_dirs, (), Some(paths)) || (call_ensures(
                project_dirs,
                (),
                None::<(String, String, String)>,
            ) && call_ensures(base_dirs, (), Some(paths))),
            Err(m) => call_ensures(project_dirs, (), None::<(String, String, String)>) && call_ensures(
                base_dirs,
                (),
                None::<(String, String, String)>,
            ) && m@ == NO_PLATFORM_DIRS@,
        },
{
    if let Some(paths) = project_dirs() {
        return Ok(paths);
    }
    if let Some(paths) = base_dirs() {
        return Ok(paths);
    }
    Err(NO_PLATFORM_DIRS.to_owned())
}

} // verus!
