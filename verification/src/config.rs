//! Where the user configuration lives, and the names the theme switcher
//! offers.

use vstd::prelude::*;

use crate::paths::{join_path, path_join};
use crate::strings::concat;

verus! {

/// The command-bar name of the built-in default theme (and default font).
pub const BUILTIN_THEME: &'static str = "(default)";

/// `dirs::config_dir`: the platform's per-user configuration directory
/// (an absolute `$XDG_CONFIG_HOME`, else `$HOME/.config` on Linux), when it
/// can be determined and is valid UTF-8. It depends on the process's
/// environment variables and home directory, so nothing is stated of the
/// value.
#[verifier::external_body]
fn user_config_dir() -> Option<String> {
    dirs::config_dir().and_then(|d| d.to_str().map(|s| s.to_string()))
}

/// The application's directory under a configuration base directory.
pub fn config_dir_in(base: &str) -> (r: String)
    ensures
        r@ == join_path(base@, "flow-state"@),
{
    path_join(base, "flow-state")
}

/// `~/.config/flow-state` (or the platform's equivalent), if the platform
/// has a configuration directory.
pub fn config_dir() -> (r: Option<String>)
    ensures
        r matches Some(p) ==> exists|base: Seq<char>| p@ == join_path(base, "flow-state"@),
{
    match user_config_dir() {
        Some(base) => Some(config_dir_in(base.as_str())),
        None => None,
    }
}

/// The files whose changes trigger a reload, in the configuration directory
/// `dir`: `config.toml`, and the selected theme's file under `themes/` when
/// a theme is selected.
pub open spec fn watched(dir: Seq<char>, theme: Seq<char>) -> Seq<Seq<char>> {
    let config = join_path(dir, "config.toml"@);
    if theme.len() > 0 {
        seq![config, join_path(join_path(dir, "themes"@), theme + ".toml"@)]
    } else {
        seq![config]
    }
}

/// The files watched for changes (see [`watched`]).
pub fn watched_files(dir: &str, theme: &str) -> (r: Vec<String>)
    ensures
        r@.map_values(|f: String| f@) == watched(dir@, theme@),
{
    let mut files: Vec<String> = Vec::new();
    files.push(path_join(dir, "config.toml"));
    if theme.unicode_len() > 0 {
        let themes = path_join(dir, "themes");
        let name = concat(theme, ".toml");
        files.push(path_join(themes.as_str(), name.as_str()));
    }
    assert(files@.map_values(|f: String| f@) =~= watched(dir@, theme@));
    files
}

} // verus!
