//! The values of the command line, and the default place of the config.

use crate::config;
use crate::paths;
use crate::paths::path_join;
use vstd::prelude::*;
use vstd::string::*;

verus! {

/// How a command prints its result.
#[derive(Debug, Clone, Copy, PartialEq, Eq, Structural)]
pub enum OutputFormat {
    Human,
    Json,
}

/// The arguments of `jobs add`.
#[derive(Debug)]
pub struct JobsAddArgs {
    pub every: Option<String>,
    pub at: Option<String>,
    pub on_day: Option<i64>,
    pub last_day: bool,
    pub cron: Option<String>,
    pub command: Option<String>,
    pub cwd: Option<String>,
    pub timeout: Option<String>,
    pub overlap: Option<String>,
    pub retry: Option<i64>,
    pub id: Option<String>,
    pub title: Option<String>,
    pub disabled: bool,
    pub format: OutputFormat,
}

/// The config's path under the home directory; without a home, relative to the current one.
pub fn default_config_path(home: Option<&str>) -> (r: String)
    ensures
        r@ == paths::joined_path(
            paths::home_or_empty(config::opt_str_view(home)),
            ".config/periodic/periodic.config.yaml"@,
        ),
{
    path_join(paths::home_or(home), ".config/periodic/periodic.config.yaml")
}

} // verus!
