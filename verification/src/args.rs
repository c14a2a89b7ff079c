//! The command surface: the subcommands and the render invocation's
//! arguments, as plain data. Parsing a command line into them is the
//! caller's side.
use vstd::prelude::*;

use crate::walker::path_join;
use crate::walker::Template;

verus! {

/// The render invocation: the target directory, the configuration file to
/// use, and the force and debug switches.
pub struct RenderCommand {
    pub root: String,
    pub config: String,
    pub force: bool,
    pub debug: bool,
}

pub struct InitCommand {}

pub enum HelpFormat {
    Text,
    Json,
}

pub enum Command {
    Render(RenderCommand),
    Init(InitCommand),
    Version { output_format: HelpFormat },
}

/// The configuration file read when none is named.
pub fn default_config_path() -> (r: &'static str)
    ensures
        r@ == "./etch.config.toml"@,
{
    "./etch.config.toml"
}

/// A relative configuration path resolves relative to the render root, not
/// the process working directory; an absolute one stands as it is.
pub fn config_path_for(root: &str, config: &str, config_is_relative: bool) -> (r: String)
    ensures
        r@ == (if config_is_relative {
            path_join(root@, config@)
        } else {
            config@
        }),
{
    if config_is_relative {
        crate::walker::join_path(root, config)
    } else {
        config.to_owned()
    }
}

/// What one run did: which templates were freshly written and which were
/// identical, by relative path.
pub struct RenderSummary {
    pub written: Vec<String>,
    pub identical: Vec<String>,
}

impl RenderSummary {
    pub fn new() -> (r: RenderSummary)
        ensures
            r.written@.len() == 0,
            r.identical@.len() == 0,
    {
        RenderSummary { written: Vec::new(), identical: Vec::new() }
    }

    /// Records one rendered template under the outcome the lockfile decided.
    pub fn record(&mut self, template: &Template, written: bool)
        ensures
            written ==> final(self).written@ == old(self).written@.push(template.rel_path)
                && final(self).identical == old(self).identical,
            !written ==> final(self).identical@ == old(self).identical@.push(template.rel_path)
                && final(self).written == old(self).written,
    {
        if written {
            self.written.push(template.rel_path.clone());
        } else {
            self.identical.push(template.rel_path.clone());
        }
    }
}

} // verus!
