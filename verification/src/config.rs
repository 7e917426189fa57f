//! The settings of one run.

use vstd::prelude::*;

verus! {

/// What the user asked for.
#[derive(Debug, Clone, PartialEq, Eq)]
pub struct Config {
    /// Change nothing on disk, only report what would be done.
    pub dry_run: bool,
    /// Handle every file, also those not touched since the last run.
    pub force: bool,
    /// Where renamed files go; the input directory itself when absent.
    pub output_dir: Option<String>,
    /// The path template, without the extension.
    pub fmt: String,
    /// The directories to search; the current one when absent.
    pub paths: Option<Vec<String>>,
}

/// The template for a file's place under the output directory.
pub open spec fn default_fmt() -> Seq<char> {
    "{artist}/{album}/{track} {title}"@
}

impl Config {
    /// The settings of a run without any option given.
    pub fn new() -> (cfg: Config)
        ensures
            !cfg.dry_run,
            !cfg.force,
            cfg.output_dir is None,
            cfg.fmt@ == default_fmt(),
            cfg.paths is None,
    {
        Config {
            dry_run: false,
            force: false,
            output_dir: None,
            fmt: "{artist}/{album}/{track} {title}".to_owned(),
            paths: None,
        }
    }
}

} // verus!
