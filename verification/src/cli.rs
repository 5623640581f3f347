//! The command line surface: arguments, the download plan and logging
//! defaults.

use vstd::prelude::*;

use crate::engine::{default_name, default_output_for};
use crate::error::Error;
use crate::model::DownloadRequest;
use crate::path::{output_fault_matches, output_path_violation, validate_output_path};
use crate::text::push_str;
use crate::url::{url_parse, Url};

verus! {

/// Download a single resource to disk.
pub struct DownloadCmd {
    /// The URL to download. Must be `http` or `https`.
    pub url: String,
    /// Local file path to write the download to. May be relative or
    /// absolute. If omitted, the filename is derived from the URL and the
    /// file is written to the current directory.
    pub output: Option<String>,
    /// Overwrite the output file if it already exists.
    pub overwrite: bool,
}

/// Available subcommands.
pub enum Command {
    /// Download a single URL.
    Download(DownloadCmd),
    /// Print version information and exit.
    Version,
}

/// Top-level command line.
pub struct Cli {
    /// Verbosity: how often `-v` was given.
    pub verbose: u8,
    /// Suppress all non-error output.
    pub quiet: bool,
    /// The subcommand.
    pub command: Command,
}

/// The redirect cap of a download started from the command line.
pub const CLI_MAX_REDIRECTS: usize = 10;

/// Turns the `download` arguments into a request: the URL must parse
/// (`InvalidUrl("could not parse URL: ...")` otherwise), an explicit output
/// must pass [`validate_output_path`], and a missing one is derived from
/// the URL.
pub fn plan_download(cmd: &DownloadCmd) -> (r: Result<DownloadRequest, Error>)
    ensures
        url_parse(cmd.url@) matches Err(m) ==> (r matches Err(Error::InvalidUrl(t)) && t@
            == "could not parse URL: "@ + m),
        url_parse(cmd.url@) is Ok && cmd.output is Some && output_path_violation(
            cmd.output.unwrap()@,
        ) is Some ==> (r matches Err(e) && output_fault_matches(
            output_path_violation(cmd.output.unwrap()@).unwrap(),
            e,
        )),
        url_parse(cmd.url@) is Ok && (cmd.output is None || output_path_violation(
            cmd.output.unwrap()@,
        ) is None) ==> (r matches Ok(req) && req.url@ == url_parse(cmd.url@)->Ok_0
            && req.output@ == (match cmd.output {
            Some(p) => p@,
            None => default_name(url_parse(cmd.url@)->Ok_0),
        }) && req.overwrite == cmd.overwrite && req.max_redirects == CLI_MAX_REDIRECTS),
{
    let url = match Url::parse(cmd.url.as_str()) {
        Ok(u) => u,
        Err(Error::InvalidUrl(e)) => {
            let mut m = String::new();
            push_str(&mut m, "could not parse URL: ");
            push_str(&mut m, e.as_str());
            return Err(Error::InvalidUrl(m));
        },
        Err(other) => {
            return Err(other);
        },
    };
    let output = match &cmd.output {
        Some(p) => {
            validate_output_path(p.as_str())?;
            p.clone()
        },
        None => default_output_for(&url),
    };
    Ok(DownloadRequest { url, output, overwrite: cmd.overwrite, max_redirects: CLI_MAX_REDIRECTS })
}

/// The log level used when neither a flag nor the environment says more.
pub open spec fn default_level(verbose: u8, quiet: bool) -> Seq<char> {
    if quiet {
        "warn"@
    } else if verbose == 0 {
        "info"@
    } else if verbose == 1 {
        "debug"@
    } else {
        "trace"@
    }
}

/// The filter used while a progress bar is drawn, so log lines do not
/// break it.
pub open spec fn progress_filter() -> Seq<char> {
    "warn,odm_download_engine=info,odm_http_client=warn,odm_storage=warn"@
}

/// The logging filter: with a progress bar and neither `-v` nor `-q`, the
/// quiet progress filter; otherwise the filter from the environment when it
/// holds a valid one (`env_filter`), else the default level.
pub fn log_filter(verbose: u8, quiet: bool, has_progress: bool, env_filter: Option<String>) -> (r:
    String)
    ensures
        has_progress && verbose == 0 && !quiet ==> r@ == progress_filter(),
        !(has_progress && verbose == 0 && !quiet) ==> r@ == (match env_filter {
            Some(f) => f@,
            None => default_level(verbose, quiet),
        }),
{
    let mut r = String::new();
    if has_progress && verbose == 0 && !quiet {
        push_str(&mut r, "warn,odm_download_engine=info,odm_http_client=warn,odm_storage=warn");
        return r;
    }
    match env_filter {
        Some(f) => f,
        None => {
            if quiet {
                push_str(&mut r, "warn");
            } else if verbose == 0 {
                push_str(&mut r, "info");
            } else if verbose == 1 {
                push_str(&mut r, "debug");
            } else {
                push_str(&mut r, "trace");
            }
            r
        },
    }
}

/// The line the `version` subcommand prints.
pub fn version_line() -> (r: String)
    ensures
        r@ == "OpenDownloadManager "@ + version_text() + " (Phase 1 CLI)"@,
{
    let mut r = String::new();
    push_str(&mut r, "OpenDownloadManager ");
    push_str(&mut r, app_version());
    push_str(&mut r, " (Phase 1 CLI)");
    r
}


/// The human-readable application name.
pub fn app_name() -> (r: &'static str)
    ensures
        r@ == "OpenDownloadManager"@,
{
    "OpenDownloadManager"
}

/// The application version.
pub open spec fn version_text() -> Seq<char> {
    "0.1.0"@
}

/// The current application version.
pub fn app_version() -> (r: &'static str)
    ensures
        r@ == version_text(),
{
    "0.1.0"
}

} // verus!
