//! Where the app keeps its config file and diagnostics log.
use vstd::prelude::*;

use crate::notes::{is_white_space, spec_lowercase};
use crate::path::{join, spec_join};
use crate::text::to_string;

verus! {

/// The app's directories and the files in them.
#[derive(Debug, Clone, PartialEq, Eq)]
pub struct AppPaths {
    pub config_dir: String,
    pub config_file: String,
    pub diagnostics_dir: String,
    pub diagnostics_log: String,
}

/// The paths derived from a config directory and a data directory.
pub open spec fn paths_match_dirs(p: AppPaths, config_dir: Seq<char>, data_dir: Seq<char>) -> bool {
    &&& p.config_dir@ == config_dir
    &&& p.config_file@ == spec_join(config_dir, "config.json"@)
    &&& p.diagnostics_dir@ == spec_join(data_dir, "diagnostics"@)
    &&& p.diagnostics_log@ == spec_join(spec_join(data_dir, "diagnostics"@), "web-notes.log"@)
}

/// Why the app's directories could not be found.
#[derive(Debug, Clone, PartialEq, Eq)]
pub enum PathsError {
    NoProjectDirectories,
}

impl PathsError {
    /// A message for the user.
    pub fn message(&self) -> (r: String)
        ensures
            r@ == "unable to determine application directories"@,
    {
        to_string("unable to determine application directories")
    }
}

/// Whether `s` ends with `t`.
pub open spec fn has_suffix(s: Seq<char>, t: Seq<char>) -> bool {
    t.len() <= s.len() && s.skip(s.len() - t.len()) == t
}

/// The runs of non-white-space chars of `s`, in order (what
/// `str::split_whitespace` gives).
pub open spec fn words(s: Seq<char>) -> Seq<Seq<char>>
    decreases s.len(),
{
    if s.len() == 0 {
        Seq::empty()
    } else {
        let prev = words(s.drop_last());
        let c = s.last();
        if is_white_space(c) {
            prev
        } else if s.len() >= 2 && !is_white_space(s[s.len() - 2]) && prev.len() > 0 {
            prev.update(prev.len() - 1, prev.last().push(c))
        } else {
            prev.push(seq![c])
        }
    }
}

/// The words of a name, each lower-cased, run together.
pub open spec fn lowercase_words(ws: Seq<Seq<char>>) -> Seq<char>
    decreases ws.len(),
{
    if ws.len() == 0 {
        Seq::empty()
    } else {
        lowercase_words(ws.drop_last()) + spec_lowercase(ws.last())
    }
}

/// The project folder name on Linux: the application name lower-cased,
/// without white space.
pub open spec fn linux_project_path(application: Seq<char>) -> Seq<char> {
    lowercase_words(words(application))
}

/// `s` with every space replaced by `-`.
pub open spec fn dash_spaces(s: Seq<char>) -> Seq<char> {
    s.map_values(|c: char| if c == ' ' { '-' } else { c })
}

/// The non-empty parts joined by `.`.
pub open spec fn join_dotted(parts: Seq<Seq<char>>) -> Seq<char>
    decreases parts.len(),
{
    if parts.len() == 0 {
        Seq::empty()
    } else {
        let prev = join_dotted(parts.drop_last());
        let last = parts.last();
        if last.len() == 0 {
            prev
        } else if prev.len() == 0 {
            last
        } else {
            prev + seq!['.'] + last
        }
    }
}

/// The project folder name on macOS: the bundle id
/// `qualifier.organization.application`, spaces in the last two made `-`,
/// empty parts left out.
pub open spec fn macos_project_path(qualifier: Seq<char>, organization: Seq<char>, application: Seq<char>) -> Seq<char> {
    join_dotted(seq![qualifier, dash_spaces(organization), dash_spaces(application)])
}

/// The config and local data directories that `directories` gives a
/// project: on Linux both end with the Linux project folder name (under the
/// XDG config and data homes); on macOS both are the same directory, ending
/// with the bundle id (under `Library/Application Support`).
pub open spec fn project_dirs_fit(
    config_dir: Seq<char>,
    data_dir: Seq<char>,
    qualifier: Seq<char>,
    organization: Seq<char>,
    application: Seq<char>,
) -> bool {
    ||| {
        &&& has_suffix(config_dir, linux_project_path(application))
        &&& has_suffix(data_dir, linux_project_path(application))
    }
    ||| {
        &&& data_dir == config_dir
        &&& has_suffix(config_dir, macos_project_path(qualifier, organization, application))
    }
}

/// `directories::ProjectDirs::from(qualifier, organization, application)`,
/// giving the project's config directory and local data directory as text
/// (non-UTF-8 bytes replaced). Whether it succeeds depends on the
/// environment (it fails when no home directory is found), and the leading
/// part of each directory (the home or XDG directory) is not stated. What is
/// stated is how the directories end, on the Unix targets this library's
/// paths are written for: `directories` joins onto the base directory, on
/// Linux, the application name split at white space with each word
/// lower-cased by `str::to_lowercase`, and on macOS the bundle id, which it
/// uses for both directories. Windows is not covered.
#[verifier::external_body]
fn project_dirs(qualifier: &str, organization: &str, application: &str) -> (r: Option<(String, String)>)
    ensures
        r matches Some((c, d)) ==> project_dirs_fit(c@, d@, qualifier@, organization@, application@),
{
    directories::ProjectDirs::from(qualifier, organization, application).map(
        |dirs| (
            dirs.config_dir().to_string_lossy().into_owned(),
            dirs.data_local_dir().to_string_lossy().into_owned(),
        ),
    )
}

impl AppPaths {
    /// The app's paths under the platform's directories for
    /// "dev"/"openai"/"web-notes".
    pub fn detect() -> (r: Result<Self, PathsError>)
        ensures
            r is Ok ==> exists|c: Seq<char>, d: Seq<char>|
                #[trigger] paths_match_dirs(r->Ok_0, c, d) && project_dirs_fit(
                    c,
                    d,
                    "dev"@,
                    "openai"@,
                    "web-notes"@,
                ),
            r is Err ==> r->Err_0 == PathsError::NoProjectDirectories,
    {
        match project_dirs("dev", "openai", "web-notes") {
            Some((config_dir, data_dir)) => {
                let p = Self::from_dirs(config_dir.as_str(), data_dir.as_str());
                let r: Result<Self, PathsError> = Ok(p);
                assert(paths_match_dirs(r->Ok_0, config_dir@, data_dir@));
                r
            },
            None => Err(PathsError::NoProjectDirectories),
        }
    }

    /// The config file in `config_dir`, and the diagnostics log in a
    /// `diagnostics` directory under `data_dir`.
    pub fn from_dirs(config_dir: &str, data_dir: &str) -> (r: Self)
        ensures
            paths_match_dirs(r, config_dir@, data_dir@),
    {
        let diagnostics_dir = join(data_dir, "diagnostics");
        AppPaths {
            config_file: join(config_dir, "config.json"),
            diagnostics_log: join(diagnostics_dir.as_str(), "web-notes.log"),
            config_dir: to_string(config_dir),
            diagnostics_dir,
        }
    }
}

/// The path of the config file.
pub fn default_config_path() -> (r: Result<String, PathsError>)
    ensures
        match r {
            Ok(p) => exists|c: Seq<char>, d: Seq<char>|
                #[trigger] project_dirs_fit(c, d, "dev"@, "openai"@, "web-notes"@) && p@ == spec_join(
                    c,
                    "config.json"@,
                ),
            Err(e) => e == PathsError::NoProjectDirectories,
        },
{
    match AppPaths::detect() {
        Ok(paths) => {
            proof {
                let (c, d) = choose|c: Seq<char>, d: Seq<char>|
                    paths_match_dirs(paths, c, d) && project_dirs_fit(c, d, "dev"@, "openai"@, "web-notes"@);
                assert(paths.config_file@ == spec_join(c, "config.json"@));
                assert(project_dirs_fit(c, d, "dev"@, "openai"@, "web-notes"@));
            }
            Ok(paths.config_file)
        },
        Err(e) => Err(e),
    }
}

} // verus!
