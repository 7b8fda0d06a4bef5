//! Where the configuration file is looked for, and where a new one is made.
use vstd::prelude::*;

use crate::config::opt_view;
use crate::paths::{first_present, first_present_index, join_path, joined_path, path_exists, user_config_dir};

verus! {

/// The configuration file's name in every location.
pub open spec fn config_file_name() -> Seq<char> {
    "config.toml"@
}

/// The folder, under the user's configuration directory, that belongs to
/// this program.
pub open spec fn user_config_folder(dir: Seq<char>) -> Seq<char> {
    joined_path(dir, "profile_switcher"@)
}

/// The configuration file under the user's configuration directory.
pub open spec fn user_config_file(dir: Seq<char>) -> Seq<char> {
    joined_path(user_config_folder(dir), config_file_name())
}

/// The locations tried, highest priority first: the user's configuration
/// directory, then the executable's directory, then the working directory
/// (or the bare file name when that is unknown). An unknown directory of
/// the first two kinds adds no location.
pub open spec fn config_candidates(
    user_dir: Option<Seq<char>>,
    exe_dir: Option<Seq<char>>,
    cwd: Option<Seq<char>>,
) -> Seq<Seq<char>> {
    let first = match user_dir {
        Some(d) => seq![user_config_file(d)],
        None => Seq::empty(),
    };
    let second = match exe_dir {
        Some(d) => seq![joined_path(d, config_file_name())],
        None => Seq::empty(),
    };
    let third = match cwd {
        Some(d) => seq![joined_path(d, config_file_name())],
        None => seq![config_file_name()],
    };
    first + second + third
}

/// The outcome of the search, given which candidates were found
/// (`present[i]` for candidate `i`): the first one found, else every
/// candidate, in the order tried.
pub open spec fn located(candidates: Seq<Seq<char>>, present: Seq<bool>) -> Result<
    Seq<char>,
    Seq<Seq<char>>,
> {
    match first_present(present, candidates.len() as int) {
        Some(i) => Ok(candidates[i]),
        None => Err(candidates),
    }
}

/// A list of strings as character sequences.
pub open spec fn texts(v: Seq<String>) -> Seq<Seq<char>> {
    v.map_values(|s: String| s@)
}

/// The search's result as character sequences.
pub open spec fn located_view(r: Result<String, Vec<String>>) -> Result<Seq<char>, Seq<Seq<char>>> {
    match r {
        Ok(p) => Ok(p@),
        Err(tried) => Err(texts(tried@)),
    }
}

/// The program's folder and configuration file under `dir`.
pub fn user_config_location(dir: &str) -> (r: (String, String))
    ensures
        r.0@ == user_config_folder(dir@),
        r.1@ == user_config_file(dir@),
{
    let folder = join_path(dir, "profile_switcher");
    let file = join_path(folder.as_str(), "config.toml");
    (folder, file)
}

/// Where a new configuration is written: the program's folder and file
/// under the user's configuration directory, when that is known.
pub fn default_config_location() -> (r: Option<(String, String)>)
    ensures
        r matches Some(loc) ==> exists|d: Seq<char>|
            loc.0@ == user_config_folder(d) && loc.1@ == user_config_file(d),
{
    match user_config_dir() {
        Some(d) => Some(user_config_location(d.as_str())),
        None => None,
    }
}

/// The locations to try, highest priority first.
pub fn candidate_config_paths(
    user_dir: &Option<String>,
    exe_dir: &Option<String>,
    cwd: &Option<String>,
) -> (r: Vec<String>)
    ensures
        texts(r@) == config_candidates(opt_view(*user_dir), opt_view(*exe_dir), opt_view(*cwd)),
{
    let mut r: Vec<String> = Vec::new();
    match user_dir {
        Some(d) => {
            let (_, file) = user_config_location(d.as_str());
            r.push(file);
        },
        None => {},
    }
    match exe_dir {
        Some(d) => r.push(join_path(d.as_str(), "config.toml")),
        None => {},
    }
    match cwd {
        Some(d) => r.push(join_path(d.as_str(), "config.toml")),
        None => r.push("config.toml".to_owned()),
    }
    assert(texts(r@) =~= config_candidates(opt_view(*user_dir), opt_view(*exe_dir), opt_view(*cwd)));
    r
}

/// The first candidate found, else the list of every candidate tried.
pub fn locate_config(candidates: &Vec<String>, present: &Vec<bool>) -> (r: Result<String, Vec<String>>)
    ensures
        located_view(r) == located(texts(candidates@), present@),
{
    match first_present_index(present, candidates.len()) {
        Some(i) => Ok(candidates[i].clone()),
        None => Err(candidates.clone()),
    }
}

/// Looks for the configuration file: each location is probed in order of
/// priority, and none after the first that exists. Returns that location,
/// or every location tried. `exe_dir` and `cwd` are the executable's and the
/// working directory, where known.
pub fn determine_config_file_path(exe_dir: Option<String>, cwd: Option<String>) -> (r: Result<
    String,
    Vec<String>,
>)
    ensures
        exists|user_dir: Option<Seq<char>>, present: Seq<bool>|
            located_view(r) == located(
                config_candidates(user_dir, opt_view(exe_dir), opt_view(cwd)),
                present,
            ),
{
    let user_dir = user_config_dir();
    let candidates = candidate_config_paths(&user_dir, &exe_dir, &cwd);
    let mut present: Vec<bool> = Vec::new();
    let mut found = false;
    let mut i: usize = 0;
    while i < candidates.len() && !found
        invariant
            i <= candidates@.len(),
        decreases candidates@.len() - i,
    {
        let e = path_exists(candidates[i].as_str());
        present.push(e);
        found = e;
        i = i + 1;
    }
    locate_config(&candidates, &present)
}

/// Once a configuration file exists at the highest-priority location, the
/// search returns that location whatever the other probes find: two runs
/// in a row give the same path, and the search itself writes nothing.
pub proof fn lemma_first_location_is_stable(
    candidates: Seq<Seq<char>>,
    first_run: Seq<bool>,
    second_run: Seq<bool>,
)
    requires
        candidates.len() > 0,
        first_run.len() > 0 && first_run[0],
        second_run.len() > 0 && second_run[0],
    ensures
        located(candidates, first_run) == Ok::<Seq<char>, Seq<Seq<char>>>(candidates[0]),
        located(candidates, second_run) == located(candidates, first_run),
{
    lemma_first_found(first_run, candidates.len() as int);
    lemma_first_found(second_run, candidates.len() as int);
}

proof fn lemma_first_found(present: Seq<bool>, n: int)
    requires
        n > 0,
        present.len() > 0 && present[0],
    ensures
        first_present(present, n) == Some(0int),
    decreases n,
{
    if n > 1 {
        lemma_first_found(present, n - 1);
    } else {
        assert(first_present(present, 0) is None);
    }
}

} // verus!
