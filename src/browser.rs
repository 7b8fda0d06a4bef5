//! Which browser executable is started.
use vstd::prelude::*;

use crate::config::Config;
use crate::paths::{first_present, first_present_index, path_exists};

verus! {

/// Where the browser is looked for when the configuration names none, in
/// the order they are probed.
pub open spec fn chrome_install_paths() -> Seq<Seq<char>> {
    seq![
        "/usr/bin/google-chrome-stable"@,
        "/usr/bin/google-chrome"@,
        "/usr/bin/chromium-browser"@,
        "/usr/bin/chromium"@,
        "/Applications/Google Chrome.app/Contents/MacOS/Google Chrome"@,
    ]
}

/// The command started when no known location holds the browser; the
/// system's search path resolves it.
pub open spec fn chrome_fallback() -> Seq<char> {
    "google-chrome"@
}

/// The executable used, given the configured path and the result of
/// probing each known location in order (`present[i]` for location `i`;
/// a location beyond `present` counts as absent).
pub open spec fn chosen_executable(chrome_path: Option<Seq<char>>, present: Seq<bool>) -> Seq<char> {
    match chrome_path {
        Some(p) => p,
        None => match first_present(present, chrome_install_paths().len() as int) {
            Some(i) => chrome_install_paths()[i],
            None => chrome_fallback(),
        },
    }
}

/// The known browser locations, in the order they are probed.
pub fn known_chrome_paths() -> (r: Vec<String>)
    ensures
        r@.map_values(|s: String| s@) == chrome_install_paths(),
{
    let r = vec![
        "/usr/bin/google-chrome-stable".to_owned(),
        "/usr/bin/google-chrome".to_owned(),
        "/usr/bin/chromium-browser".to_owned(),
        "/usr/bin/chromium".to_owned(),
        "/Applications/Google Chrome.app/Contents/MacOS/Google Chrome".to_owned(),
    ];
    assert(r@.map_values(|s: String| s@) =~= chrome_install_paths());
    r
}

/// The executable for `config`, given which known locations were found.
pub fn choose_chrome_executable(config: &Config, present: &Vec<bool>) -> (r: String)
    ensures
        r@ == chosen_executable(config@.chrome_path, present@),
{
    match &config.chrome_path {
        Some(p) => p.clone(),
        None => {
            let paths = known_chrome_paths();
            proof {
                assert(paths@.len() == chrome_install_paths().len());
            }
            match first_present_index(present, paths.len()) {
                Some(i) => {
                    assert(paths@.map_values(|s: String| s@)[i as int] == paths@[i as int]@);
                    paths[i].clone()
                },
                None => "google-chrome".to_owned(),
            }
        },
    }
}

/// The browser executable: the configured one, taken as it is, else the
/// first known location that exists, else the bare command name.
pub fn determine_chrome_executable(config: &Config) -> (r: String)
    ensures
        config@.chrome_path matches Some(p) ==> r@ == p,
        exists|present: Seq<bool>| r@ == chosen_executable(config@.chrome_path, present),
{
    let mut present: Vec<bool> = Vec::new();
    if config.chrome_path.is_none() {
        let paths = known_chrome_paths();
        let mut found = false;
        let mut i: usize = 0;
        while i < paths.len() && !found
            invariant
                i <= paths@.len(),
            decreases paths@.len() - i,
        {
            let e = path_exists(paths[i].as_str());
            present.push(e);
            found = e;
            i = i + 1;
        }
    }
    choose_chrome_executable(config, &present)
}

} // verus!
