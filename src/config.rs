//! The configuration: profile mappings, a default profile and an optional
//! browser path.
use vstd::prelude::*;

verus! {

/// One profile and the URL patterns that select it.
pub struct ProfileMapping {
    /// A label for the user; it plays no part in matching.
    pub name: String,
    /// The browser's profile directory that a match selects.
    pub profile_directory: String,
    /// Plain substrings tested against the URL and its host.
    pub url_patterns: Vec<String>,
}

/// What a profile mapping means: its texts as character sequences.
pub struct MappingView {
    pub name: Seq<char>,
    pub directory: Seq<char>,
    pub patterns: Seq<Seq<char>>,
}

impl View for ProfileMapping {
    type V = MappingView;

    open spec fn view(&self) -> MappingView {
        MappingView {
            name: self.name@,
            directory: self.profile_directory@,
            patterns: self.url_patterns@.map_values(|p: String| p@),
        }
    }
}

/// The user's configuration, as read from `config.toml`.
pub struct Config {
    /// The profile used when no pattern matches.
    pub default_profile: Option<String>,
    /// The mappings, scanned in this order.
    pub profiles: Vec<ProfileMapping>,
    /// The browser executable, when the user names one.
    pub chrome_path: Option<String>,
}

/// What a configuration means.
pub struct ConfigView {
    pub default_profile: Option<Seq<char>>,
    pub profiles: Seq<MappingView>,
    pub chrome_path: Option<Seq<char>>,
}

/// An optional text as an optional character sequence.
pub open spec fn opt_view(o: Option<String>) -> Option<Seq<char>> {
    match o {
        Some(s) => Some(s@),
        None => None,
    }
}

impl View for Config {
    type V = ConfigView;

    open spec fn view(&self) -> ConfigView {
        ConfigView {
            default_profile: opt_view(self.default_profile),
            profiles: self.profiles@.map_values(|m: ProfileMapping| m@),
            chrome_path: opt_view(self.chrome_path),
        }
    }
}

/// The configuration that is written when none exists yet.
pub fn default_config_template() -> (r: String)
    ensures
        r@ == config_template(),
{
    CONFIG_TEMPLATE.to_owned()
}

/// The text of the configuration written when none exists yet.
pub open spec fn config_template() -> Seq<char> {
    CONFIG_TEMPLATE@
}

/// The built-in configuration, also shown as an example when none is found.
pub const CONFIG_TEMPLATE: &'static str = "# profile_switcher configuration\n\
# The profile used when no pattern below matches a URL.\n\
default_profile = \"Default\"\n\
\n\
# The browser executable; leave it out to have a well-known location probed.\n\
# chrome_path = \"/usr/bin/google-chrome-stable\"\n\
\n\
# Each [[profiles]] block maps URL patterns (plain substrings) to a profile\n\
# directory. When several patterns match, the longest one wins.\n\
[[profiles]]\n\
name = \"Work\"\n\
profile_directory = \"Profile 1\"\n\
url_patterns = [\"github.com\", \"internal.example.com\"]\n\
\n\
[[profiles]]\n\
name = \"Personal\"\n\
profile_directory = \"Profile 2\"\n\
url_patterns = [\"youtube.com\"]\n";

} // verus!
