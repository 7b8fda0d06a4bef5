//! Which profile directory a URL is opened in: the longest configured
//! pattern found in the URL's host or in the URL text wins.
use vstd::prelude::*;
use vstd::utf8::encode_utf8;

use crate::config::{Config, ConfigView, MappingView, ProfileMapping};

verus! {

/// The UTF-8 bytes of a text; patterns are compared and measured in bytes.
pub open spec fn bytes_of(s: Seq<char>) -> Seq<u8> {
    encode_utf8(s)
}

/// `needle` stands in `hay` from position `i` on.
pub open spec fn occurs_at(hay: Seq<u8>, needle: Seq<u8>, i: int) -> bool {
    0 <= i && i + needle.len() <= hay.len() && hay.subrange(i, i + needle.len()) == needle
}

/// `needle` is a substring of `hay`.
pub open spec fn occurs_in(hay: Seq<u8>, needle: Seq<u8>) -> bool {
    exists|i: int| #[trigger] occurs_at(hay, needle, i)
}

fn matches_at(hay: &[u8], needle: &[u8], i: usize) -> (r: bool)
    requires
        i + needle@.len() <= hay@.len(),
    ensures
        r == (hay@.subrange(i as int, i + needle@.len()) == needle@),
{
    let n: usize = hay.len();
    let mut k: usize = 0;
    while k < needle.len()
        invariant
            k <= needle@.len(),
            n == hay@.len(),
            i + needle@.len() <= hay@.len(),
            forall|t: int| 0 <= t < k ==> hay@[i + t] == needle@[t],
        decreases needle@.len() - k,
    {
        if hay[i + k] != needle[k] {
            assert(hay@.subrange(i as int, i + needle@.len())[k as int] != needle@[k as int]);
            return false;
        }
        k = k + 1;
    }
    assert(hay@.subrange(i as int, i + needle@.len()) =~= needle@);
    true
}

/// Whether `needle` is a substring of `hay`.
pub fn contains_bytes(hay: &[u8], needle: &[u8]) -> (r: bool)
    ensures
        r == occurs_in(hay@, needle@),
{
    if needle.len() > hay.len() {
        assert(forall|j: int| !#[trigger] occurs_at(hay@, needle@, j));
        return false;
    }
    let last: usize = hay.len() - needle.len();
    let mut i: usize = 0;
    loop
        invariant
            last + needle@.len() == hay@.len(),
            i <= last,
            forall|j: int| 0 <= j < i ==> !#[trigger] occurs_at(hay@, needle@, j),
        decreases last - i,
    {
        if matches_at(hay, needle, i) {
            assert(occurs_at(hay@, needle@, i as int));
            return true;
        }
        if i == last {
            assert(forall|j: int| !#[trigger] occurs_at(hay@, needle@, j));
            return false;
        }
        i = i + 1;
    }
}

/// `pattern` is found in the host or in the URL text.
pub open spec fn pattern_hits(pattern: Seq<char>, host: Seq<char>, url: Seq<char>) -> bool {
    occurs_in(bytes_of(host), bytes_of(pattern)) || occurs_in(bytes_of(url), bytes_of(pattern))
}

/// The length of a pattern, counted in bytes.
pub open spec fn pattern_len(pattern: Seq<char>) -> nat {
    bytes_of(pattern).len()
}

/// The state of the scan: the longest matching pattern's length so far,
/// and the profile directory it selected.
pub struct Best {
    pub len: nat,
    pub directory: Option<Seq<char>>,
}

/// The scan before any pattern was looked at.
pub open spec fn no_match() -> Best {
    Best { len: 0, directory: None }
}

/// One step of the scan: a pattern replaces the current choice only when it
/// matches and is strictly longer.
pub open spec fn consider(
    best: Best,
    pattern: Seq<char>,
    directory: Seq<char>,
    host: Seq<char>,
    url: Seq<char>,
) -> Best {
    if pattern_hits(pattern, host, url) && pattern_len(pattern) > best.len {
        Best { len: pattern_len(pattern), directory: Some(directory) }
    } else {
        best
    }
}

/// The scan carried through the patterns of one mapping, in order.
pub open spec fn scan_patterns(
    best: Best,
    patterns: Seq<Seq<char>>,
    directory: Seq<char>,
    host: Seq<char>,
    url: Seq<char>,
) -> Best
    decreases patterns.len(),
{
    if patterns.len() == 0 {
        best
    } else {
        consider(
            scan_patterns(best, patterns.drop_last(), directory, host, url),
            patterns.last(),
            directory,
            host,
            url,
        )
    }
}

/// The scan carried through every pattern of every mapping, in order.
pub open spec fn scan_mappings(mappings: Seq<MappingView>, host: Seq<char>, url: Seq<char>) -> Best
    decreases mappings.len(),
{
    if mappings.len() == 0 {
        no_match()
    } else {
        let m = mappings.last();
        scan_patterns(scan_mappings(mappings.drop_last(), host, url), m.patterns, m.directory, host, url)
    }
}

/// The profile directory chosen for a URL with the given host: the scan's
/// choice, else the configured default, else `Default`.
pub open spec fn selected_profile(config: ConfigView, host: Seq<char>, url: Seq<char>) -> Seq<char> {
    match scan_mappings(config.profiles, host, url).directory {
        Some(d) => d,
        None => match config.default_profile {
            Some(d) => d,
            None => "Default"@,
        },
    }
}

/// Picks the profile directory for `url_str`, whose parsed host is `host`.
pub fn select_profile(config: &Config, url_str: &str, host: &str) -> (r: String)
    ensures
        r@ == selected_profile(config@, host@, url_str@),
{
    let host_bytes = host.as_bytes();
    let url_bytes = url_str.as_bytes();
    let ghost mappings = config@.profiles;
    let mut selected: Option<String> = None;
    let mut longest: usize = 0;
    let mut i: usize = 0;
    while i < config.profiles.len()
        invariant
            host_bytes@ == bytes_of(host@),
            url_bytes@ == bytes_of(url_str@),
            mappings == config@.profiles,
            i <= mappings.len(),
            scan_mappings(mappings.take(i as int), host@, url_str@) == (Best {
                len: longest as nat,
                directory: crate::config::opt_view(selected),
            }),
        decreases mappings.len() - i,
    {
        let mapping: &ProfileMapping = &config.profiles[i];
        let ghost before = scan_mappings(mappings.take(i as int), host@, url_str@);
        let ghost patterns = mapping@.patterns;
        let mut j: usize = 0;
        while j < mapping.url_patterns.len()
            invariant
                host_bytes@ == bytes_of(host@),
                url_bytes@ == bytes_of(url_str@),
                patterns == mapping@.patterns,
                j <= patterns.len(),
                scan_patterns(before, patterns.take(j as int), mapping@.directory, host@, url_str@)
                    == (Best { len: longest as nat, directory: crate::config::opt_view(selected) }),
            decreases patterns.len() - j,
        {
            let pattern = mapping.url_patterns[j].as_str().as_bytes();
            let plen: usize = pattern.len();
            if (contains_bytes(host_bytes, pattern) || contains_bytes(url_bytes, pattern)) && plen
                > longest {
                selected = Some(mapping.profile_directory.clone());
                longest = plen;
            }
            assert(patterns.take(j + 1).drop_last() =~= patterns.take(j as int));
            j = j + 1;
        }
        assert(patterns.take(j as int) =~= patterns);
        assert(mappings.take(i + 1).drop_last() =~= mappings.take(i as int));
        i = i + 1;
    }
    assert(mappings.take(i as int) =~= mappings);
    match selected {
        Some(d) => d,
        None => match &config.default_profile {
            Some(d) => d.clone(),
            None => "Default".to_owned(),
        },
    }
}

/// Why a URL could not be looked up.
#[derive(Debug)]
pub enum ProfileError {
    /// The text is not a URL; it is kept for the message.
    MalformedUrl(String),
}

/// The error of `url::Url::parse`, carried as it is.
#[verifier::external_type_specification]
#[verifier::external_body]
pub struct ExParseError(url::ParseError);

/// What `url::Url::parse` makes of a text: `None` when it refuses it, else
/// the host of the parsed URL, itself `None` for a URL without one.
pub uninterp spec fn parsed_host(s: Seq<char>) -> Option<Option<Seq<char>>>;

/// Relies on `url::Url::parse` to accept or refuse the text, and on
/// `Url::host_str` for the host of a URL it accepted.
#[verifier::external_body]
fn parse_url_host(s: &str) -> (r: Result<Option<String>, url::ParseError>)
    ensures
        r is Err <==> parsed_host(s@) is None,
        r matches Ok(h) ==> parsed_host(s@) == Some(crate::config::opt_view(h)),
{
    match url::Url::parse(s) {
        Ok(u) => Ok(u.host_str().map(|h| h.to_owned())),
        Err(e) => Err(e),
    }
}

/// The host that matching reads: empty for a URL without one.
pub open spec fn host_or_empty(h: Option<Seq<char>>) -> Seq<char> {
    match h {
        Some(t) => t,
        None => Seq::empty(),
    }
}

/// Picks the profile directory that `url_str` is opened in; fails only
/// when the text does not parse as a URL.
pub fn find_profile_directory(config: &Config, url_str: &str) -> (r: Result<String, ProfileError>)
    ensures
        parsed_host(url_str@) is None ==> (r matches Err(ProfileError::MalformedUrl(u))
            && u@ == url_str@),
        parsed_host(url_str@) matches Some(h) ==> (r matches Ok(p) && p@ == selected_profile(
            config@,
            host_or_empty(h),
            url_str@,
        )),
{
    match parse_url_host(url_str) {
        Err(_) => Err(ProfileError::MalformedUrl(url_str.to_owned())),
        Ok(host) => {
            let host_text: String = match host {
                Some(h) => h,
                None => String::new(),
            };
            Ok(select_profile(config, url_str, host_text.as_str()))
        },
    }
}

/// Pattern `j` of mapping `i` exists and is found in the URL or its host.
pub open spec fn hit(ms: Seq<MappingView>, i: int, j: int, host: Seq<char>, url: Seq<char>) -> bool {
    0 <= i < ms.len() && 0 <= j < ms[i].patterns.len() && pattern_hits(ms[i].patterns[j], host, url)
}

/// The length of pattern `j` of mapping `i`.
pub open spec fn len_at(ms: Seq<MappingView>, i: int, j: int) -> nat {
    pattern_len(ms[i].patterns[j])
}

/// Pattern `(i, j)` is scanned before pattern `(k, t)`.
pub open spec fn scanned_before(i: int, j: int, k: int, t: int) -> bool {
    i < k || (i == k && j < t)
}

/// `b` is what the scan knows once every pattern before `(k, t)` was seen:
/// no hit seen so far is longer, and a chosen directory belongs to a hit of
/// that length before which every hit is shorter.
spec fn summarizes(ms: Seq<MappingView>, host: Seq<char>, url: Seq<char>, k: int, t: int, b: Best) -> bool {
    &&& forall|i: int, j: int|
        #[trigger] hit(ms, i, j, host, url) && scanned_before(i, j, k, t) ==> len_at(ms, i, j) <= b.len
    &&& (b.directory is None <==> b.len == 0)
    &&& b.directory matches Some(d) ==> exists|i: int, j: int|
        #![trigger hit(ms, i, j, host, url)]
        {
            &&& hit(ms, i, j, host, url)
            &&& scanned_before(i, j, k, t)
            &&& len_at(ms, i, j) == b.len
            &&& d == ms[i].directory
            &&& forall|i2: int, j2: int|
                #[trigger] hit(ms, i2, j2, host, url) && scanned_before(i2, j2, i, j) ==> len_at(ms, i2, j2) < b.len
        }
}

proof fn lemma_scan_patterns(
    ms: Seq<MappingView>,
    host: Seq<char>,
    url: Seq<char>,
    k: int,
    t: int,
    start: Best,
)
    requires
        0 <= k < ms.len(),
        0 <= t <= ms[k].patterns.len(),
        summarizes(ms, host, url, k, 0, start),
    ensures
        summarizes(
            ms,
            host,
            url,
            k,
            t,
            scan_patterns(start, ms[k].patterns.take(t), ms[k].directory, host, url),
        ),
    decreases t,
{
    let pats = ms[k].patterns;
    if t > 0 {
        lemma_scan_patterns(ms, host, url, k, t - 1, start);
        assert(pats.take(t).drop_last() =~= pats.take(t - 1));
        let b = scan_patterns(start, pats.take(t - 1), ms[k].directory, host, url);
        let p = pats[t - 1];
        assert(pats.take(t).last() == p);
        let nb = consider(b, p, ms[k].directory, host, url);
        if pattern_hits(p, host, url) && pattern_len(p) > b.len {
            assert(hit(ms, k, t - 1, host, url));
            assert(summarizes(ms, host, url, k, t, nb));
        } else {
            if let Some(d) = b.directory {
                let (wi, wj) = choose|i: int, j: int|
                    {
                        &&& hit(ms, i, j, host, url)
                        &&& scanned_before(i, j, k, t - 1)
                        &&& len_at(ms, i, j) == b.len
                        &&& d == ms[i].directory
                        &&& forall|i2: int, j2: int|
                            #[trigger] hit(ms, i2, j2, host, url) && scanned_before(i2, j2, i, j)
                                ==> len_at(ms, i2, j2) < b.len
                    };
                assert(scanned_before(wi, wj, k, t));
            }
            assert(summarizes(ms, host, url, k, t, nb));
        }
    } else {
        assert(pats.take(0) =~= Seq::<Seq<char>>::empty());
    }
}

proof fn lemma_scan_mappings(ms: Seq<MappingView>, host: Seq<char>, url: Seq<char>, k: int)
    requires
        0 <= k <= ms.len(),
    ensures
        summarizes(ms, host, url, k, 0, scan_mappings(ms.take(k), host, url)),
    decreases k,
{
    if k > 0 {
        lemma_scan_mappings(ms, host, url, k - 1);
        assert(ms.take(k).drop_last() =~= ms.take(k - 1));
        assert(ms.take(k).last() == ms[k - 1]);
        let pats = ms[k - 1].patterns;
        lemma_scan_patterns(
            ms,
            host,
            url,
            k - 1,
            pats.len() as int,
            scan_mappings(ms.take(k - 1), host, url),
        );
        assert(pats.take(pats.len() as int) =~= pats);
    } else {
        assert(ms.take(0) =~= Seq::<MappingView>::empty());
    }
}

proof fn lemma_scan_all(ms: Seq<MappingView>, host: Seq<char>, url: Seq<char>)
    ensures
        summarizes(ms, host, url, ms.len() as int, 0, scan_mappings(ms, host, url)),
{
    lemma_scan_mappings(ms, host, url, ms.len() as int);
    assert(ms.take(ms.len() as int) =~= ms);
}

/// Longest match wins: when a non-empty configured pattern is found in the
/// URL or its host, the selected directory is that of a matching pattern
/// that no matching pattern outgrows, and every matching pattern declared
/// before it (earlier mapping, or earlier in the same mapping) is strictly
/// shorter.
pub proof fn lemma_longest_match_wins(config: ConfigView, host: Seq<char>, url: Seq<char>)
    requires
        exists|i: int, j: int|
            #[trigger] hit(config.profiles, i, j, host, url) && len_at(config.profiles, i, j) > 0,
    ensures
        exists|i: int, j: int|
            #![trigger hit(config.profiles, i, j, host, url)]
            {
                let ms = config.profiles;
                &&& hit(ms, i, j, host, url)
                &&& selected_profile(config, host, url) == ms[i].directory
                &&& forall|i2: int, j2: int|
                    #[trigger] hit(ms, i2, j2, host, url) ==> len_at(ms, i2, j2) <= len_at(ms, i, j)
                &&& forall|i2: int, j2: int|
                    #[trigger] hit(ms, i2, j2, host, url) && scanned_before(i2, j2, i, j) ==> len_at(
                        ms,
                        i2,
                        j2,
                    ) < len_at(ms, i, j)
            },
{
    let ms = config.profiles;
    lemma_scan_all(ms, host, url);
    let b = scan_mappings(ms, host, url);
    let (i0, j0) = choose|i: int, j: int|
        #[trigger] hit(ms, i, j, host, url) && len_at(ms, i, j) > 0;
    assert(scanned_before(i0, j0, ms.len() as int, 0));
    assert(b.len > 0);
    let d = b.directory->0;
    let (wi, wj) = choose|i: int, j: int|
        {
            &&& hit(ms, i, j, host, url)
            &&& scanned_before(i, j, ms.len() as int, 0)
            &&& len_at(ms, i, j) == b.len
            &&& d == ms[i].directory
            &&& forall|i2: int, j2: int|
                #[trigger] hit(ms, i2, j2, host, url) && scanned_before(i2, j2, i, j) ==> len_at(
                    ms,
                    i2,
                    j2,
                ) < b.len
        };
    assert forall|i2: int, j2: int| #[trigger] hit(ms, i2, j2, host, url) implies len_at(ms, i2, j2)
        <= len_at(ms, wi, wj) by {
        assert(scanned_before(i2, j2, ms.len() as int, 0));
    }
    assert(hit(ms, wi, wj, host, url));
}

/// A URL in which no configured pattern is found opens in the configured
/// default profile, or in `Default` when none is configured.
pub proof fn lemma_no_match_uses_default(config: ConfigView, host: Seq<char>, url: Seq<char>)
    requires
        forall|i: int, j: int| !#[trigger] hit(config.profiles, i, j, host, url),
    ensures
        selected_profile(config, host, url) == (match config.default_profile {
            Some(d) => d,
            None => "Default"@,
        }),
{
    lemma_scan_all(config.profiles, host, url);
    let b = scan_mappings(config.profiles, host, url);
    if b.directory is Some {
        let d = b.directory->0;
        let (wi, wj) = choose|i: int, j: int|
            {
                &&& hit(config.profiles, i, j, host, url)
                &&& scanned_before(i, j, config.profiles.len() as int, 0)
                &&& len_at(config.profiles, i, j) == b.len
                &&& d == config.profiles[i].directory
                &&& forall|i2: int, j2: int|
                    #[trigger] hit(config.profiles, i2, j2, host, url) && scanned_before(i2, j2, i, j)
                        ==> len_at(config.profiles, i2, j2) < b.len
            };
        assert(hit(config.profiles, wi, wj, host, url));
    }
}

/// Mappings without patterns and no default profile: every URL opens in
/// `Default`.
pub proof fn lemma_no_patterns_no_default(config: ConfigView, host: Seq<char>, url: Seq<char>)
    requires
        forall|i: int| 0 <= i < config.profiles.len() ==> #[trigger] config.profiles[i].patterns.len() == 0,
        config.default_profile is None,
    ensures
        selected_profile(config, host, url) == "Default"@,
{
    assert forall|i: int, j: int| !#[trigger] hit(config.profiles, i, j, host, url) by {
        if 0 <= i < config.profiles.len() {
            assert(config.profiles[i].patterns.len() == 0);
        }
    }
    lemma_no_match_uses_default(config, host, url);
}

} // verus!
