//! Filesystem paths as text: joining them, probing them, and picking the
//! first of a list of probes that found something.
use vstd::prelude::*;

verus! {

/// The path that `std::path::Path::join` makes of `base` and `part`.
pub uninterp spec fn joined_path(base: Seq<char>, part: Seq<char>) -> Seq<char>;

/// Relies on `std::path::Path::join`: `part` appended to `base` as the
/// platform joins paths. Both are UTF-8, so the text of the result is kept
/// whole.
#[verifier::external_body]
pub(crate) fn join_path(base: &str, part: &str) -> (r: String)
    ensures
        r@ == joined_path(base@, part@),
{
    std::path::Path::new(base).join(part).to_string_lossy().into_owned()
}

/// Relies on `std::path::Path::exists`: whether something is at the path at
/// the moment of the call. What is on disk can change, so nothing is
/// promised.
#[verifier::external_body]
pub(crate) fn path_exists(p: &str) -> (r: bool) {
    std::path::Path::new(p).exists()
}

/// Relies on `dirs_next::config_dir`: the platform's per-user configuration
/// directory, as the environment gives it, or `None`.
#[verifier::external_body]
pub(crate) fn user_config_dir() -> (r: Option<String>) {
    match dirs_next::config_dir() {
        Some(d) => Some(d.to_string_lossy().into_owned()),
        None => None,
    }
}

/// The first position below `n` that `present` marks as found, if any.
pub open spec fn first_present(present: Seq<bool>, n: int) -> Option<int>
    decreases n,
{
    if n <= 0 {
        None
    } else {
        match first_present(present, n - 1) {
            Some(i) => Some(i),
            None => if n - 1 < present.len() && present[n - 1] {
                Some(n - 1)
            } else {
                None
            },
        }
    }
}

/// The first of the first `n` probe results that found something.
pub fn first_present_index(present: &Vec<bool>, n: usize) -> (r: Option<usize>)
    ensures
        r matches Some(i) ==> first_present(present@, n as int) == Some(i as int) && i < n
            && i < present@.len() && present@[i as int],
        r is None ==> first_present(present@, n as int) is None,
{
    let mut i: usize = 0;
    while i < n && i < present.len()
        invariant
            i <= n,
            first_present(present@, i as int) is None,
        decreases n - i,
    {
        if present[i] {
            proof {
                lemma_found_stays(present@, i as int + 1, n as int);
            }
            return Some(i);
        }
        i = i + 1;
    }
    proof {
        lemma_nothing_past_end(present@, i as int, n as int);
    }
    None
}

/// Once a position is found, probing further does not change it.
proof fn lemma_found_stays(present: Seq<bool>, m: int, n: int)
    requires
        0 <= m <= n,
        first_present(present, m) is Some,
    ensures
        first_present(present, n) == first_present(present, m),
    decreases n - m,
{
    if m < n {
        lemma_found_stays(present, m, n - 1);
    }
}

/// Positions past the end of `present` are never found.
proof fn lemma_nothing_past_end(present: Seq<bool>, m: int, n: int)
    requires
        0 <= m <= n,
        m == n || m >= present.len(),
        first_present(present, m) is None,
    ensures
        first_present(present, n) is None,
    decreases n - m,
{
    if m < n {
        lemma_nothing_past_end(present, m, n - 1);
    }
}

} // verus!
