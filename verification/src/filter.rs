use vstd::prelude::*;

use crate::data::{display_name, DataContext};
use crate::text::chars_of;

verus! {

/// Names what `str::to_lowercase` returns for a string: each character
/// replaced by its lowercase mapping from Unicode's tables.
pub uninterp spec fn lowercase(s: Seq<char>) -> Seq<char>;

/// Calls `str::to_lowercase` (std). Claimed: the result's characters are
/// `lowercase` of the argument's, a function of the argument alone; what
/// that mapping is, is not stated.
#[verifier::external_body]
fn to_lowercase(s: &str) -> (r: String)
    ensures
        r@ == lowercase(s@),
{
    s.to_lowercase()
}

/// `needle` occurs in `haystack` as a run of consecutive characters.
pub open spec fn occurs_in(needle: Seq<char>, haystack: Seq<char>) -> bool {
    exists|i: int|
        0 <= i && i + needle.len() <= haystack.len() && #[trigger] haystack.subrange(
            i,
            i + needle.len(),
        ) == needle
}

/// Whether `needle` occurs in `haystack`, as `str::contains` with a string
/// pattern tells.
pub fn str_contains(haystack: &str, needle: &str) -> (r: bool)
    ensures
        r == occurs_in(needle@, haystack@),
{
    let h = chars_of(haystack);
    let n = chars_of(needle);
    if n.len() > h.len() {
        return false;
    }
    let mut i: usize = 0;
    while i <= h.len() - n.len()
        invariant
            n.len() <= h.len(),
            i <= h.len() - n.len() + 1,
            h@ == haystack@,
            n@ == needle@,
            forall|j: int| 0 <= j < i ==> #[trigger] h@.subrange(j, j + n.len()) != n@,
        decreases h.len() - i,
    {
        let mut k: usize = 0;
        while k < n.len() && h[i + k] == n[k]
            invariant
                i + n.len() <= h.len(),
                k <= n.len(),
                forall|t: int| 0 <= t < k ==> h@[i + t] == n@[t],
            decreases n.len() - k,
        {
            k = k + 1;
        }
        if k == n.len() {
            proof {
                assert(h@.subrange(i as int, i + n.len()) =~= n@);
            }
            return true;
        }
        proof {
            assert(h@.subrange(i as int, i + n.len())[k as int] == h@[i + k]);
        }
        i = i + 1;
    }
    proof {
        assert forall|j: int|
            0 <= j && j + n@.len() <= h@.len() implies #[trigger] h@.subrange(j, j + n@.len()) != n@ by {
            assert(j < i);
        }
    }
    false
}

/// Whether a search string picks out the prototype `s` of `category`:
/// ignoring case, it occurs in the internal name or in the shown name.
pub open spec fn filter_matches(
    names: Map<Seq<char>, crate::common::Dict<String>>,
    s: Seq<char>,
    category: Seq<char>,
    filter_string: Seq<char>,
) -> bool {
    occurs_in(lowercase(filter_string), lowercase(s)) || occurs_in(
        lowercase(filter_string),
        lowercase(display_name(names, category, s)),
    )
}

/// Whether the search string `filter_string` picks out the prototype `s`
/// of `category`. Where the name does not match, the category must have a
/// table of shown names.
pub fn str_filter(s: &str, f: &DataContext, category: &str, filter_string: &str) -> (r: bool)
    requires
        occurs_in(lowercase(filter_string@), lowercase(s@)) || f.localized_name@.contains_key(
            category@,
        ),
    ensures
        r == filter_matches(f.localized_name@, s@, category@, filter_string@),
{
    let lower_filter = to_lowercase(filter_string);
    let lower_s = to_lowercase(s);
    if str_contains(lower_s.as_str(), lower_filter.as_str()) {
        return true;
    }
    let shown = f.get_display_name(category, s);
    let lower_shown = to_lowercase(shown.as_str());
    str_contains(lower_shown.as_str(), lower_filter.as_str())
}

/// [`str_filter`] where it can answer: `None` when the name does not
/// match and the category has no table of shown names.
pub fn try_str_filter(s: &str, f: &DataContext, category: &str, filter_string: &str) -> (r: Option<bool>)
    ensures
        r is Some <==> (occurs_in(lowercase(filter_string@), lowercase(s@)) || f.localized_name@.contains_key(
            category@,
        )),
        r matches Some(b) ==> b == filter_matches(f.localized_name@, s@, category@, filter_string@),
{
    let lower_filter = to_lowercase(filter_string);
    let lower_s = to_lowercase(s);
    if str_contains(lower_s.as_str(), lower_filter.as_str()) || f.localized_name.contains_key(category) {
        Some(str_filter(s, f, category, filter_string))
    } else {
        None
    }
}

} // verus!
