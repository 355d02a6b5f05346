//! The string-similarity scorer behind the matching cascade's last step.

use vstd::prelude::*;

verus! {

/// The best-scoring candidate for a title under trigram similarity, first in
/// list order among ties; nothing when the list is empty.
pub uninterp spec fn fuzzy_best(title: Seq<char>, candidates: Seq<Seq<char>>) -> Option<Seq<char>>;

/// Relies on `rust_fuzzy_search::fuzzy_search_best_n`: trigram scores depend
/// on the two strings alone, the sort is stable and descending, and with
/// `n = 1` the call returns the best-scoring candidate of the list (so an
/// element of it), or nothing when the list is empty.
#[verifier::external_body]
pub fn fuzzy_best_match(title: &str, candidates: &Vec<String>) -> (r: Option<String>)
    ensures
        (match r {
            Some(t) => fuzzy_best(title@, candidates.deep_view()) == Some(t@),
            None => fuzzy_best(title@, candidates.deep_view()) is None,
        }),
        r is Some <==> candidates@.len() > 0,
        (match r {
            Some(t) => exists|i: int|
                0 <= i < candidates@.len() && #[trigger] candidates@[i]@ == t@,
            None => true,
        }),
{
    let list: Vec<&str> = candidates.iter().map(String::as_str).collect();
    let best = rust_fuzzy_search::fuzzy_search_best_n(title, &list, 1);
    best.into_iter().next().map(|p| p.0.to_string())
}

/// What case-folding a string yields; the result depends on the characters
/// alone.
pub uninterp spec fn lower_of(s: Seq<char>) -> Seq<char>;

/// Relies on `str::to_lowercase`: returns the lowercase equivalent of the
/// string slice, a function of its characters alone.
#[verifier::external_body]
pub fn lowercase(s: &str) -> (r: String)
    ensures
        r@ == lower_of(s@),
        s@.len() == 0 ==> r@.len() == 0,
{
    s.to_lowercase()
}

} // verus!
