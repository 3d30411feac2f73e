//! Fuzzy filtering of autocomplete suggestions.

use fuzzy_matcher::skim::SkimMatcherV2;
use fuzzy_matcher::FuzzyMatcher;
use vstd::prelude::*;

verus! {

/// The score skim's default matcher gives `choice` for `pattern`, if it
/// matches at all (the result of `SkimMatcherV2::fuzzy_match`).
pub uninterp spec fn skim_score(choice: Seq<char>, pattern: Seq<char>) -> Option<i64>;

/// `c` with an ASCII capital letter turned into lowercase.
pub open spec fn ascii_lower(c: char) -> char {
    if 'A' <= c <= 'Z' {
        ((c as u32) + 32) as char
    } else {
        c
    }
}

/// The pattern holds an ASCII capital letter (skim then matches case
/// sensitively).
pub open spec fn has_ascii_upper(p: Seq<char>) -> bool {
    exists|i: int| 0 <= i < p.len() && 'A' <= #[trigger] p[i] <= 'Z'
}

/// Characters match: exactly when case sensitive, up to ASCII case
/// otherwise.
pub open spec fn chars_match(c: char, p: char, case_sensitive: bool) -> bool {
    if case_sensitive {
        c == p
    } else {
        ascii_lower(c) == ascii_lower(p)
    }
}

/// The pattern's characters occur in `choice` in order, matched greedily
/// from the left.
pub open spec fn in_order(choice: Seq<char>, pattern: Seq<char>, case_sensitive: bool) -> bool
    decreases choice.len(),
{
    if pattern.len() == 0 {
        true
    } else if choice.len() == 0 {
        false
    } else if chars_match(choice[0], pattern[0], case_sensitive) {
        in_order(choice.drop_first(), pattern.drop_first(), case_sensitive)
    } else {
        in_order(choice.drop_first(), pattern, case_sensitive)
    }
}

/// skim accepts `choice` for `pattern`: the pattern's characters occur in
/// order, case sensitively exactly when the pattern holds a capital letter.
pub open spec fn skim_accepts(choice: Seq<char>, pattern: Seq<char>) -> bool {
    in_order(choice, pattern, has_ascii_upper(pattern))
}

/// The score of `choice` for `pattern`, if it matches.
///
/// Trusted: calls `FuzzyMatcher::fuzzy_match` of fuzzy-matcher's
/// `SkimMatcherV2::default()`. The score is a function of the two strings
/// alone and is named `skim_score` here (the scoring matrix takes pages).
/// What the source shows of when there is a score is stated: an empty
/// pattern scores 0; otherwise there is a score exactly when the pattern's
/// characters occur in order in the choice (its `cheap_matches`), compared
/// with `eq_ignore_ascii_case` unless the pattern holds an ASCII capital.
#[verifier::external_body]
fn fuzzy_score(choice: &str, pattern: &str) -> (r: Option<i64>)
    ensures
        r == skim_score(choice@, pattern@),
        r is Some <==> skim_accepts(choice@, pattern@),
        pattern@.len() == 0 ==> r == Some(0i64),
{
    SkimMatcherV2::default().fuzzy_match(choice, pattern)
}

/// The candidates that skim accepts for the pattern, in their order.
pub open spec fn matching(candidates: Seq<Seq<char>>, pattern: Seq<char>) -> Seq<Seq<char>>
    decreases candidates.len(),
{
    if candidates.len() == 0 {
        Seq::empty()
    } else {
        let rest = matching(candidates.drop_last(), pattern);
        if skim_score(candidates.last(), pattern) is Some {
            rest.push(candidates.last())
        } else {
            rest
        }
    }
}

/// Keeps the suggestions that fuzzily match what the member typed so far.
pub fn filter_candidates(candidates: Vec<String>, partial: &str) -> (r: Vec<String>)
    ensures
        r.deep_view() == matching(candidates.deep_view(), partial@),
        partial@.len() == 0 ==> r.deep_view() == candidates.deep_view(),
{
    let ghost all = candidates.deep_view();
    let mut r: Vec<String> = Vec::new();
    let n = candidates.len();
    let mut i: usize = 0;
    assert(all.take(0) =~= Seq::<Seq<char>>::empty());
    while i < n
        invariant
            n == candidates@.len(),
            all == candidates.deep_view(),
            i <= n,
            r.deep_view() == matching(all.take(i as int), partial@),
            partial@.len() == 0 ==> r.deep_view() == all.take(i as int),
        decreases n - i,
    {
        assert(all.take(i + 1).drop_last() =~= all.take(i as int));
        assert(all.take(i + 1).last() == candidates@[i as int]@);
        let ghost before = r.deep_view();
        if fuzzy_score(candidates[i].as_str(), partial).is_some() {
            r.push(candidates[i].clone());
            assert(r.deep_view() =~= before.push(candidates@[i as int]@));
        }
        assert(partial@.len() == 0 ==> r.deep_view() =~= all.take(i + 1));
        i = i + 1;
    }
    assert(all.take(n as int) =~= all);
    r
}

} // verus!
