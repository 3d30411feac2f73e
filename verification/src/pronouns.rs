//! Parsing of the comma-separated pronoun list that members register with.

use crate::text::{join, lemma_join_split_on, split_on, split_on_char};
use vstd::prelude::*;

verus! {

/// Whether Unicode gives `c` the Alphabetic property (the answer of
/// `char::is_alphabetic`).
pub uninterp spec fn alphabetic(c: char) -> bool;

/// Whether `c` is alphabetic.
///
/// Trusted: calls `char::is_alphabetic`, which std documents as telling
/// whether the char has the Unicode Alphabetic property; the result is a
/// function of `c` alone and is named `alphabetic` here. Which chars have
/// the property is left unsaid: the Unicode tables take pages.
#[verifier::external_body]
pub(crate) fn is_alphabetic(c: char) -> (b: bool)
    ensures
        b == alphabetic(c),
{
    c.is_alphabetic()
}

/// Longest pronoun set accepted, in characters.
pub const MAX_PRONOUN_CHARS: usize = 10;

/// A character allowed in a pronoun set: alphabetic, or `/`.
pub open spec fn pronoun_char_allowed(c: char) -> bool {
    alphabetic(c) || c == '/'
}

/// Every character of `p` is allowed.
pub open spec fn pronoun_chars_allowed(p: Seq<char>) -> bool {
    forall|i: int| 0 <= i < p.len() ==> pronoun_char_allowed(#[trigger] p[i])
}

/// A pronoun set that registration accepts.
pub open spec fn pronoun_valid(p: Seq<char>) -> bool {
    pronoun_chars_allowed(p) && p.len() <= MAX_PRONOUN_CHARS
}

/// Why a pronoun set was refused; each variant holds the set.
#[derive(Clone, Debug)]
pub enum PronounError {
    /// A character is neither alphabetic nor `/`.
    InvalidCharacter(String),
    /// Longer than ten characters.
    TooLong(String),
}

impl PronounError {
    /// `self` is the refusal of `p`: the first check that `p` fails.
    pub open spec fn refuses(&self, p: Seq<char>) -> bool {
        match self {
            PronounError::InvalidCharacter(s) => s@ == p && !pronoun_chars_allowed(p),
            PronounError::TooLong(s) => s@ == p && pronoun_chars_allowed(p) && p.len()
                > MAX_PRONOUN_CHARS,
        }
    }

    /// The text of the error, as the member sees it.
    pub fn message(&self) -> (m: String)
        ensures
            m@ == match self {
                PronounError::InvalidCharacter(s) => "Pronoun `"@ + s@
                    + "` contains non-alphabetic character that is not `/`!"@,
                PronounError::TooLong(s) => "Pronoun `"@ + s@
                    + "` has length exceeding maximum (10)!"@,
            },
    {
        let mut m = String::from_str("Pronoun `");
        match self {
            PronounError::InvalidCharacter(s) => {
                m.append(s.as_str());
                m.append("` contains non-alphabetic character that is not `/`!");
            },
            PronounError::TooLong(s) => {
                m.append(s.as_str());
                m.append("` has length exceeding maximum (10)!");
            },
        }
        m
    }
}

/// Whether every character of `p` is allowed.
fn chars_allowed(p: &str) -> (b: bool)
    ensures
        b == pronoun_chars_allowed(p@),
{
    let n = p.unicode_len();
    let mut i: usize = 0;
    while i < n
        invariant
            n == p@.len(),
            i <= n,
            forall|j: int| 0 <= j < i ==> pronoun_char_allowed(#[trigger] p@[j]),
        decreases n - i,
    {
        let c = p.get_char(i);
        if !(is_alphabetic(c) || c == '/') {
            assert(!pronoun_char_allowed(p@[i as int]));
            return false;
        }
        i = i + 1;
    }
    true
}

/// Splits a registration string at commas and checks each pronoun set.
///
/// Accepted when every piece passes; otherwise the first piece that fails is
/// refused, for a disallowed character before its length.
pub fn parse_pronouns(pronouns: &str) -> (r: Result<Vec<String>, PronounError>)
    ensures
        match r {
            Ok(v) => {
                &&& v.deep_view() == split_on(pronouns@, ',')
                &&& forall|i: int| 0 <= i < v@.len() ==> pronoun_valid(#[trigger] v.deep_view()[i])
                &&& join(v.deep_view(), seq![',']) == pronouns@
            },
            Err(e) => exists|i: int|
                #![trigger split_on(pronouns@, ',')[i]]
                {
                    &&& 0 <= i < split_on(pronouns@, ',').len()
                    &&& forall|j: int|
                        0 <= j < i ==> pronoun_valid(#[trigger] split_on(pronouns@, ',')[j])
                    &&& !pronoun_valid(split_on(pronouns@, ',')[i])
                    &&& e.refuses(split_on(pronouns@, ',')[i])
                },
        },
        r is Ok <==> forall|i: int|
            #![trigger split_on(pronouns@, ',')[i]]
            0 <= i < split_on(pronouns@, ',').len() ==> {
                &&& split_on(pronouns@, ',')[i].len() <= MAX_PRONOUN_CHARS
                &&& forall|k: int|
                    0 <= k < split_on(pronouns@, ',')[i].len() ==> alphabetic(
                        #[trigger] split_on(pronouns@, ',')[i][k],
                    ) || split_on(pronouns@, ',')[i][k] == '/'
            },
{
    let pieces = split_on_char(pronouns, ',');
    let ghost parts = split_on(pronouns@, ',');
    let n = pieces.len();
    let mut i: usize = 0;
    while i < n
        invariant
            n == pieces@.len(),
            pieces.deep_view() == parts,
            parts == split_on(pronouns@, ','),
            i <= n,
            forall|j: int| 0 <= j < i ==> pronoun_valid(#[trigger] parts[j]),
        decreases n - i,
    {
        let pn = pieces[i].as_str();
        assert(pn@ == parts[i as int]);
        if !chars_allowed(pn) {
            let e = PronounError::InvalidCharacter(pieces[i].clone());
            assert(parts[i as int] == split_on(pronouns@, ',')[i as int]);
            proof {
                law_pronoun_valid_exactly(parts[i as int]);
            }
            return Err(e);
        }
        if pn.unicode_len() > MAX_PRONOUN_CHARS {
            let e = PronounError::TooLong(pieces[i].clone());
            assert(parts[i as int] == split_on(pronouns@, ',')[i as int]);
            proof {
                law_pronoun_valid_exactly(parts[i as int]);
            }
            return Err(e);
        }
        i = i + 1;
    }
    proof {
        lemma_join_split_on(pronouns@, ',');
        assert forall|j: int| 0 <= j < parts.len() implies {
            &&& (#[trigger] parts[j]).len() <= MAX_PRONOUN_CHARS
            &&& forall|k: int| 0 <= k < parts[j].len() ==> alphabetic(#[trigger] parts[j][k]) || parts[j][k] == '/'
        } by {
            law_pronoun_valid_exactly(parts[j]);
        }
    }
    Ok(pieces)
}

/// A pronoun set is accepted exactly when it has at most ten characters and
/// each of them is alphabetic (whatever its case or script) or `/`.
pub proof fn law_pronoun_valid_exactly(p: Seq<char>)
    ensures
        pronoun_valid(p) <==> (p.len() <= MAX_PRONOUN_CHARS && forall|k: int|
            0 <= k < p.len() ==> alphabetic(#[trigger] p[k]) || p[k] == '/'),
{
    if p.len() <= MAX_PRONOUN_CHARS && forall|k: int| 0 <= k < p.len() ==> alphabetic(#[trigger] p[k]) || p[k] == '/' {
        assert forall|k: int| 0 <= k < p.len() implies pronoun_char_allowed(#[trigger] p[k]) by {
            assert(alphabetic(p[k]) || p[k] == '/');
        }
    }
    if pronoun_valid(p) {
        assert forall|k: int| 0 <= k < p.len() implies alphabetic(#[trigger] p[k]) || p[k] == '/' by {
            assert(pronoun_char_allowed(p[k]));
        }
    }
}

} // verus!
