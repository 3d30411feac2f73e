//! What becomes of a member's nickname: the ` | <pronouns>` suffix the bot
//! appends, how it is removed again, and the messages that report it.

use crate::text::{
    byte_len, decimal, ends_with, has_suffix, lemma_utf8_len_concat, push_decimal, strip_suffix,
    utf8_len, without_suffix,
};
use crate::user_data::UserData;
use vstd::prelude::*;

verus! {

/// Longest nickname Discord accepts, in bytes.
pub const MAX_NICKNAME_BYTES: usize = 32;

/// What sits between a name and its pronoun suffix.
pub open spec fn separator() -> Seq<char> {
    " | "@
}

/// The name with ` | <pronoun>` removed from its end, when it ends so.
pub open spec fn clean_name(name: Seq<char>, pronoun: Seq<char>) -> Option<Seq<char>> {
    match without_suffix(name, pronoun) {
        Some(rest) => without_suffix(rest, separator()),
        None => None,
    }
}

/// The name with ` | <pronoun>` removed if it ends so, the name itself
/// otherwise.
pub open spec fn base_name(name: Seq<char>, pronoun: Seq<char>) -> Seq<char> {
    match clean_name(name, pronoun) {
        Some(c) => c,
        None => name,
    }
}

/// A name with the pronoun suffix appended.
pub open spec fn suffixed(name: Seq<char>, pronoun: Seq<char>) -> Seq<char> {
    name + separator() + pronoun
}

/// The name with ` | <pronoun>` removed from its end, as the bot does before
/// writing a new suffix or when it stops managing a nickname.
pub fn cleaned_nickname<'a>(name: &'a str, pronoun: &str) -> (r: Option<&'a str>)
    ensures
        match r {
            Some(c) => clean_name(name@, pronoun@) == Some(c@),
            None => clean_name(name@, pronoun@) is None,
        },
{
    match strip_suffix(name, pronoun) {
        Some(rest) => strip_suffix(rest, " | "),
        None => None,
    }
}

/// The name without its ` | <pronoun>` suffix, or unchanged when it has none.
pub fn base_nickname<'a>(name: &'a str, pronoun: &str) -> (r: &'a str)
    ensures
        r@ == base_name(name@, pronoun@),
{
    match cleaned_nickname(name, pronoun) {
        Some(c) => c,
        None => name,
    }
}

/// `name | pronoun`.
pub fn suffixed_nickname(name: &str, pronoun: &str) -> (r: String)
    ensures
        r@ == suffixed(name@, pronoun@),
{
    let mut r = String::from_str(name);
    r.append(" | ");
    r.append(pronoun);
    r
}

/// Removing the suffix from a suffixed name gives the name back.
pub proof fn law_clean_undoes_suffix(name: Seq<char>, pronoun: Seq<char>)
    ensures
        clean_name(suffixed(name, pronoun), pronoun) == Some(name),
{
    let s = suffixed(name, pronoun);
    assert(s.subrange(s.len() - pronoun.len(), s.len() as int) =~= pronoun);
    let rest = s.subrange(0, s.len() - pronoun.len());
    assert(rest =~= name + separator());
    assert(rest.subrange(rest.len() - separator().len(), rest.len() as int) =~= separator());
    assert(rest.subrange(0, rest.len() - separator().len()) =~= name);
}

/// The first pronoun set of greatest byte length with that length, or
/// `(0, "")` when none is longer than zero bytes.
pub open spec fn longest_pronoun(ps: Seq<Seq<char>>) -> (nat, Seq<char>)
    decreases ps.len(),
{
    if ps.len() == 0 {
        (0, Seq::empty())
    } else {
        let prev = longest_pronoun(ps.drop_last());
        if utf8_len(ps.last()) > prev.0 {
            (utf8_len(ps.last()), ps.last())
        } else {
            prev
        }
    }
}

/// The warning that a name plus a pronoun set is `excess` bytes too long.
pub open spec fn too_long_warning(which: Seq<char>, pronoun: Seq<char>, excess: nat) -> Seq<char> {
    "Warning: your current name plus your "@ + which + " pronouns (`"@ + pronoun + "`) are "@
        + decimal(excess)
        + " characters too long. I will only attempt to modify your nickname if it doesn't require truncation."@
}

/// What an update of a member's nickname amounts to: the nickname to set, if
/// any, and the report for the member.
#[derive(Debug)]
pub struct NicknameUpdate {
    pub nickname: Option<String>,
    pub message: String,
}

/// The report when the nickname was set.
pub open spec fn changed_message() -> Seq<char> {
    "Successfully changed your current nickname."@
}

/// The report when the bot stopped managing a nickname.
pub open spec fn cleaned_message() -> Seq<char> {
    "Successfully cleaned your nickname."@
}

/// The nickname update for a member who lets the bot manage their nickname:
/// the old suffix (for pronoun set `old`) comes off, the current set goes on
/// when the result fits in 32 bytes, and warnings report what does not fit.
pub open spec fn nickname_update_spec(name: Seq<char>, data: crate::user_data::UserDataView, old: Seq<char>) -> (
    Option<Seq<char>>,
    Seq<char>,
) {
    let cleaned = base_name(name, old);
    let longest = longest_pronoun(data.pronouns);
    let current = data.current_text();
    let first: Seq<Seq<char>> = if utf8_len(cleaned) + longest.0 + 3 > MAX_NICKNAME_BYTES {
        seq![
            too_long_warning(
                "longest"@,
                longest.1,
                (utf8_len(cleaned) + longest.0 + 3 - MAX_NICKNAME_BYTES) as nat,
            ),
        ]
    } else {
        Seq::empty()
    };
    let fits = utf8_len(cleaned) + 3 + utf8_len(current) <= MAX_NICKNAME_BYTES;
    let last = if fits {
        changed_message()
    } else {
        too_long_warning(
            "current"@,
            current,
            (utf8_len(cleaned) + utf8_len(current) + 3 - MAX_NICKNAME_BYTES) as nat,
        )
    };
    (
        if fits {
            Some(suffixed(cleaned, current))
        } else {
            None
        },
        crate::text::join(first.push(last), seq!['\n']),
    )
}

/// The longest pronoun set, as `longest_pronoun` picks it.
fn longest_of(pronouns: &Vec<String>) -> (r: (usize, &str))
    ensures
        r.0 == longest_pronoun(pronouns.deep_view()).0,
        r.1@ == longest_pronoun(pronouns.deep_view()).1,
{
    let ghost ps = pronouns.deep_view();
    let mut best_len: usize = 0;
    let mut best: &str = "";
    proof {
        reveal_strlit("");
        assert(ps.take(0) =~= Seq::<Seq<char>>::empty());
    }
    let n = pronouns.len();
    let mut i: usize = 0;
    while i < n
        invariant
            n == pronouns@.len(),
            ps == pronouns.deep_view(),
            i <= n,
            best_len == longest_pronoun(ps.take(i as int)).0,
            best@ == longest_pronoun(ps.take(i as int)).1,
        decreases n - i,
    {
        proof {
            assert(ps.take(i + 1).drop_last() =~= ps.take(i as int));
        }
        let len = byte_len(pronouns[i].as_str());
        if len > best_len {
            best_len = len;
            best = pronouns[i].as_str();
        }
        i = i + 1;
    }
    assert(ps.take(n as int) =~= ps);
    (best_len, best)
}

/// Appends `too_long_warning(which, pronoun, excess)`.
fn push_too_long_warning(out: &mut String, which: &str, pronoun: &str, excess: u128)
    ensures
        final(out)@ == old(out)@ + too_long_warning(which@, pronoun@, excess as nat),
{
    out.append("Warning: your current name plus your ");
    out.append(which);
    out.append(" pronouns (`");
    out.append(pronoun);
    out.append("`) are ");
    push_decimal(out, excess);
    out.append(
        " characters too long. I will only attempt to modify your nickname if it doesn't require truncation.",
    );
    assert(out@ =~= old(out)@ + too_long_warning(which@, pronoun@, excess as nat));
}

/// Plans the nickname of a member who lets the bot manage it, from their
/// current display name and `old`, the pronoun set their suffix may still
/// show.
pub fn update_member_nickname(name: &str, data: &UserData, old: &str) -> (r: NicknameUpdate)
    requires
        data.current_in_range(),
    ensures
        (match r.nickname {
            Some(n) => Some(n@),
            None => None,
        }) == nickname_update_spec(name@, data@, old@).0,
        r.message@ == nickname_update_spec(name@, data@, old@).1,
        r.nickname is Some <==> utf8_len(base_name(name@, old@)) + 3 + utf8_len(data.current_text())
            <= MAX_NICKNAME_BYTES,
        r.nickname matches Some(n) ==> n@ == suffixed(base_name(name@, old@), data.current_text()),
{
    let cleaned = base_nickname(name, old);
    let (longest_len, longest) = longest_of(&data.pronouns);
    let current = data.current_pronoun();
    let cleaned_len = byte_len(cleaned) as u128;
    let current_len = byte_len(current) as u128;
    let limit = MAX_NICKNAME_BYTES as u128;
    let mut message = String::new();
    let ghost first: Seq<Seq<char>>;
    if cleaned_len + longest_len as u128 + 3 > limit {
        push_too_long_warning(&mut message, "longest", longest, cleaned_len + longest_len as u128 + 3 - limit);
        message.append("\n");
        proof {
            reveal_strlit("\n");
            first = seq![too_long_warning("longest"@, longest@, (cleaned_len + longest_len + 3 - limit) as nat)];
        }
    } else {
        proof {
            first = Seq::empty();
        }
    }
    let ghost prefix = message@;
    let nickname;
    let ghost last: Seq<char>;
    if cleaned_len + 3 + current_len <= limit {
        nickname = Some(suffixed_nickname(cleaned, current));
        message.append("Successfully changed your current nickname.");
        proof {
            last = changed_message();
        }
    } else {
        nickname = None;
        push_too_long_warning(&mut message, "current", current, cleaned_len + current_len + 3 - limit);
        proof {
            last = too_long_warning("current"@, current@, (cleaned_len + current_len + 3 - limit) as nat);
        }
    }
    proof {
        let parts = first.push(last);
        if first.len() == 0 {
            assert(parts.len() == 1);
            assert(message@ =~= last);
        } else {
            assert(parts.drop_last() =~= first);
            assert(crate::text::join(first, seq!['\n']) == first[0]);
            assert(message@ =~= first[0] + seq!['\n'] + last);
        }
    }
    NicknameUpdate { nickname, message }
}

/// Plans the nickname of a member when the bot stops managing it or when
/// the member has not asked for it: the ` | <pronoun>` suffix comes off when
/// present.
pub fn clean_member_nickname(name: &str, pronoun: &str) -> (r: NicknameUpdate)
    ensures
        (match r.nickname {
            Some(n) => Some(n@),
            None => None,
        }) == clean_name(name@, pronoun@),
        r.message@ == cleaned_message(),
{
    let nickname = match cleaned_nickname(name, pronoun) {
        Some(c) => Some(String::from_str(c)),
        None => None,
    };
    NicknameUpdate { nickname, message: String::from_str("Successfully cleaned your nickname.") }
}

/// Plans a member's nickname after their registration changed: managed
/// nicknames get the current suffix (replacing one for `old`), others lose
/// the suffix of the current set.
pub fn update_member(name: &str, data: &UserData, old: &str) -> (r: NicknameUpdate)
    requires
        data.current_in_range(),
    ensures
        data.change_nickname ==> (match r.nickname {
            Some(n) => Some(n@),
            None => None,
        }) == nickname_update_spec(name@, data@, old@).0 && r.message@ == nickname_update_spec(
            name@,
            data@,
            old@,
        ).1,
        !data.change_nickname ==> (match r.nickname {
            Some(n) => Some(n@),
            None => None,
        }) == clean_name(name@, data.current_text()) && r.message@ == cleaned_message(),
{
    if data.change_nickname {
        update_member_nickname(name, data, old)
    } else {
        clean_member_nickname(name, data.current_pronoun())
    }
}


/// The first index from `i` on whose pronoun set the name ends with (after
/// ` | `), if any.
pub open spec fn suffix_index_from(name: Seq<char>, ps: Seq<Seq<char>>, i: int) -> Option<int>
    decreases ps.len() - i,
{
    if i < 0 || i >= ps.len() {
        None
    } else if clean_name(name, ps[i]) is Some {
        Some(i)
    } else {
        suffix_index_from(name, ps, i + 1)
    }
}

/// What the bot does at start-up to a managed nickname: where it ends with
/// the suffix of a set other than the current one, the suffix is swapped for
/// the current set; where it ends with no set's suffix, it is updated as
/// after a registration change with no previous set; otherwise it is left.
pub open spec fn startup_nickname_spec(name: Seq<char>, data: crate::user_data::UserDataView) -> Option<Seq<char>> {
    if !data.change_nickname {
        None
    } else {
        match suffix_index_from(name, data.pronouns, 0) {
            Some(i) => if i != data.current {
                Some(suffixed(clean_name(name, data.pronouns[i]).unwrap(), data.current_text()))
            } else {
                None
            },
            None => nickname_update_spec(name, data, Seq::empty()).0,
        }
    }
}

/// The nickname to set at start-up for a member with display name `name`,
/// if any.
pub fn startup_nickname(name: &str, data: &UserData) -> (r: Option<String>)
    requires
        data.current_in_range(),
    ensures
        (match r {
            Some(n) => Some(n@),
            None => None,
        }) == startup_nickname_spec(name@, data@),
{
    if !data.change_nickname {
        return None;
    }
    let ghost ps = data@.pronouns;
    let n = data.pronouns.len();
    let mut i: usize = 0;
    while i < n
        invariant
            n == ps.len(),
            ps == data@.pronouns,
            data.current_in_range(),
            data.change_nickname,
            i <= n,
            suffix_index_from(name@, ps, 0) == suffix_index_from(name@, ps, i as int),
        decreases n - i,
    {
        assert(data.pronouns@[i as int]@ == ps[i as int]);
        match cleaned_nickname(name, data.pronouns[i].as_str()) {
            Some(cleaned) => {
                assert(suffix_index_from(name@, ps, i as int) == Some(i as int));
                if i != data.current {
                    return Some(suffixed_nickname(cleaned, data.current_pronoun()));
                } else {
                    return None;
                }
            },
            None => {
                assert(suffix_index_from(name@, ps, i as int) == suffix_index_from(name@, ps, i + 1));
            },
        }
        i = i + 1;
    }
    proof {
        reveal_strlit("");
    }
    let update = update_member_nickname(name, data, "");
    update.nickname
}

/// The warnings in a nickname update's report, when the nickname was set
/// and something was reported besides.
pub open spec fn warnings_of(message: Seq<char>) -> Option<Seq<char>> {
    match without_suffix(message, changed_message()) {
        Some(rest) => if rest.len() > 0 {
            Some(rest)
        } else {
            None
        },
        None => None,
    }
}

/// The warnings in a nickname update's report, for the list of per-server
/// problems of a command run in direct messages.
pub fn nickname_warnings(message: &str) -> (r: Option<String>)
    ensures
        (match r {
            Some(w) => Some(w@),
            None => None,
        }) == warnings_of(message@),
{
    match strip_suffix(message, "Successfully changed your current nickname.") {
        Some(rest) => if rest.unicode_len() > 0 {
            Some(String::from_str(rest))
        } else {
            None
        },
        None => None,
    }
}

/// Whether a nickname must be redone after the pronoun sets changed: the bot
/// manages it, the current set changed, and the name still ends with the
/// old current set.
pub fn should_refresh_nickname(before: &UserData, new_current: &str, name: &str) -> (b: bool)
    requires
        before.current_in_range(),
    ensures
        b == (before.change_nickname && before.current_text() != new_current@ && has_suffix(
            name@,
            before.current_text(),
        )),
{
    let old_current = before.current_pronoun();
    before.change_nickname && !crate::text::str_equal(old_current, new_current) && ends_with(
        name,
        old_current,
    )
}

/// What the daily update does to one member's name.
#[derive(Debug)]
pub struct DailyNickname {
    /// The name to list the member under.
    pub listed: String,
    /// The nickname to set, if any.
    pub nickname: Option<String>,
    /// The member asked for a managed nickname but the new one would not
    /// fit.
    pub too_long: bool,
}

/// The daily update of one member's name: a managed name loses the suffix
/// of the previous set and, if it fits, gains the current one; it is listed
/// without a suffix. Other names are listed as they are.
pub fn daily_nickname(name: &str, previous: &str, current: &str, change_nickname: bool) -> (r: DailyNickname)
    ensures
        change_nickname ==> {
            let cleaned = base_name(name@, previous@);
            let fits = utf8_len(cleaned) + utf8_len(current@) + 3 <= MAX_NICKNAME_BYTES;
            &&& r.listed@ == cleaned
            &&& r.too_long == !fits
            &&& (match r.nickname {
                Some(n) => Some(n@),
                None => None,
            }) == if fits {
                Some(suffixed(cleaned, current@))
            } else {
                None
            }
        },
        !change_nickname ==> r.listed@ == name@ && r.nickname is None && !r.too_long,
{
    if change_nickname {
        let cleaned = base_nickname(name, previous);
        let fits = (byte_len(cleaned) as u128) + (byte_len(current) as u128) + 3 <= MAX_NICKNAME_BYTES as u128;
        let nickname = if fits {
            Some(suffixed_nickname(cleaned, current))
        } else {
            None
        };
        DailyNickname { listed: String::from_str(cleaned), nickname, too_long: !fits }
    } else {
        DailyNickname { listed: String::from_str(name), nickname: None, too_long: false }
    }
}

} // verus!
