//! Properties of the registry and of nicknames that hold across operations.

use crate::nickname::{
    base_name, changed_message, clean_name, law_clean_undoes_suffix, longest_pronoun,
    nickname_update_spec, separator, startup_nickname_spec, suffix_index_from, suffixed,
    MAX_NICKNAME_BYTES,
};
use crate::registry::{
    all_rerolled, changed_for, daily_pass, daily_step, pass_keeps, pronouns_rel, quietly_rerolled,
    registered_anywhere, registered_in, reroll_rel, well_formed, with_user, without_user, ServerView,
};
use crate::text::{has_suffix, join, lemma_utf8_len_concat, utf8_len};
use crate::random::{is_draw, lemma_draw_in_range};
use crate::user_data::UserDataView;
use vstd::prelude::*;

verus! {

/// A registration that was stored can be read back: the member is
/// registered in that server with exactly the stored value, and nothing
/// else changed.
pub proof fn law_registration_is_read_back(
    d: Map<u64, ServerView>,
    guild: u64,
    user: u64,
    data: UserDataView,
)
    requires
        d.contains_key(guild),
    ensures
        ({
            let after = d.insert(guild, with_user(d[guild], user, data));
            &&& registered_in(after, guild, user)
            &&& after[guild].users[user] == data
            &&& forall|g: u64, u: u64|
                (g != guild || u != user) ==> (registered_in(after, g, u) <==> registered_in(d, g, u))
        }),
{
}

/// After deregistration the member is no longer registered in that server,
/// and every other registration stays.
pub proof fn law_deregistration_forgets(d: Map<u64, ServerView>, guild: u64, user: u64)
    requires
        d.contains_key(guild),
    ensures
        ({
            let after = d.insert(guild, without_user(d[guild], user));
            &&& !registered_in(after, guild, user)
            &&& forall|g: u64, u: u64|
                (g != guild || u != user) ==> (registered_in(after, g, u) <==> registered_in(d, g, u))
        }),
{
}

/// After deregistering everywhere the member is registered nowhere.
pub proof fn law_deregistered_everywhere(old: Map<u64, ServerView>, new: Map<u64, ServerView>, user: u64)
    requires
        new.dom() == old.dom(),
        forall|g: u64| #[trigger] old.contains_key(g) ==> new[g] == without_user(old[g], user),
    ensures
        !registered_anywhere(new, user),
{
    assert forall|g: u64| !#[trigger] registered_in(new, g, user) by {
        if new.contains_key(g) {
            assert(old.contains_key(g));
        }
    }
}

/// A reroll of a registration with at least one pronoun set points at one
/// of its sets, and a member with a single set always has it current.
pub proof fn law_reroll_stays_in_range(new: UserDataView, old: UserDataView)
    requires
        old.pronouns.len() > 0,
        new.is_reroll_of(old),
    ensures
        new.current_in_range(),
        old.pronouns.len() == 1 ==> new.current == 0,
{
}

/// Storing a registration whose current index is in range keeps the
/// registry well formed.
pub proof fn law_registration_keeps_well_formed(
    d: Map<u64, ServerView>,
    guild: u64,
    user: u64,
    data: UserDataView,
)
    requires
        well_formed(d),
        d.contains_key(guild),
        data.current_in_range(),
    ensures
        well_formed(d.insert(guild, with_user(d[guild], user, data))),
{
    let after = d.insert(guild, with_user(d[guild], user, data));
    assert forall|g: u64, u: u64| #[trigger] registered_in(after, g, u) implies after[g].users[u].current_in_range() by {
        if g != guild || u != user {
            assert(registered_in(d, g, u));
        }
    }
}

/// Rerolling a member everywhere keeps the registry well formed.
pub proof fn law_reroll_keeps_well_formed(old: Map<u64, ServerView>, new: Map<u64, ServerView>, user: u64)
    requires
        well_formed(old),
        new.dom() == old.dom(),
        forall|g: u64| #[trigger] old.contains_key(g) ==> changed_for(new[g], old[g], user, reroll_rel()),
    ensures
        well_formed(new),
{
    assert forall|g: u64, u: u64| #[trigger] registered_in(new, g, u) implies new[g].users[u].current_in_range() by {
        assert(old.contains_key(g));
        assert(changed_for(new[g], old[g], user, reroll_rel()));
        assert(registered_in(old, g, u));
        if u == user {
            assert(reroll_rel()(new[g].users[u], old[g].users[u]));
        }
    }
}

/// Replacing a member's pronoun sets everywhere by a non-empty list keeps
/// the registry well formed.
pub proof fn law_pronoun_change_keeps_well_formed(
    old: Map<u64, ServerView>,
    new: Map<u64, ServerView>,
    user: u64,
    ps: Seq<Seq<char>>,
)
    requires
        well_formed(old),
        ps.len() > 0,
        new.dom() == old.dom(),
        forall|g: u64| #[trigger] old.contains_key(g) ==> changed_for(new[g], old[g], user, pronouns_rel(ps)),
    ensures
        well_formed(new),
{
    assert forall|g: u64, u: u64| #[trigger] registered_in(new, g, u) implies new[g].users[u].current_in_range() by {
        assert(old.contains_key(g));
        assert(changed_for(new[g], old[g], user, pronouns_rel(ps)));
        assert(registered_in(old, g, u));
        if u == user {
            assert(pronouns_rel(ps)(new[g].users[u], old[g].users[u]));
        }
    }
}

/// The daily reroll of one server, quiet or announced, keeps the registry
/// well formed.
pub proof fn law_daily_reroll_keeps_well_formed(old: Map<u64, ServerView>, new: Map<u64, ServerView>, guild: u64)
    requires
        well_formed(old),
        old.contains_key(guild),
        new.dom() == old.dom(),
        forall|g: u64| #[trigger] old.contains_key(g) && g != guild ==> new[g] == old[g],
        quietly_rerolled(new[guild], old[guild]) || all_rerolled(new[guild], old[guild]),
    ensures
        well_formed(new),
{
    assert forall|g: u64, u: u64| #[trigger] registered_in(new, g, u) implies new[g].users[u].current_in_range() by {
        assert(old.contains_key(g));
        if g != guild {
            assert(registered_in(old, g, u));
        } else {
            assert(old[guild].users.contains_key(u));
            assert(registered_in(old, g, u));
        }
    }
}

/// The byte length of a suffixed name: the name, three bytes of ` | `, and
/// the pronoun set.
pub proof fn law_suffixed_length(name: Seq<char>, pronoun: Seq<char>)
    ensures
        utf8_len(suffixed(name, pronoun)) == utf8_len(name) + 3 + utf8_len(pronoun),
{
    reveal_strlit(" | ");
    lemma_utf8_len_concat(name + separator(), pronoun);
    lemma_utf8_len_concat(name, separator());
    let s = separator();
    assert(s =~= seq![' ', '|', ' ']);
    assert(s.drop_first() =~= seq!['|', ' ']);
    assert(s.drop_first().drop_first() =~= seq![' ']);
    assert(s.drop_first().drop_first().drop_first() =~= Seq::<char>::empty());
    assert(utf8_len(s.drop_first().drop_first().drop_first()) == 0);
    assert((' ' as u32) == 32);
    assert(('|' as u32) == 124);
    assert(utf8_len(s.drop_first().drop_first()) == 1);
    assert(utf8_len(s.drop_first()) == 2);
    assert(utf8_len(s) == 3);
}

/// A nickname the bot sets never exceeds Discord's limit of 32 bytes, and
/// ends with ` | ` and the current pronoun set.
pub proof fn law_managed_nickname_fits(name: Seq<char>, data: UserDataView, old: Seq<char>)
    ensures
        nickname_update_spec(name, data, old).0 matches Some(n) ==> {
            &&& utf8_len(n) <= MAX_NICKNAME_BYTES
            &&& n == suffixed(base_name(name, old), data.current_text())
        },
{
    law_suffixed_length(base_name(name, old), data.current_text());
}

/// One server's turn of the daily pass keeps what the pass keeps, and keeps
/// the registry well formed.
proof fn lemma_daily_step_keeps(new: Map<u64, ServerView>, old: Map<u64, ServerView>, guild: u64)
    requires
        well_formed(old),
        daily_step(new, old, guild),
    ensures
        pass_keeps(new, old),
        well_formed(new),
{
    if old.contains_key(guild) {
        assert(quietly_rerolled(new[guild], old[guild]) || all_rerolled(new[guild], old[guild]));
        law_daily_reroll_keeps_well_formed(old, new, guild);
        assert forall|g: u64| #[trigger] old.contains_key(g) implies {
            &&& new[g].update_channel == old[g].update_channel
            &&& new[g].users.dom() == old[g].users.dom()
            &&& forall|u: u64| #[trigger] old[g].users.contains_key(u) ==> {
                &&& new[g].users[u].pronouns == old[g].users[u].pronouns
                &&& new[g].users[u].change_nickname == old[g].users[u].change_nickname
                &&& (old[g].update_channel is None && old[g].users[u].pronouns.len() == 1)
                    ==> new[g].users[u] == old[g].users[u]
            }
        } by {
            if g == guild {
                assert forall|u: u64| #[trigger] old[g].users.contains_key(u) implies {
                    &&& new[g].users[u].pronouns == old[g].users[u].pronouns
                    &&& new[g].users[u].change_nickname == old[g].users[u].change_nickname
                    &&& (old[g].update_channel is None && old[g].users[u].pronouns.len() == 1)
                        ==> new[g].users[u] == old[g].users[u]
                } by {
                    if old[g].update_channel is None {
                        assert(quietly_rerolled(new[g], old[g]));
                    } else {
                        assert(all_rerolled(new[g], old[g]));
                    }
                }
            }
        }
    }
}

/// What the daily pass keeps is kept across consecutive turns.
proof fn lemma_pass_keeps_chain(c: Map<u64, ServerView>, b: Map<u64, ServerView>, a: Map<u64, ServerView>)
    requires
        pass_keeps(b, a),
        pass_keeps(c, b),
    ensures
        pass_keeps(c, a),
{
    assert forall|g: u64| #[trigger] a.contains_key(g) implies {
        &&& c[g].update_channel == a[g].update_channel
        &&& c[g].users.dom() == a[g].users.dom()
        &&& forall|u: u64| #[trigger] a[g].users.contains_key(u) ==> {
            &&& c[g].users[u].pronouns == a[g].users[u].pronouns
            &&& c[g].users[u].change_nickname == a[g].users[u].change_nickname
            &&& (a[g].update_channel is None && a[g].users[u].pronouns.len() == 1) ==> c[g].users[u]
                == a[g].users[u]
        }
    } by {
        assert(b.contains_key(g));
        assert forall|u: u64| #[trigger] a[g].users.contains_key(u) implies {
            &&& c[g].users[u].pronouns == a[g].users[u].pronouns
            &&& c[g].users[u].change_nickname == a[g].users[u].change_nickname
            &&& (a[g].update_channel is None && a[g].users[u].pronouns.len() == 1) ==> c[g].users[u]
                == a[g].users[u]
        } by {
            assert(b[g].users.contains_key(u));
        }
    }
}

/// The first `k` turns of a daily pass keep what the pass keeps and keep
/// the registry well formed.
proof fn lemma_daily_pass_prefix(states: Seq<Map<u64, ServerView>>, guilds: Seq<u64>, k: int)
    requires
        daily_pass(states, guilds),
        well_formed(states[0]),
        0 <= k <= guilds.len(),
    ensures
        pass_keeps(states[k], states[0]),
        well_formed(states[k]),
    decreases k,
{
    if k == 0 {
        let s = states[0];
        assert(pass_keeps(s, s));
    } else {
        lemma_daily_pass_prefix(states, guilds, k - 1);
        assert(daily_step(states[k], states[k - 1], guilds[k - 1]));
        lemma_daily_step_keeps(states[k], states[k - 1], guilds[k - 1]);
        lemma_pass_keeps_chain(states[k], states[k - 1], states[0]);
    }
}

/// A whole daily pass over any list of servers, from a registry whose
/// current indices are all in range: the same servers remain, each with its
/// channel and its members; every member keeps their pronoun sets and their
/// nickname setting, and their current index stays in range; in a server
/// without a channel, members with a single pronoun set are left untouched.
pub proof fn law_daily_pass(states: Seq<Map<u64, ServerView>>, guilds: Seq<u64>)
    requires
        daily_pass(states, guilds),
        well_formed(states[0]),
    ensures
        pass_keeps(states.last(), states[0]),
        well_formed(states.last()),
{
    lemma_daily_pass_prefix(states, guilds, guilds.len() as int);
}

/// A managed nickname is set exactly when the name, with the suffix of the
/// previous set taken off, plus ` | ` and the current set fits in 32 bytes;
/// it is then that name with the current set appended, and the report ends
/// with the success line. Otherwise the nickname is left alone.
pub proof fn law_managed_nickname_set_exactly_when_fits(name: Seq<char>, data: UserDataView, old: Seq<char>)
    ensures
        ({
            let cleaned = base_name(name, old);
            let current = data.current_text();
            let fits = utf8_len(cleaned) + 3 + utf8_len(current) <= MAX_NICKNAME_BYTES;
            let planned = nickname_update_spec(name, data, old);
            &&& fits ==> planned.0 == Some(suffixed(cleaned, current))
            &&& !fits ==> planned.0 is None
            &&& fits ==> has_suffix(planned.1, changed_message())
        }),
{
    let cleaned = base_name(name, old);
    let current = data.current_text();
    let fits = utf8_len(cleaned) + 3 + utf8_len(current) <= MAX_NICKNAME_BYTES;
    if fits {
        let planned = nickname_update_spec(name, data, old);
        let longest = longest_pronoun(data.pronouns);
        let first: Seq<Seq<char>> = if utf8_len(cleaned) + longest.0 + 3 > MAX_NICKNAME_BYTES {
            seq![
                crate::nickname::too_long_warning(
                    "longest"@,
                    longest.1,
                    (utf8_len(cleaned) + longest.0 + 3 - MAX_NICKNAME_BYTES) as nat,
                ),
            ]
        } else {
            Seq::empty()
        };
        let parts = first.push(changed_message());
        assert(planned.1 == join(parts, seq!['\n']));
        let m = changed_message();
        if first.len() == 0 {
            assert(parts.len() == 1);
            assert(planned.1 == m);
            assert(planned.1.subrange(planned.1.len() - m.len(), planned.1.len() as int) =~= m);
        } else {
            assert(parts.drop_last() =~= first);
            assert(join(first, seq!['\n']) == first[0]);
            assert(planned.1 == first[0] + seq!['\n'] + m);
            assert(planned.1.subrange(planned.1.len() - m.len(), planned.1.len() as int) =~= m);
        }
    }
}

/// The first set whose suffix a name shows is found by the scan from `k`,
/// when no set between `k` and it matches.
proof fn lemma_suffix_index_found(name: Seq<char>, ps: Seq<Seq<char>>, k: int, i: int)
    requires
        0 <= k <= i < ps.len(),
        clean_name(name, ps[i]) is Some,
        forall|j: int| k <= j < i ==> clean_name(name, #[trigger] ps[j]) is None,
    ensures
        suffix_index_from(name, ps, k) == Some(i),
    decreases i - k,
{
    if k < i {
        lemma_suffix_index_found(name, ps, k + 1, i);
    }
}

/// At start-up, a managed nickname that shows the suffix of a set other than
/// the current one (and of no earlier set) gets that suffix swapped for the
/// current set, keeping the name before it.
pub proof fn law_startup_replaces_stale_suffix(base: Seq<char>, data: UserDataView, i: int)
    requires
        data.change_nickname,
        data.current_in_range(),
        0 <= i < data.pronouns.len(),
        i != data.current,
        forall|j: int|
            0 <= j < i ==> clean_name(suffixed(base, data.pronouns[i]), #[trigger] data.pronouns[j]) is None,
    ensures
        startup_nickname_spec(suffixed(base, data.pronouns[i]), data) == Some(
            suffixed(base, data.current_text()),
        ),
{
    let name = suffixed(base, data.pronouns[i]);
    law_clean_undoes_suffix(base, data.pronouns[i]);
    lemma_suffix_index_found(name, data.pronouns, 0, i);
}

/// At start-up, a managed nickname that already shows the current set's
/// suffix (and no earlier set's) is left as it is.
pub proof fn law_startup_keeps_current_suffix(base: Seq<char>, data: UserDataView)
    requires
        data.change_nickname,
        data.current_in_range(),
        forall|j: int|
            0 <= j < data.current ==> clean_name(suffixed(base, data.current_text()), #[trigger] data.pronouns[j])
                is None,
    ensures
        startup_nickname_spec(suffixed(base, data.current_text()), data) is None,
{
    let name = suffixed(base, data.current_text());
    law_clean_undoes_suffix(base, data.current_text());
    lemma_suffix_index_found(name, data.pronouns, 0, data.current as int);
}

/// At start-up, the bot leaves the nickname of a member who does not let it
/// manage their nickname alone.
pub proof fn law_startup_leaves_unmanaged(name: Seq<char>, data: UserDataView)
    requires
        !data.change_nickname,
    ensures
        startup_nickname_spec(name, data) is None,
{
}

/// Every reroll of a registration with at least two pronoun sets, in one
/// server, everywhere or in the daily pass, makes the current index a value
/// the random draw below the number of sets returned in that reroll; it is
/// never just the previous index carried over.
pub proof fn law_reroll_is_a_draw(new: UserDataView, old: UserDataView)
    requires
        new.is_reroll_of(old),
        old.pronouns.len() >= 2,
    ensures
        is_draw(old.pronouns.len() as usize, new.current),
        new.current < new.pronouns.len(),
        new.pronouns == old.pronouns,
{
    lemma_draw_in_range(old.pronouns.len() as usize, new.current);
}

} // verus!
