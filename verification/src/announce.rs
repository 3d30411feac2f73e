//! What the bot posts: the daily announcement's fields, the registrar
//! reply, labels for servers and users, and when the daily update runs.

use crate::listing::{sort_fields, stably_sorted, views, Field};
use crate::nickname::{base_name, base_nickname};
use crate::text::{decimal, join, join_strings, push_decimal};
use vstd::prelude::*;

verus! {

/// Title of the field listing members whose managed nickname would be too
/// long.
pub open spec fn too_long_title() -> Seq<char> {
    "The following users requested nickname changes, but their nicknames are too long:"@
}

/// Title of the field listing members whose nickname could not be set.
pub open spec fn permissions_title() -> Seq<char> {
    "Failed to set nicknames for these users due to permissions errors (is my role higher than all these users'?):"@
}

/// The fields the daily announcement adds after the members' own: one
/// listing the names too long for their suffix, one listing the names the
/// bot could not change; each only when its list is not empty.
pub open spec fn extra_fields(too_long: Seq<Seq<char>>, permissions: Seq<Seq<char>>) -> Seq<(Seq<char>, Seq<char>)> {
    (if too_long.len() > 0 {
        seq![(too_long_title(), join(too_long, ", "@))]
    } else {
        Seq::empty()
    }) + (if permissions.len() > 0 {
        seq![(permissions_title(), join(permissions, ", "@))]
    } else {
        Seq::empty()
    })
}

/// The fields of the daily announcement: the members' fields and the
/// problem lists, sorted by title.
pub fn daily_fields(fields: Vec<Field>, too_long: &Vec<String>, permissions: &Vec<String>) -> (r: Vec<Field>)
    ensures
        stably_sorted(views(r@), views(fields@) + extra_fields(too_long.deep_view(), permissions.deep_view())),
{
    let ghost given = views(fields@);
    let mut all = fields;
    let ghost mut extras: Seq<(Seq<char>, Seq<char>)> = Seq::empty();
    if too_long.len() > 0 {
        let f = Field {
            name: String::from_str(
                "The following users requested nickname changes, but their nicknames are too long:",
            ),
            value: join_strings(too_long, ", "),
        };
        proof {
            extras = extras.push((f.name@, f.value@));
        }
        all.push(f);
    }
    if permissions.len() > 0 {
        let f = Field {
            name: String::from_str(
                "Failed to set nicknames for these users due to permissions errors (is my role higher than all these users'?):",
            ),
            value: join_strings(permissions, ", "),
        };
        proof {
            extras = extras.push((f.name@, f.value@));
        }
        all.push(f);
    }
    assert(views(all@) =~= given + extras);
    assert(extras =~= extra_fields(too_long.deep_view(), permissions.deep_view()));
    sort_fields(all)
}

/// The registrar's reply about one member: their name without pronoun
/// suffix, and their current pronoun set.
pub fn registrar_reply(name: &str, current: &str) -> (r: String)
    ensures
        r@ == "**"@ + base_name(name@, current@) + "**'s pronouns are currently **"@ + current@ + "**."@,
{
    let mut r = String::from_str("**");
    r.append(base_nickname(name, current));
    r.append("**'s pronouns are currently **");
    r.append(current);
    r.append("**.");
    r
}

/// How a server is named in messages: by name when known, by id otherwise.
pub fn guild_label(name: Option<String>, guild: u64) -> (r: String)
    ensures
        r@ == match name {
            Some(n) => n@,
            None => "GID: "@ + decimal(guild as nat),
        },
{
    match name {
        Some(n) => n,
        None => {
            let mut r = String::from_str("GID: ");
            push_decimal(&mut r, guild as u128);
            r
        },
    }
}

/// How a user who could not be looked up is named: by id.
pub fn user_id_label(user: u64) -> (r: String)
    ensures
        r@ == "ID: "@ + decimal(user as nat),
{
    let mut r = String::from_str("ID: ");
    push_decimal(&mut r, user as u128);
    r
}

/// Last second of the day, counted from midnight, at which the daily update
/// runs.
pub const DAILY_UPDATE_SECOND: u32 = 86399;

/// Seconds to wait, from `seconds_of_day` seconds after midnight, until the
/// daily update at 23:59:59.
pub fn seconds_until_daily_update(seconds_of_day: u32) -> (r: u32)
    requires
        seconds_of_day <= DAILY_UPDATE_SECOND,
    ensures
        r == DAILY_UPDATE_SECOND - seconds_of_day,
{
    DAILY_UPDATE_SECOND - seconds_of_day
}


/// `n / d` rounded up.
pub open spec fn div_ceil(n: nat, d: nat) -> nat
    recommends
        d > 0,
{
    if n % d == 0 {
        n / d
    } else {
        n / d + 1
    }
}

/// The reply when a command is still cooling down, with the remaining time
/// in whole seconds, rounded up.
pub fn cooldown_message(remaining_millis: u128) -> (r: String)
    ensures
        r@ == "Oops, I've hit a cooldown! Try again in "@ + decimal(div_ceil(remaining_millis as nat, 1000))
            + " seconds."@,
{
    let seconds = if remaining_millis % 1000 == 0 {
        remaining_millis / 1000
    } else {
        remaining_millis / 1000 + 1
    };
    let mut r = String::from_str("Oops, I've hit a cooldown! Try again in ");
    push_decimal(&mut r, seconds);
    r.append(" seconds.");
    r
}

} // verus!
