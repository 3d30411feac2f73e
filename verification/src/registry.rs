//! The bot's registry: per server, the announcement channel and the
//! registrations of its members, and the operations the commands perform on
//! it.

use crate::random::is_draw;
use crate::user_data::{UserData, UserDataView};
use std::collections::HashMap;
use vstd::std_specs::iter::IteratorSpec;
use vstd::prelude::*;

verus! {

broadcast use vstd::std_specs::hash::group_hash_axioms;

/// Whether `x` occurs in `v`.
pub fn contains_id(v: &Vec<u64>, x: u64) -> (b: bool)
    ensures
        b == v@.contains(x),
{
    let mut k: usize = 0;
    while k < v.len()
        invariant
            k <= v@.len(),
            forall|j: int| 0 <= j < k ==> v@[j] != x,
        decreases v@.len() - k,
    {
        if v[k] == x {
            return true;
        }
        k = k + 1;
    }
    false
}

/// The keys of a map, each once.
pub fn keys_of<V>(m: &HashMap<u64, V>) -> (r: Vec<u64>)
    ensures
        r@.to_set() == m@.dom(),
        r@.no_duplicates(),
        r@.len() == m@.dom().len(),
{
    let ghost expected = vstd::std_specs::hash::spec_keys_iter(m).remaining();
    let mut r: Vec<u64> = Vec::new();
    for k in iter: m.keys()
        invariant
            iter.seq() == expected,
            r@ == expected.take(iter.index() as int).unref(),
    {
        r.push(*k);
        assert(expected.take(iter.index() + 1).unref() =~= expected.take(iter.index() as int).unref().push(*k));
    }
    assert(expected.take(expected.len() as int) =~= expected);
    r
}


/// The value of one server's state: its announcement channel and the
/// registrations of its members, by user id.
pub struct ServerView {
    pub update_channel: Option<u64>,
    pub users: Map<u64, UserDataView>,
}

/// One server's state while the bot runs.
#[derive(Debug)]
pub struct ServerConfigCtx {
    /// Channel for the daily announcement, if any.
    pub update_channel: Option<u64>,
    /// Registrations by user id.
    pub users: HashMap<u64, UserData>,
}

impl View for ServerConfigCtx {
    type V = ServerView;

    open spec fn view(&self) -> ServerView {
        ServerView {
            update_channel: self.update_channel,
            users: self.users@.map_values(|u: UserData| u@),
        }
    }
}

/// The state of every server the bot is in, by guild id.
#[derive(Debug)]
pub struct BotData {
    pub guilds: HashMap<u64, ServerConfigCtx>,
}

impl View for BotData {
    type V = Map<u64, ServerView>;

    open spec fn view(&self) -> Map<u64, ServerView> {
        self.guilds@.map_values(|s: ServerConfigCtx| s@)
    }
}

/// `user` is registered in server `guild`.
pub open spec fn registered_in(d: Map<u64, ServerView>, guild: u64, user: u64) -> bool {
    d.contains_key(guild) && d[guild].users.contains_key(user)
}

/// `user` is registered in some server.
pub open spec fn registered_anywhere(d: Map<u64, ServerView>, user: u64) -> bool {
    exists|g: u64| #[trigger] registered_in(d, g, user)
}

/// Every registration's current index points at one of its pronoun sets.
pub open spec fn well_formed(d: Map<u64, ServerView>) -> bool {
    forall|g: u64, u: u64| #[trigger] registered_in(d, g, u) ==> d[g].users[u].current_in_range()
}

/// A server's state with `user`'s registration replaced.
pub open spec fn with_user(s: ServerView, user: u64, data: UserDataView) -> ServerView {
    ServerView { update_channel: s.update_channel, users: s.users.insert(user, data) }
}

/// A server's state with `user`'s registration removed.
pub open spec fn without_user(s: ServerView, user: u64) -> ServerView {
    ServerView { update_channel: s.update_channel, users: s.users.remove(user) }
}

/// A server with no channel and no registrations.
pub open spec fn empty_server() -> ServerView {
    ServerView { update_channel: None, users: Map::empty() }
}

impl ServerConfigCtx {
    /// A server with no channel and no registrations.
    pub fn new() -> (r: ServerConfigCtx)
        ensures
            r@ == empty_server(),
    {
        let r = ServerConfigCtx { update_channel: None, users: HashMap::new() };
        assert(r@.users =~= Map::<u64, UserDataView>::empty());
        r
    }
}

impl BotData {
    /// No servers.
    pub fn new() -> (r: BotData)
        ensures
            r@ == Map::<u64, ServerView>::empty(),
    {
        let r = BotData { guilds: HashMap::new() };
        assert(r@ =~= Map::<u64, ServerView>::empty());
        r
    }

    /// Takes a server's state out of the registry.
    fn take_guild(&mut self, guild: u64) -> (s: ServerConfigCtx)
        requires
            old(self)@.contains_key(guild),
        ensures
            s@ == old(self)@[guild],
            final(self)@ == old(self)@.remove(guild),
    {
        let s = self.guilds.remove(&guild).unwrap();
        assert(self@ =~= old(self)@.remove(guild));
        s
    }

    /// Puts a server's state into the registry.
    fn put_guild(&mut self, guild: u64, s: ServerConfigCtx)
        ensures
            final(self)@ == old(self)@.insert(guild, s@),
    {
        self.guilds.insert(guild, s);
        assert(self@ =~= old(self)@.insert(guild, s@));
    }

    /// Adds a server the bot joined, unless it is known already; tells
    /// whether it was added.
    pub fn add_guild(&mut self, guild: u64) -> (added: bool)
        ensures
            added == !old(self)@.contains_key(guild),
            final(self)@ == if added {
                old(self)@.insert(guild, empty_server())
            } else {
                old(self)@
            },
    {
        if self.guilds.contains_key(&guild) {
            false
        } else {
            self.put_guild(guild, ServerConfigCtx::new());
            true
        }
    }

    /// Forgets a server the bot was removed from.
    pub fn remove_guild(&mut self, guild: u64)
        ensures
            final(self)@ == old(self)@.remove(guild),
    {
        let _ = self.guilds.remove(&guild);
        assert(self@ =~= old(self)@.remove(guild));
    }

    /// Forgets the registration of a member who left a server, if both are
    /// known.
    pub fn remove_member(&mut self, guild: u64, user: u64)
        ensures
            final(self)@ == if old(self)@.contains_key(guild) {
                old(self)@.insert(guild, without_user(old(self)@[guild], user))
            } else {
                old(self)@
            },
    {
        if self.guilds.contains_key(&guild) {
            let mut s = self.take_guild(guild);
            let _ = s.users.remove(&user);
            assert(s@.users =~= old(self)@[guild].users.remove(user));
            self.put_guild(guild, s);
            assert(self@ =~= old(self)@.insert(guild, without_user(old(self)@[guild], user)));
        }
    }

    /// Forgets the registrations of the listed members of a server.
    pub fn remove_members(&mut self, guild: u64, users: &Vec<u64>)
        requires
            old(self)@.contains_key(guild),
        ensures
            final(self)@.dom() == old(self)@.dom(),
            forall|g: u64| g != guild && old(self)@.contains_key(g) ==> final(self)@[g] == old(self)@[g],
            final(self)@[guild].update_channel == old(self)@[guild].update_channel,
            final(self)@[guild].users == old(self)@[guild].users.remove_keys(users@.to_set()),
    {
        let mut s = self.take_guild(guild);
        let ghost start = s@.users;
        let mut i: usize = 0;
        while i < users.len()
            invariant
                i <= users@.len(),
                s@.update_channel == old(self)@[guild].update_channel,
                start == old(self)@[guild].users,
                s@.users == start.remove_keys(users@.take(i as int).to_set()),
            decreases users@.len() - i,
        {
            let ghost before = s@.users;
            let _ = s.users.remove(&users[i]);
            assert(s@.users =~= before.remove(users@[i as int]));
            assert(start.remove_keys(users@.take(i as int).to_set().insert(users@[i as int])) =~= start.remove_keys(users@.take(i as int).to_set()).remove(users@[i as int]));
            assert(users@.take(i + 1) =~= users@.take(i as int).push(users@[i as int]));
            proof {
                users@.take(i as int).lemma_push_to_set_commute(users@[i as int]);
            }
            assert(s@.users =~= start.remove_keys(users@.take(i + 1).to_set()));
            i = i + 1;
        }
        assert(users@.take(users@.len() as int) =~= users@);
        self.put_guild(guild, s);
        assert(self@.dom() =~= old(self)@.dom());
    }

    /// Sets or clears a server's announcement channel.
    pub fn set_update_channel(&mut self, guild: u64, channel: Option<u64>)
        requires
            old(self)@.contains_key(guild),
        ensures
            final(self)@ == old(self)@.insert(
                guild,
                ServerView { update_channel: channel, users: old(self)@[guild].users },
            ),
    {
        let mut s = self.take_guild(guild);
        s.update_channel = channel;
        self.put_guild(guild, s);
        assert(self@ =~= old(self)@.insert(
            guild,
            ServerView { update_channel: channel, users: old(self)@[guild].users },
        ));
    }

    /// Stores `data` as `user`'s registration in a server.
    pub fn register_user(&mut self, guild: u64, user: u64, data: UserData)
        requires
            old(self)@.contains_key(guild),
        ensures
            final(self)@ == old(self)@.insert(guild, with_user(old(self)@[guild], user, data@)),
    {
        let mut s = self.take_guild(guild);
        let ghost d = data@;
        let _ = s.users.insert(user, data);
        assert(s@.users =~= old(self)@[guild].users.insert(user, d));
        self.put_guild(guild, s);
        assert(self@ =~= old(self)@.insert(guild, with_user(old(self)@[guild], user, d)));
    }

    /// Removes `user`'s registration in a server and hands it back.
    pub fn deregister_user(&mut self, guild: u64, user: u64) -> (r: UserData)
        requires
            registered_in(old(self)@, guild, user),
        ensures
            r@ == old(self)@[guild].users[user],
            final(self)@ == old(self)@.insert(guild, without_user(old(self)@[guild], user)),
    {
        let mut s = self.take_guild(guild);
        let r = s.users.remove(&user).unwrap();
        assert(s@.users =~= old(self)@[guild].users.remove(user));
        self.put_guild(guild, s);
        assert(self@ =~= old(self)@.insert(guild, without_user(old(self)@[guild], user)));
        r
    }

    /// `user`'s registration in a server, if any.
    pub fn user_data(&self, guild: u64, user: u64) -> (r: Option<&UserData>)
        ensures
            match r {
                Some(d) => registered_in(self@, guild, user) && d@ == self@[guild].users[user],
                None => !registered_in(self@, guild, user),
            },
    {
        match self.guilds.get(&guild) {
            Some(s) => s.users.get(&user),
            None => None,
        }
    }
}

/// The guild ids and registration values of a list of registrations.
pub open spec fn entry_views(r: Seq<(u64, UserData)>) -> Seq<(u64, UserDataView)> {
    r.map_values(|e: (u64, UserData)| (e.0, e.1@))
}

/// The server ids of a list of registrations.
pub open spec fn guilds_of(r: Seq<(u64, UserDataView)>) -> Seq<u64> {
    r.map_values(|e: (u64, UserDataView)| e.0)
}

/// `r` lists, once per server, every registration of `user` in `d`.
pub open spec fn lists_registrations(
    r: Seq<(u64, UserDataView)>,
    d: Map<u64, ServerView>,
    user: u64,
) -> bool {
    &&& forall|i: int|
        0 <= i < r.len() ==> registered_in(d, (#[trigger] r[i]).0, user) && r[i].1
            == d[r[i].0].users[user]
    &&& forall|g: u64| registered_in(d, g, user) <==> #[trigger] guilds_of(r).contains(g)
    &&& guilds_of(r).no_duplicates()
}

/// The ids among `ids` that satisfy `pred`, in order.
pub open spec fn selected_ids(ids: Seq<u64>, pred: spec_fn(u64) -> bool) -> Seq<u64>
    decreases ids.len(),
{
    if ids.len() == 0 {
        Seq::empty()
    } else {
        let r = selected_ids(ids.drop_last(), pred);
        if pred(ids.last()) {
            r.push(ids.last())
        } else {
            r
        }
    }
}

/// Servers where `user` is registered.
pub open spec fn registered_pred(d: Map<u64, ServerView>, user: u64) -> spec_fn(u64) -> bool {
    |g: u64| registered_in(d, g, user)
}

pub proof fn lemma_selected_ids(ids: Seq<u64>, pred: spec_fn(u64) -> bool)
    ensures
        forall|g: u64| #[trigger] selected_ids(ids, pred).contains(g) <==> ids.contains(g) && pred(g),
        ids.no_duplicates() ==> selected_ids(ids, pred).no_duplicates(),
    decreases ids.len(),
{
    if ids.len() > 0 {
        let prev = ids.drop_last();
        lemma_selected_ids(prev, pred);
        let r = selected_ids(prev, pred);
        assert forall|g: u64| #[trigger] ids.contains(g) <==> prev.contains(g) || g == ids.last() by {
            if ids.contains(g) {
                let j = choose|j: int| 0 <= j < ids.len() && ids[j] == g;
                if j < ids.len() - 1 {
                    assert(prev[j] == g);
                }
            }
            if prev.contains(g) {
                let j = choose|j: int| 0 <= j < prev.len() && prev[j] == g;
                assert(ids[j] == g);
            }
            if g == ids.last() {
                assert(ids[ids.len() - 1] == g);
            }
        }
        if ids.no_duplicates() {
            assert(prev.no_duplicates()) by {
                assert forall|a: int, b: int| 0 <= a < prev.len() && 0 <= b < prev.len() && a
                    != b implies prev[a] != prev[b] by {
                    assert(prev[a] == ids[a] && prev[b] == ids[b]);
                }
            }
        }
        if pred(ids.last()) {
            assert forall|g: u64| #[trigger] r.push(ids.last()).contains(g) <==> r.contains(g) || g
                == ids.last() by {
                if r.push(ids.last()).contains(g) {
                    let j = choose|j: int| 0 <= j < r.len() + 1 && r.push(ids.last())[j] == g;
                    if j < r.len() {
                        assert(r[j] == g);
                    }
                }
                if r.contains(g) {
                    let j = choose|j: int| 0 <= j < r.len() && r[j] == g;
                    assert(r.push(ids.last())[j] == g);
                }
                if g == ids.last() {
                    assert(r.push(ids.last())[r.len() as int] == g);
                }
            }
            if ids.no_duplicates() {
                assert(!prev.contains(ids.last())) by {
                    if prev.contains(ids.last()) {
                        let j = choose|j: int| 0 <= j < prev.len() && prev[j] == ids.last();
                        assert(ids[j] == ids[ids.len() - 1]);
                    }
                }
                assert forall|a: int, b: int|
                    0 <= a < r.len() + 1 && 0 <= b < r.len() + 1 && a != b implies r.push(
                    ids.last(),
                )[a] != r.push(ids.last())[b] by {
                    if a == r.len() {
                        assert(r.contains(r[b]));
                    } else if b == r.len() {
                        assert(r.contains(r[a]));
                    }
                }
            }
        }
    }
}

impl BotData {
    /// The ids of the known servers, each once.
    pub fn guild_ids(&self) -> (r: Vec<u64>)
        ensures
            r@.to_set() == self@.dom(),
            r@.no_duplicates(),
    {
        let r = keys_of(&self.guilds);
        assert(self@.dom() =~= self.guilds@.dom());
        r
    }

    /// Every registration of `user`, with its server, once per server.
    pub fn registrations_of(&self, user: u64) -> (r: Vec<(u64, UserData)>)
        ensures
            lists_registrations(entry_views(r@), self@, user),
    {
        let ids = self.guild_ids();
        let mut r: Vec<(u64, UserData)> = Vec::new();
        let n = ids.len();
        let mut i: usize = 0;
        assert(ids@.take(0) =~= Seq::<u64>::empty());
        while i < n
            invariant
                n == ids@.len(),
                i <= n,
                guilds_of(entry_views(r@)) == selected_ids(ids@.take(i as int), registered_pred(self@, user)),
                forall|k: int|
                    0 <= k < r@.len() ==> registered_in(self@, (#[trigger] entry_views(r@)[k]).0, user)
                        && entry_views(r@)[k].1 == self@[entry_views(r@)[k].0].users[user],
            decreases n - i,
        {
            let g = ids[i];
            let ghost before = r@;
            assert(ids@.take(i + 1).drop_last() =~= ids@.take(i as int));
            match self.user_data(g, user) {
                Some(d) => {
                    r.push((g, d.duplicate()));
                    assert(entry_views(r@) =~= entry_views(before).push((g, d@)));
                    assert(guilds_of(entry_views(r@)) =~= guilds_of(entry_views(before)).push(g));
                },
                None => {},
            }
            i = i + 1;
        }
        proof {
            assert(ids@.take(n as int) =~= ids@);
            lemma_selected_ids(ids@, registered_pred(self@, user));
            assert forall|g: u64| registered_in(self@, g, user) implies ids@.contains(g) by {
                assert(ids@.to_set().contains(g));
            }
        }
        r
    }
}

/// `new` is `old` with only `user`'s registration changed, and that one (if
/// present) changed as `rel` allows.
pub open spec fn changed_for(
    new: ServerView,
    old: ServerView,
    user: u64,
    rel: spec_fn(UserDataView, UserDataView) -> bool,
) -> bool {
    &&& new.update_channel == old.update_channel
    &&& new.users.dom() == old.users.dom()
    &&& forall|v: u64| #[trigger]
        old.users.contains_key(v) && v != user ==> new.users[v] == old.users[v]
    &&& old.users.contains_key(user) ==> rel(new.users[user], old.users[user])
}

/// The server ids and new registrations of a list of rerolls.
pub open spec fn reroll_views(r: Seq<(u64, String, UserData)>) -> Seq<(u64, UserDataView)> {
    r.map_values(|e: (u64, String, UserData)| (e.0, e.2@))
}

/// What a reroll may do to a registration.
pub open spec fn reroll_rel() -> spec_fn(UserDataView, UserDataView) -> bool {
    |new: UserDataView, old: UserDataView| new.is_reroll_of(old)
}

impl BotData {
    /// Returns `user`'s current pronoun set in a server, then rerolls it;
    /// also hands back the new registration.
    pub fn reroll_user(&mut self, guild: u64, user: u64) -> (r: (String, UserData))
        requires
            registered_in(old(self)@, guild, user),
            old(self)@[guild].users[user].current_in_range(),
        ensures
            r.0@ == old(self)@[guild].users[user].current_text(),
            r.1@.is_reroll_of(old(self)@[guild].users[user]),
            final(self)@ == old(self)@.insert(guild, with_user(old(self)@[guild], user, r.1@)),
    {
        let mut s = self.take_guild(guild);
        let mut d = s.users.remove(&user).unwrap();
        let prev = d.current_and_reroll();
        let copy = d.duplicate();
        let ghost dv = d@;
        let _ = s.users.insert(user, d);
        assert(s@.users =~= old(self)@[guild].users.insert(user, dv));
        self.put_guild(guild, s);
        assert(self@ =~= old(self)@.insert(guild, with_user(old(self)@[guild], user, dv)));
        (prev, copy)
    }

    /// Rerolls `user`'s pronouns in every server where they are registered;
    /// lists per server the previous pronoun set and the new registration.
    pub fn reroll_everywhere(&mut self, user: u64) -> (r: Vec<(u64, String, UserData)>)
        requires
            forall|g: u64| #[trigger]
                registered_in(old(self)@, g, user) ==> old(self)@[g].users[user].current_in_range(),
        ensures
            final(self)@.dom() == old(self)@.dom(),
            forall|g: u64| #[trigger]
                old(self)@.contains_key(g) ==> changed_for(
                    final(self)@[g],
                    old(self)@[g],
                    user,
                    reroll_rel(),
                ),
            guilds_of(reroll_views(r@)).no_duplicates(),
            forall|g: u64|
                registered_in(old(self)@, g, user) <==> #[trigger] guilds_of(
                    reroll_views(r@),
                ).contains(g),
            forall|k: int|
                0 <= k < r@.len() ==> {
                    let g = (#[trigger] r@[k]).0;
                    &&& registered_in(old(self)@, g, user)
                    &&& r@[k].1@ == old(self)@[g].users[user].current_text()
                    &&& r@[k].2@ == final(self)@[g].users[user]
                },
    {
        let ghost start = self@;
        let ids = self.guild_ids();
        let mut r: Vec<(u64, String, UserData)> = Vec::new();
        let n = ids.len();
        let mut i: usize = 0;
        assert(ids@.take(0) =~= Seq::<u64>::empty());
        while i < n
            invariant
                n == ids@.len(),
                i <= n,
                ids@.to_set() == start.dom(),
                ids@.no_duplicates(),
                forall|g: u64| #[trigger] registered_in(start, g, user) ==> start[g].users[user].current_in_range(),
                self@.dom() == start.dom(),
                forall|j: int|
                    0 <= j < i ==> changed_for(
                        self@[#[trigger] ids@[j]],
                        start[ids@[j]],
                        user,
                        reroll_rel(),
                    ),
                forall|j: int| i <= j < n ==> self@[#[trigger] ids@[j]] == start[ids@[j]],
                guilds_of(reroll_views(r@))
                    == selected_ids(ids@.take(i as int), registered_pred(start, user)),
                forall|k: int|
                    0 <= k < r@.len() ==> {
                        let g = (#[trigger] r@[k]).0;
                        &&& registered_in(start, g, user)
                        &&& r@[k].1@ == start[g].users[user].current_text()
                        &&& r@[k].2@ == self@[g].users[user]
                    },
            decreases n - i,
        {
            let g = ids[i];
            let ghost before = r@;
            let ghost mid = self@;
            proof {
                assert(ids@.take(i + 1).drop_last() =~= ids@.take(i as int));
                assert(ids@.contains(g));
                assert(ids@.to_set().contains(g));
                assert(mid[g] == start[g]);
                lemma_selected_ids(ids@.take(i as int), registered_pred(start, user));
            }
            if self.user_data(g, user).is_some() {
                assert(registered_in(start, g, user));
                let (prev, d) = self.reroll_user(g, user);
                r.push((g, prev, d));
                proof {
                    assert(reroll_views(r@) =~= reroll_views(before).push((g, d@)));
                    assert(guilds_of(reroll_views(r@))
                        =~= guilds_of(
                        reroll_views(before),
                    ).push(g));
                    assert(changed_for(self@[g], start[g], user, reroll_rel())) by {
                        assert(self@[g].users =~= start[g].users.insert(user, d@));
                        assert(self@[g].users.dom() =~= start[g].users.dom());
                        assert(reroll_rel()(self@[g].users[user], start[g].users[user]));
                    }
                    assert forall|k: int| 0 <= k < before.len() implies (#[trigger] before[k]).0
                        != g by {
                        assert(guilds_of(
                            reroll_views(before),
                        )[k] == before[k].0);
                        assert(selected_ids(ids@.take(i as int), registered_pred(start, user)).contains(
                            before[k].0,
                        ));
                        assert(ids@.take(i as int).contains(before[k].0));
                        let j = choose|j: int|
                            0 <= j < i && ids@.take(i as int)[j] == before[k].0;
                        assert(ids@[j] == before[k].0);
                    }
                    assert forall|j: int| 0 <= j < i implies changed_for(
                        self@[#[trigger] ids@[j]],
                        start[ids@[j]],
                        user,
                        reroll_rel(),
                    ) by {
                        assert(ids@[j] != g);
                    }
                    assert forall|j: int| i < j < n implies self@[#[trigger] ids@[j]]
                        == start[ids@[j]] by {
                        assert(ids@[j] != g);
                    }
                    assert forall|k: int| 0 <= k < r@.len() implies {
                        let g2 = (#[trigger] r@[k]).0;
                        &&& registered_in(start, g2, user)
                        &&& r@[k].1@ == start[g2].users[user].current_text()
                        &&& r@[k].2@ == self@[g2].users[user]
                    } by {
                        if k < before.len() {
                            assert(r@[k] == before[k]);
                        }
                    }
                }
            } else {
                proof {
                    assert(!registered_in(start, g, user));
                    assert(changed_for(self@[g], start[g], user, reroll_rel()));
                }
            }
            i = i + 1;
        }
        proof {
            assert(ids@.take(n as int) =~= ids@);
            lemma_selected_ids(ids@, registered_pred(start, user));
            assert forall|g: u64| #[trigger] start.contains_key(g) implies changed_for(
                self@[g],
                start[g],
                user,
                reroll_rel(),
            ) by {
                assert(ids@.to_set().contains(g));
                let j = choose|j: int| 0 <= j < ids@.len() && ids@[j] == g;
                assert(changed_for(self@[ids@[j]], start[ids@[j]], user, reroll_rel()));
            }
            assert forall|g: u64| registered_in(start, g, user) implies ids@.contains(g) by {
                assert(ids@.to_set().contains(g));
            }
        }
        r
    }
}

/// `new` is `old` with its nickname setting set to `value`.
pub open spec fn nickname_setting_set(new: UserDataView, old: UserDataView, value: bool) -> bool {
    new == UserDataView { change_nickname: value, ..old }
}

/// `new` is `old` with its pronoun sets replaced by `ps`: the current index
/// stays when it still points at a set, and is rerolled otherwise.
pub open spec fn pronouns_set(new: UserDataView, old: UserDataView, ps: Seq<Seq<char>>) -> bool {
    &&& new.pronouns == ps
    &&& new.change_nickname == old.change_nickname
    &&& old.current < ps.len() ==> new.current == old.current
    &&& old.current >= ps.len() && ps.len() < 2 ==> new.current == 0
    &&& old.current >= ps.len() && ps.len() >= 2 ==> new.current < ps.len() && is_draw(
        ps.len() as usize,
        new.current,
    )
}

impl BotData {
    /// Sets whether the bot manages `user`'s nickname in a server; tells
    /// whether the setting changed and hands back the registration.
    pub fn set_change_nickname(&mut self, guild: u64, user: u64, value: bool) -> (r: (bool, UserData))
        requires
            registered_in(old(self)@, guild, user),
        ensures
            r.0 == (old(self)@[guild].users[user].change_nickname != value),
            nickname_setting_set(r.1@, old(self)@[guild].users[user], value),
            final(self)@ == old(self)@.insert(guild, with_user(old(self)@[guild], user, r.1@)),
    {
        let mut s = self.take_guild(guild);
        let mut d = s.users.remove(&user).unwrap();
        let changed = value ^ d.change_nickname;
        d.change_nickname = value;
        let copy = d.duplicate();
        let ghost dv = d@;
        let _ = s.users.insert(user, d);
        assert(s@.users =~= old(self)@[guild].users.insert(user, dv));
        self.put_guild(guild, s);
        assert(self@ =~= old(self)@.insert(guild, with_user(old(self)@[guild], user, dv)));
        (changed, copy)
    }

    /// Replaces `user`'s pronoun sets in a server, rerolling the current
    /// index if it no longer points at a set; hands back the registration
    /// before and after.
    pub fn set_pronouns(&mut self, guild: u64, user: u64, pronouns: Vec<String>) -> (r: (
        UserData,
        UserData,
    ))
        requires
            registered_in(old(self)@, guild, user),
        ensures
            r.0@ == old(self)@[guild].users[user],
            pronouns_set(r.1@, r.0@, pronouns.deep_view()),
            final(self)@ == old(self)@.insert(guild, with_user(old(self)@[guild], user, r.1@)),
    {
        let mut s = self.take_guild(guild);
        let mut d = s.users.remove(&user).unwrap();
        let before = d.duplicate();
        d.pronouns = pronouns;
        d.current_sanity();
        let copy = d.duplicate();
        let ghost dv = d@;
        let _ = s.users.insert(user, d);
        assert(s@.users =~= old(self)@[guild].users.insert(user, dv));
        self.put_guild(guild, s);
        assert(self@ =~= old(self)@.insert(guild, with_user(old(self)@[guild], user, dv)));
        (before, copy)
    }

    /// Removes `user`'s registration in every server; lists the removed
    /// registrations, once per server.
    pub fn deregister_everywhere(&mut self, user: u64) -> (r: Vec<(u64, UserData)>)
        ensures
            final(self)@.dom() == old(self)@.dom(),
            forall|g: u64| #[trigger]
                old(self)@.contains_key(g) ==> final(self)@[g] == without_user(old(self)@[g], user),
            lists_registrations(entry_views(r@), old(self)@, user),
    {
        let ghost start = self@;
        let ids = self.guild_ids();
        let mut r: Vec<(u64, UserData)> = Vec::new();
        let n = ids.len();
        let mut i: usize = 0;
        assert(ids@.take(0) =~= Seq::<u64>::empty());
        while i < n
            invariant
                n == ids@.len(),
                i <= n,
                ids@.to_set() == start.dom(),
                ids@.no_duplicates(),
                self@.dom() == start.dom(),
                forall|j: int|
                    0 <= j < i ==> self@[#[trigger] ids@[j]] == without_user(start[ids@[j]], user),
                forall|j: int| i <= j < n ==> self@[#[trigger] ids@[j]] == start[ids@[j]],
                guilds_of(entry_views(r@)) == selected_ids(
                    ids@.take(i as int),
                    registered_pred(start, user),
                ),
                forall|k: int|
                    0 <= k < r@.len() ==> registered_in(start, (#[trigger] entry_views(r@)[k]).0, user)
                        && entry_views(r@)[k].1 == start[entry_views(r@)[k].0].users[user],
            decreases n - i,
        {
            let g = ids[i];
            let ghost before = r@;
            proof {
                assert(ids@.take(i + 1).drop_last() =~= ids@.take(i as int));
                assert(ids@.contains(g));
                assert(ids@.to_set().contains(g));
            }
            if self.user_data(g, user).is_some() {
                let d = self.deregister_user(g, user);
                r.push((g, d));
                proof {
                    assert(entry_views(r@) =~= entry_views(before).push((g, start[g].users[user])));
                    assert(guilds_of(entry_views(r@)) =~= guilds_of(entry_views(before)).push(g));
                    assert forall|j: int| 0 <= j < i implies self@[#[trigger] ids@[j]]
                        == without_user(start[ids@[j]], user) by {
                        assert(ids@[j] != g);
                    }
                    assert forall|j: int| i < j < n implies self@[#[trigger] ids@[j]]
                        == start[ids@[j]] by {
                        assert(ids@[j] != g);
                    }
                }
            } else {
                proof {
                    assert(self@[g].users =~= start[g].users.remove(user));
                    assert(self@[g] == without_user(start[g], user));
                }
            }
            i = i + 1;
        }
        proof {
            assert(ids@.take(n as int) =~= ids@);
            lemma_selected_ids(ids@, registered_pred(start, user));
            assert forall|g: u64| #[trigger] start.contains_key(g) implies self@[g] == without_user(
                start[g],
                user,
            ) by {
                assert(ids@.to_set().contains(g));
                let j = choose|j: int| 0 <= j < ids@.len() && ids@[j] == g;
                assert(self@[ids@[j]] == without_user(start[ids@[j]], user));
            }
            assert forall|g: u64| registered_in(start, g, user) implies ids@.contains(g) by {
                assert(ids@.to_set().contains(g));
            }
        }
        r
    }
}

/// Servers where `user` is registered, which `user` does not own, and
/// whose nickname setting for `user` differs from `value`.
pub open spec fn setting_differs_pred(
    d: Map<u64, ServerView>,
    user: u64,
    value: bool,
    owned: Seq<u64>,
) -> spec_fn(u64) -> bool {
    |g: u64|
        registered_in(d, g, user) && !owned.contains(g) && d[g].users[user].change_nickname != value
}

/// What a server's state becomes when `user` sets their nickname setting to
/// `value` everywhere except in the servers they own.
pub open spec fn setting_applied(
    s: ServerView,
    g: u64,
    user: u64,
    value: bool,
    owned: Seq<u64>,
) -> ServerView {
    if s.users.contains_key(user) && !owned.contains(g) {
        with_user(s, user, UserDataView { change_nickname: value, ..s.users[user] })
    } else {
        s
    }
}

/// The server ids, previous and new registrations of a list of pronoun
/// changes.
pub open spec fn change_views(r: Seq<(u64, UserData, UserData)>) -> Seq<(u64, UserDataView)> {
    r.map_values(|e: (u64, UserData, UserData)| (e.0, e.2@))
}

/// What replacing the pronoun sets by `ps` may do to a registration.
pub open spec fn pronouns_rel(ps: Seq<Seq<char>>) -> spec_fn(UserDataView, UserDataView) -> bool {
    |new: UserDataView, old: UserDataView| pronouns_set(new, old, ps)
}

impl BotData {
    /// Sets `user`'s nickname setting to `value` in every server where they
    /// are registered, except the servers in `owned`; lists the servers where
    /// the setting changed, with the new registration.
    pub fn set_change_nickname_everywhere(&mut self, user: u64, value: bool, owned: &Vec<u64>) -> (r:
        Vec<(u64, UserData)>)
        ensures
            final(self)@.dom() == old(self)@.dom(),
            forall|g: u64| #[trigger]
                old(self)@.contains_key(g) ==> final(self)@[g] == setting_applied(
                    old(self)@[g],
                    g,
                    user,
                    value,
                    owned@,
                ),
            guilds_of(entry_views(r@)).no_duplicates(),
            forall|g: u64|
                setting_differs_pred(old(self)@, user, value, owned@)(g) <==> #[trigger] guilds_of(
                    entry_views(r@),
                ).contains(g),
            forall|k: int|
                0 <= k < r@.len() ==> (#[trigger] entry_views(r@)[k]).1 == final(self)@[entry_views(
                    r@,
                )[k].0].users[user],
    {
        let ghost start = self@;
        let ghost pred = setting_differs_pred(start, user, value, owned@);
        let ids = self.guild_ids();
        let mut r: Vec<(u64, UserData)> = Vec::new();
        let n = ids.len();
        let mut i: usize = 0;
        assert(ids@.take(0) =~= Seq::<u64>::empty());
        while i < n
            invariant
                n == ids@.len(),
                i <= n,
                ids@.to_set() == start.dom(),
                ids@.no_duplicates(),
                pred == setting_differs_pred(start, user, value, owned@),
                self@.dom() == start.dom(),
                forall|j: int|
                    0 <= j < i ==> self@[#[trigger] ids@[j]] == setting_applied(
                        start[ids@[j]],
                        ids@[j],
                        user,
                        value,
                        owned@,
                    ),
                forall|j: int| i <= j < n ==> self@[#[trigger] ids@[j]] == start[ids@[j]],
                guilds_of(entry_views(r@)) == selected_ids(ids@.take(i as int), pred),
                forall|k: int|
                    0 <= k < r@.len() ==> (#[trigger] entry_views(r@)[k]).1 == self@[entry_views(
                        r@,
                    )[k].0].users[user],
            decreases n - i,
        {
            let g = ids[i];
            let ghost before = r@;
            proof {
                assert(ids@.take(i + 1).drop_last() =~= ids@.take(i as int));
                assert(ids@.contains(g));
                assert(ids@.to_set().contains(g));
                lemma_selected_ids(ids@.take(i as int), pred);
            }
            let is_owned = contains_id(owned, g);
            if !is_owned && self.user_data(g, user).is_some() {
                let (changed, d) = self.set_change_nickname(g, user, value);
                proof {
                    assert(self@[g].users =~= start[g].users.insert(
                        user,
                        UserDataView { change_nickname: value, ..start[g].users[user] },
                    ));
                    assert(self@[g] == setting_applied(start[g], g, user, value, owned@));
                    assert forall|j: int| 0 <= j < i implies self@[#[trigger] ids@[j]]
                        == setting_applied(start[ids@[j]], ids@[j], user, value, owned@) by {
                        assert(ids@[j] != g);
                    }
                    assert forall|j: int| i < j < n implies self@[#[trigger] ids@[j]]
                        == start[ids@[j]] by {
                        assert(ids@[j] != g);
                    }
                }
                if changed {
                    r.push((g, d));
                    proof {
                        assert(entry_views(r@) =~= entry_views(before).push((g, self@[g].users[user])));
                        assert(guilds_of(entry_views(r@)) =~= guilds_of(entry_views(before)).push(g));
                    }
                }
                proof {
                    assert forall|q: int| 0 <= q < r@.len() implies (#[trigger] entry_views(
                        r@,
                    )[q]).1 == self@[entry_views(r@)[q].0].users[user] by {
                        if q < before.len() {
                            assert(entry_views(r@)[q] == entry_views(before)[q]);
                            assert(guilds_of(entry_views(before))[q] == entry_views(before)[q].0);
                            assert(selected_ids(ids@.take(i as int), pred).contains(
                                entry_views(before)[q].0,
                            ));
                            let j = choose|j: int|
                                0 <= j < i && ids@.take(i as int)[j] == entry_views(before)[q].0;
                            assert(ids@[j] != g);
                        }
                    }
                }
            } else {
                proof {
                    assert(self@[g] == setting_applied(start[g], g, user, value, owned@));
                }
            }
            i = i + 1;
        }
        proof {
            assert(ids@.take(n as int) =~= ids@);
            lemma_selected_ids(ids@, pred);
            assert forall|g: u64| #[trigger] start.contains_key(g) implies self@[g] == setting_applied(
                start[g],
                g,
                user,
                value,
                owned@,
            ) by {
                assert(ids@.to_set().contains(g));
                let j = choose|j: int| 0 <= j < ids@.len() && ids@[j] == g;
                assert(self@[ids@[j]] == setting_applied(start[ids@[j]], ids@[j], user, value, owned@));
            }
            assert forall|g: u64| pred(g) implies ids@.contains(g) by {
                assert(ids@.to_set().contains(g));
            }
        }
        r
    }

    /// Replaces `user`'s pronoun sets in every server where they are
    /// registered; lists per server the registration before and after.
    pub fn set_pronouns_everywhere(&mut self, user: u64, pronouns: &Vec<String>) -> (r: Vec<
        (u64, UserData, UserData),
    >)
        ensures
            final(self)@.dom() == old(self)@.dom(),
            forall|g: u64| #[trigger]
                old(self)@.contains_key(g) ==> changed_for(
                    final(self)@[g],
                    old(self)@[g],
                    user,
                    pronouns_rel(pronouns.deep_view()),
                ),
            guilds_of(change_views(r@)).no_duplicates(),
            forall|g: u64|
                registered_in(old(self)@, g, user) <==> #[trigger] guilds_of(
                    change_views(r@),
                ).contains(g),
            forall|k: int|
                0 <= k < r@.len() ==> {
                    let g = (#[trigger] r@[k]).0;
                    &&& r@[k].1@ == old(self)@[g].users[user]
                    &&& r@[k].2@ == final(self)@[g].users[user]
                },
    {
        let ghost start = self@;
        let ghost ps = pronouns.deep_view();
        let ids = self.guild_ids();
        let mut r: Vec<(u64, UserData, UserData)> = Vec::new();
        let n = ids.len();
        let mut i: usize = 0;
        assert(ids@.take(0) =~= Seq::<u64>::empty());
        while i < n
            invariant
                n == ids@.len(),
                i <= n,
                ids@.to_set() == start.dom(),
                ids@.no_duplicates(),
                ps == pronouns.deep_view(),
                self@.dom() == start.dom(),
                forall|j: int|
                    0 <= j < i ==> changed_for(
                        self@[#[trigger] ids@[j]],
                        start[ids@[j]],
                        user,
                        pronouns_rel(ps),
                    ),
                forall|j: int| i <= j < n ==> self@[#[trigger] ids@[j]] == start[ids@[j]],
                guilds_of(change_views(r@)) == selected_ids(
                    ids@.take(i as int),
                    registered_pred(start, user),
                ),
                forall|k: int|
                    0 <= k < r@.len() ==> {
                        let g = (#[trigger] r@[k]).0;
                        &&& r@[k].1@ == start[g].users[user]
                        &&& r@[k].2@ == self@[g].users[user]
                    },
            decreases n - i,
        {
            let g = ids[i];
            let ghost before = r@;
            proof {
                assert(ids@.take(i + 1).drop_last() =~= ids@.take(i as int));
                assert(ids@.contains(g));
                assert(ids@.to_set().contains(g));
                assert(self@[g] == start[g]);
                lemma_selected_ids(ids@.take(i as int), registered_pred(start, user));
            }
            if self.user_data(g, user).is_some() {
                let copy = pronouns.clone();
                assert(copy@ =~= pronouns@);
                assert(copy.deep_view() =~= ps);
                let (old_data, new_data) = self.set_pronouns(g, user, copy);
                r.push((g, old_data, new_data));
                proof {
                    assert(change_views(r@) =~= change_views(before).push((g, new_data@)));
                    assert(guilds_of(change_views(r@)) =~= guilds_of(change_views(before)).push(g));
                    assert(changed_for(self@[g], start[g], user, pronouns_rel(ps))) by {
                        assert(self@[g].users =~= start[g].users.insert(user, new_data@));
                        assert(self@[g].users.dom() =~= start[g].users.dom());
                        assert(pronouns_rel(ps)(self@[g].users[user], start[g].users[user]));
                    }
                    assert forall|k: int| 0 <= k < before.len() implies (#[trigger] before[k]).0
                        != g by {
                        assert(guilds_of(change_views(before))[k] == before[k].0);
                        assert(selected_ids(ids@.take(i as int), registered_pred(start, user)).contains(
                            before[k].0,
                        ));
                        let j = choose|j: int|
                            0 <= j < i && ids@.take(i as int)[j] == before[k].0;
                        assert(ids@[j] == before[k].0);
                    }
                    assert forall|j: int| 0 <= j < i implies changed_for(
                        self@[#[trigger] ids@[j]],
                        start[ids@[j]],
                        user,
                        pronouns_rel(ps),
                    ) by {
                        assert(ids@[j] != g);
                    }
                    assert forall|j: int| i < j < n implies self@[#[trigger] ids@[j]]
                        == start[ids@[j]] by {
                        assert(ids@[j] != g);
                    }
                    assert forall|k: int| 0 <= k < r@.len() implies {
                        let g2 = (#[trigger] r@[k]).0;
                        &&& r@[k].1@ == start[g2].users[user]
                        &&& r@[k].2@ == self@[g2].users[user]
                    } by {
                        if k < before.len() {
                            assert(r@[k] == before[k]);
                        }
                    }
                }
            } else {
                proof {
                    assert(changed_for(self@[g], start[g], user, pronouns_rel(ps)));
                }
            }
            i = i + 1;
        }
        proof {
            assert(ids@.take(n as int) =~= ids@);
            lemma_selected_ids(ids@, registered_pred(start, user));
            assert forall|g: u64| #[trigger] start.contains_key(g) implies changed_for(
                self@[g],
                start[g],
                user,
                pronouns_rel(ps),
            ) by {
                assert(ids@.to_set().contains(g));
                let j = choose|j: int| 0 <= j < ids@.len() && ids@[j] == g;
                assert(changed_for(self@[ids@[j]], start[ids@[j]], user, pronouns_rel(ps)));
            }
            assert forall|g: u64| registered_in(start, g, user) implies ids@.contains(g) by {
                assert(ids@.to_set().contains(g));
            }
        }
        r
    }
}

/// The user ids of a list of per-user entries.
pub open spec fn users_of_entries<T>(r: Seq<(u64, T)>) -> Seq<u64> {
    r.map_values(|e: (u64, T)| e.0)
}

/// A server's state after the quiet daily reroll: members with exactly one
/// pronoun set keep their registration, every other registration is
/// rerolled.
pub open spec fn quietly_rerolled(new: ServerView, old: ServerView) -> bool {
    &&& new.update_channel == old.update_channel
    &&& new.users.dom() == old.users.dom()
    &&& forall|u: u64| #[trigger]
        old.users.contains_key(u) ==> if old.users[u].pronouns.len() == 1 {
            new.users[u] == old.users[u]
        } else {
            new.users[u].is_reroll_of(old.users[u])
        }
}

/// A server's state after the announced daily reroll: every registration
/// is rerolled.
pub open spec fn all_rerolled(new: ServerView, old: ServerView) -> bool {
    &&& new.update_channel == old.update_channel
    &&& new.users.dom() == old.users.dom()
    &&& forall|u: u64| #[trigger]
        old.users.contains_key(u) ==> new.users[u].is_reroll_of(old.users[u])
}

/// Every registration of the server has its current index in range.
pub open spec fn server_well_formed(s: ServerView) -> bool {
    forall|u: u64| #[trigger] s.users.contains_key(u) ==> s.users[u].current_in_range()
}

/// Members with other than exactly one pronoun set.
pub open spec fn rotating_pred(s: ServerView) -> spec_fn(u64) -> bool {
    |u: u64| s.users.contains_key(u) && s.users[u].pronouns.len() != 1
}

/// Every member of the server.
pub open spec fn member_pred(s: ServerView) -> spec_fn(u64) -> bool {
    |u: u64| s.users.contains_key(u)
}

/// One server's turn in the daily pass: a server without an announcement
/// channel gets the quiet reroll, one with a channel the announced reroll,
/// and every other server stays as it was. A server that is no longer
/// known is skipped.
pub open spec fn daily_step(new: Map<u64, ServerView>, old: Map<u64, ServerView>, guild: u64) -> bool {
    if old.contains_key(guild) {
        &&& new.dom() == old.dom()
        &&& forall|g: u64| #[trigger] old.contains_key(g) && g != guild ==> new[g] == old[g]
        &&& if old[guild].update_channel is None {
            quietly_rerolled(new[guild], old[guild])
        } else {
            all_rerolled(new[guild], old[guild])
        }
    } else {
        new == old
    }
}

/// `states` are the registry before the daily pass, after each server's
/// turn, in the order of `guilds`.
pub open spec fn daily_pass(states: Seq<Map<u64, ServerView>>, guilds: Seq<u64>) -> bool {
    &&& states.len() == guilds.len() + 1
    &&& forall|i: int| 0 <= i < guilds.len() ==> daily_step(states[i + 1], #[trigger] states[i], guilds[i])
}

/// What the daily pass keeps of the registry: the servers, their channels
/// and members, each member's pronoun sets and nickname setting; in a server
/// without a channel, a member with a single set is left as is.
pub open spec fn pass_keeps(new: Map<u64, ServerView>, old: Map<u64, ServerView>) -> bool {
    &&& new.dom() == old.dom()
    &&& forall|g: u64| #[trigger] old.contains_key(g) ==> {
        &&& new[g].update_channel == old[g].update_channel
        &&& new[g].users.dom() == old[g].users.dom()
        &&& forall|u: u64| #[trigger] old[g].users.contains_key(u) ==> {
            &&& new[g].users[u].pronouns == old[g].users[u].pronouns
            &&& new[g].users[u].change_nickname == old[g].users[u].change_nickname
            &&& (old[g].update_channel is None && old[g].users[u].pronouns.len() == 1) ==> new[g].users[u]
                == old[g].users[u]
        }
    }
}

/// One member's outcome of the announced daily reroll.
#[derive(Debug)]
pub struct DailyReroll {
    pub user: u64,
    /// The pronoun set in use before the reroll.
    pub previous: String,
    /// The pronoun set in use after it.
    pub current: String,
    /// Whether the bot manages the member's nickname.
    pub change_nickname: bool,
}

impl BotData {
    /// The registrations of a server, once per member.
    pub fn users_of(&self, guild: u64) -> (r: Vec<(u64, UserData)>)
        requires
            self@.contains_key(guild),
        ensures
            users_of_entries(r@).to_set() == self@[guild].users.dom(),
            users_of_entries(r@).no_duplicates(),
            forall|k: int|
                0 <= k < r@.len() ==> (#[trigger] r@[k]).1@ == self@[guild].users[r@[k].0],
    {
        let s = self.guilds.get(&guild).unwrap();
        let ids = keys_of(&s.users);
        let mut r: Vec<(u64, UserData)> = Vec::new();
        let n = ids.len();
        let mut i: usize = 0;
        while i < n
            invariant
                n == ids@.len(),
                i <= n,
                s@ == self@[guild],
                ids@.to_set() == s.users@.dom(),
                users_of_entries(r@) == ids@.take(i as int),
                forall|k: int| 0 <= k < r@.len() ==> (#[trigger] r@[k]).1@ == s@.users[r@[k].0],
            decreases n - i,
        {
            let u = ids[i];
            assert(ids@.to_set().contains(u));
            let d = s.users.get(&u).unwrap().duplicate();
            let ghost before = r@;
            r.push((u, d));
            assert(r@ == before.push((u, d)));
            assert(users_of_entries(r@) =~= users_of_entries(before).push(u));
            assert(ids@.take(i + 1) =~= ids@.take(i as int).push(u));
            assert forall|k: int| 0 <= k < r@.len() implies (#[trigger] r@[k]).1@ == s@.users[r@[k].0] by {
                if k < before.len() {
                    assert(r@[k] == before[k]);
                }
            }
            i = i + 1;
        }
        assert(ids@.take(n as int) =~= ids@);
        assert(s@.users.dom() =~= s.users@.dom());
        r
    }

    /// The quiet daily reroll of a server without an announcement channel:
    /// rerolls every member with other than exactly one pronoun set; lists
    /// for each the previous pronoun set and the new registration.
    pub fn daily_reroll_quiet(&mut self, guild: u64) -> (r: Vec<(u64, String, UserData)>)
        requires
            old(self)@.contains_key(guild),
            forall|u: u64| #[trigger] rotating_pred(old(self)@[guild])(u) ==> old(self)@[guild].users[u].current_in_range(),
        ensures
            final(self)@.dom() == old(self)@.dom(),
            forall|g: u64| #[trigger] old(self)@.contains_key(g) && g != guild ==> final(self)@[g] == old(self)@[g],
            quietly_rerolled(final(self)@[guild], old(self)@[guild]),
            old(self)@[guild].update_channel is None ==> daily_step(final(self)@, old(self)@, guild),
            guilds_of(reroll_views(r@)).no_duplicates(),
            forall|u: u64|
                rotating_pred(old(self)@[guild])(u) <==> #[trigger] guilds_of(
                    reroll_views(r@),
                ).contains(u),
            forall|k: int|
                0 <= k < r@.len() ==> {
                    let u = (#[trigger] r@[k]).0;
                    &&& r@[k].1@ == old(self)@[guild].users[u].current_text()
                    &&& r@[k].2@ == final(self)@[guild].users[u]
                },
    {
        let mut s = self.take_guild(guild);
        let ghost start = s@;
        let ids = keys_of(&s.users);
        let mut r: Vec<(u64, String, UserData)> = Vec::new();
        let n = ids.len();
        let mut i: usize = 0;
        assert(ids@.take(0) =~= Seq::<u64>::empty());
        while i < n
            invariant
                n == ids@.len(),
                i <= n,
                ids@.to_set() == start.users.dom(),
                ids@.no_duplicates(),
                forall|u: u64| #[trigger] rotating_pred(start)(u) ==> start.users[u].current_in_range(),
                s@.update_channel == start.update_channel,
                s@.users.dom() == start.users.dom(),
                forall|j: int|
                    0 <= j < i ==> if start.users[#[trigger] ids@[j]].pronouns.len() == 1 {
                        s@.users[ids@[j]] == start.users[ids@[j]]
                    } else {
                        s@.users[ids@[j]].is_reroll_of(start.users[ids@[j]])
                    },
                forall|j: int| i <= j < n ==> s@.users[#[trigger] ids@[j]] == start.users[ids@[j]],
                guilds_of(reroll_views(r@)) == selected_ids(ids@.take(i as int), rotating_pred(start)),
                forall|k: int|
                    0 <= k < r@.len() ==> {
                        let u = (#[trigger] r@[k]).0;
                        &&& r@[k].1@ == start.users[u].current_text()
                        &&& r@[k].2@ == s@.users[u]
                    },
            decreases n - i,
        {
            let u = ids[i];
            let ghost before = r@;
            proof {
                assert(ids@.take(i + 1).drop_last() =~= ids@.take(i as int));
                assert(ids@.contains(u));
                assert(ids@.to_set().contains(u));
                lemma_selected_ids(ids@.take(i as int), rotating_pred(start));
            }
            let ghost mid = s@.users;
            assert(mid[ids@[i as int]] == start.users[ids@[i as int]]);
            let mut d = s.users.remove(&u).unwrap();
            if d.pronouns.len() != 1 {
                assert(d@ == start.users[u]);
                assert(rotating_pred(start)(u));
                let prev = d.current_and_reroll();
                let copy = d.duplicate();
                let _ = s.users.insert(u, d);
                r.push((u, prev, copy));
                proof {
                    assert(s@.users =~= mid.insert(u, copy@));
                    assert(reroll_views(r@) =~= reroll_views(before).push((u, copy@)));
                    assert(guilds_of(reroll_views(r@)) =~= guilds_of(reroll_views(before)).push(u));
                    assert forall|k: int| 0 <= k < before.len() implies (#[trigger] before[k]).0 != u by {
                        assert(guilds_of(reroll_views(before))[k] == before[k].0);
                        assert(selected_ids(ids@.take(i as int), rotating_pred(start)).contains(before[k].0));
                        let j = choose|j: int| 0 <= j < i && ids@.take(i as int)[j] == before[k].0;
                        assert(ids@[j] == before[k].0);
                    }
                    assert forall|k: int| 0 <= k < r@.len() implies {
                        let u2 = (#[trigger] r@[k]).0;
                        &&& r@[k].1@ == start.users[u2].current_text()
                        &&& r@[k].2@ == s@.users[u2]
                    } by {
                        if k < before.len() {
                            assert(r@[k] == before[k]);
                        }
                    }
                }
            } else {
                let ghost dv = d@;
                let _ = s.users.insert(u, d);
                assert(s@.users =~= mid.insert(u, dv));
            }
            proof {
                assert forall|j: int| 0 <= j < i implies s@.users[#[trigger] ids@[j]] == mid[ids@[j]] by {
                    assert(ids@[j] != u);
                }
                assert forall|j: int| i < j < n implies s@.users[#[trigger] ids@[j]] == mid[ids@[j]] by {
                    assert(ids@[j] != u);
                }
                assert(s@.users.dom() =~= start.users.dom());
            }
            i = i + 1;
        }
        proof {
            assert(ids@.take(n as int) =~= ids@);
            lemma_selected_ids(ids@, rotating_pred(start));
            assert forall|u: u64| #[trigger] start.users.contains_key(u) implies if start.users[u].pronouns.len() == 1 {
                s@.users[u] == start.users[u]
            } else {
                s@.users[u].is_reroll_of(start.users[u])
            } by {
                assert(ids@.to_set().contains(u));
                let j = choose|j: int| 0 <= j < ids@.len() && ids@[j] == u;
                assert(ids@[j] == u);
            }
            assert forall|u: u64| rotating_pred(start)(u) implies ids@.contains(u) by {
                assert(ids@.to_set().contains(u));
            }
        }
        self.put_guild(guild, s);
        r
    }

    /// The daily reroll of a server with an announcement channel: rerolls
    /// every member; lists for each the pronoun set before and after and
    /// whether the bot manages their nickname.
    pub fn daily_reroll_announced(&mut self, guild: u64) -> (r: Vec<DailyReroll>)
        requires
            old(self)@.contains_key(guild),
            server_well_formed(old(self)@[guild]),
        ensures
            final(self)@.dom() == old(self)@.dom(),
            forall|g: u64| #[trigger] old(self)@.contains_key(g) && g != guild ==> final(self)@[g] == old(self)@[g],
            all_rerolled(final(self)@[guild], old(self)@[guild]),
            old(self)@[guild].update_channel is Some ==> daily_step(final(self)@, old(self)@, guild),
            r@.map_values(|e: DailyReroll| e.user).no_duplicates(),
            r@.map_values(|e: DailyReroll| e.user).to_set() == old(self)@[guild].users.dom(),
            forall|k: int|
                0 <= k < r@.len() ==> {
                    let u = (#[trigger] r@[k]).user;
                    &&& r@[k].previous@ == old(self)@[guild].users[u].current_text()
                    &&& r@[k].current@ == final(self)@[guild].users[u].current_text()
                    &&& r@[k].change_nickname == old(self)@[guild].users[u].change_nickname
                },
    {
        let mut s = self.take_guild(guild);
        let ghost start = s@;
        let ids = keys_of(&s.users);
        let mut r: Vec<DailyReroll> = Vec::new();
        let n = ids.len();
        let mut i: usize = 0;
        while i < n
            invariant
                n == ids@.len(),
                i <= n,
                ids@.to_set() == start.users.dom(),
                ids@.no_duplicates(),
                server_well_formed(start),
                s@.update_channel == start.update_channel,
                s@.users.dom() == start.users.dom(),
                forall|j: int|
                    0 <= j < i ==> s@.users[#[trigger] ids@[j]].is_reroll_of(start.users[ids@[j]]),
                forall|j: int| i <= j < n ==> s@.users[#[trigger] ids@[j]] == start.users[ids@[j]],
                r@.map_values(|e: DailyReroll| e.user) == ids@.take(i as int),
                forall|k: int|
                    0 <= k < r@.len() ==> {
                        let u = (#[trigger] r@[k]).user;
                        &&& r@[k].previous@ == start.users[u].current_text()
                        &&& r@[k].current@ == s@.users[u].current_text()
                        &&& r@[k].change_nickname == start.users[u].change_nickname
                    },
            decreases n - i,
        {
            let u = ids[i];
            let ghost before = r@;
            proof {
                assert(ids@.contains(u));
                assert(ids@.to_set().contains(u));
            }
            let ghost mid = s@.users;
            let mut d = s.users.remove(&u).unwrap();
            let previous = d.current_and_reroll();
            let current = d.current_pronoun().to_owned();
            let change_nickname = d.change_nickname;
            let ghost dv = d@;
            let _ = s.users.insert(u, d);
            r.push(DailyReroll { user: u, previous, current, change_nickname });
            proof {
                assert(s@.users =~= mid.insert(u, dv));
                assert(r@.map_values(|e: DailyReroll| e.user) =~= before.map_values(|e: DailyReroll| e.user).push(u));
                assert(ids@.take(i + 1) =~= ids@.take(i as int).push(u));
                assert forall|j: int| 0 <= j < i implies s@.users[#[trigger] ids@[j]] == mid[ids@[j]] by {
                    assert(ids@[j] != u);
                }
                assert forall|j: int| i < j < n implies s@.users[#[trigger] ids@[j]] == mid[ids@[j]] by {
                    assert(ids@[j] != u);
                }
                assert(s@.users.dom() =~= start.users.dom());
                assert forall|k: int| 0 <= k < r@.len() implies {
                    let u2 = (#[trigger] r@[k]).user;
                    &&& r@[k].previous@ == start.users[u2].current_text()
                    &&& r@[k].current@ == s@.users[u2].current_text()
                    &&& r@[k].change_nickname == start.users[u2].change_nickname
                } by {
                    if k < before.len() {
                        assert(r@[k] == before[k]);
                        assert(before.map_values(|e: DailyReroll| e.user)[k] == ids@[k]);
                        assert(ids@[k] != u);
                    }
                }
            }
            i = i + 1;
        }
        proof {
            assert(ids@.take(n as int) =~= ids@);
            assert forall|u: u64| #[trigger] start.users.contains_key(u) implies s@.users[u].is_reroll_of(start.users[u]) by {
                assert(ids@.to_set().contains(u));
                let j = choose|j: int| 0 <= j < ids@.len() && ids@[j] == u;
                assert(ids@[j] == u);
            }
        }
        self.put_guild(guild, s);
        r
    }
}

impl BotData {
    /// Registers `user` in server `to` with a copy of their registration in
    /// server `from`; the bot manages the nickname in `to` only if it did in
    /// `from` and the member does not own `to`.
    pub fn register_copy(&mut self, from: u64, to: u64, user: u64, owns_target: bool)
        requires
            registered_in(old(self)@, from, user),
            old(self)@.contains_key(to),
        ensures
            final(self)@ == old(self)@.insert(
                to,
                with_user(
                    old(self)@[to],
                    user,
                    UserDataView {
                        change_nickname: old(self)@[from].users[user].change_nickname && !owns_target,
                        ..old(self)@[from].users[user]
                    },
                ),
            ),
    {
        let mut data = self.user_data(from, user).unwrap().duplicate();
        data.change_nickname = data.change_nickname && !owns_target;
        self.register_user(to, user, data);
    }

    /// Each known server with its announcement channel, once per server.
    pub fn guild_channels(&self) -> (r: Vec<(u64, Option<u64>)>)
        ensures
            users_of_entries(r@).to_set() == self@.dom(),
            users_of_entries(r@).no_duplicates(),
            forall|k: int| 0 <= k < r@.len() ==> (#[trigger] r@[k]).1 == self@[r@[k].0].update_channel,
    {
        let ids = self.guild_ids();
        let mut r: Vec<(u64, Option<u64>)> = Vec::new();
        let n = ids.len();
        let mut i: usize = 0;
        while i < n
            invariant
                n == ids@.len(),
                i <= n,
                ids@.to_set() == self@.dom(),
                users_of_entries(r@) == ids@.take(i as int),
                forall|k: int| 0 <= k < r@.len() ==> (#[trigger] r@[k]).1 == self@[r@[k].0].update_channel,
            decreases n - i,
        {
            let g = ids[i];
            assert(ids@.to_set().contains(g));
            let channel = self.guilds.get(&g).unwrap().update_channel;
            let ghost before = r@;
            r.push((g, channel));
            assert(users_of_entries(r@) =~= users_of_entries(before).push(g));
            assert(ids@.take(i + 1) =~= ids@.take(i as int).push(g));
            assert forall|k: int| 0 <= k < r@.len() implies (#[trigger] r@[k]).1 == self@[r@[k].0].update_channel by {
                if k < before.len() {
                    assert(r@[k] == before[k]);
                }
            }
            i = i + 1;
        }
        assert(ids@.take(n as int) =~= ids@);
        r
    }

    /// Whether every registration of a server has its current index in
    /// range.
    pub fn server_is_well_formed(&self, guild: u64) -> (b: bool)
        requires
            self@.contains_key(guild),
        ensures
            b == server_well_formed(self@[guild]),
    {
        let users = self.users_of(guild);
        let n = users.len();
        let mut i: usize = 0;
        while i < n
            invariant
                n == users@.len(),
                i <= n,
                users_of_entries(users@).to_set() == self@[guild].users.dom(),
                forall|k: int|
                    0 <= k < users@.len() ==> (#[trigger] users@[k]).1@ == self@[guild].users[users@[k].0],
                forall|k: int| 0 <= k < i ==> (#[trigger] users@[k]).1@.current_in_range(),
            decreases n - i,
        {
            let d = &users[i].1;
            if d.current >= d.pronouns.len() {
                assert(users_of_entries(users@)[i as int] == users@[i as int].0);
                assert(users_of_entries(users@).to_set().contains(users@[i as int].0));
                return false;
            }
            i = i + 1;
        }
        assert forall|u: u64| #[trigger] self@[guild].users.contains_key(u) implies self@[guild].users[u].current_in_range() by {
            assert(users_of_entries(users@).to_set().contains(u));
            let k = choose|k: int| 0 <= k < users_of_entries(users@).len() && users_of_entries(users@)[k] == u;
            assert(users@[k].0 == u);
        }
        true
    }

    /// Whether every registration has its current index in range.
    pub fn is_well_formed(&self) -> (b: bool)
        ensures
            b == well_formed(self@),
    {
        let ids = self.guild_ids();
        let n = ids.len();
        let mut i: usize = 0;
        while i < n
            invariant
                n == ids@.len(),
                i <= n,
                ids@.to_set() == self@.dom(),
                forall|j: int| 0 <= j < i ==> server_well_formed(self@[#[trigger] ids@[j]]),
            decreases n - i,
        {
            let g = ids[i];
            assert(ids@.to_set().contains(g));
            if !self.server_is_well_formed(g) {
                proof {
                    let u = choose|u: u64| #[trigger] self@[g].users.contains_key(u) && !self@[g].users[u].current_in_range();
                    assert(registered_in(self@, g, u));
                }
                return false;
            }
            i = i + 1;
        }
        assert forall|g: u64, u: u64| #[trigger] registered_in(self@, g, u) implies self@[g].users[u].current_in_range() by {
            assert(ids@.to_set().contains(g));
            let j = choose|j: int| 0 <= j < ids@.len() && ids@[j] == g;
            assert(server_well_formed(self@[ids@[j]]));
        }
        true
    }
}

impl BotData {
    /// Whether each registration of `user` has its current index in range.
    pub fn registrations_in_range(&self, user: u64) -> (b: bool)
        ensures
            b == forall|g: u64| #[trigger]
                registered_in(self@, g, user) ==> self@[g].users[user].current_in_range(),
    {
        let regs = self.registrations_of(user);
        let n = regs.len();
        let mut i: usize = 0;
        while i < n
            invariant
                n == regs@.len(),
                i <= n,
                lists_registrations(entry_views(regs@), self@, user),
                forall|k: int| 0 <= k < i ==> (#[trigger] entry_views(regs@)[k]).1.current_in_range(),
            decreases n - i,
        {
            let d = &regs[i].1;
            assert(entry_views(regs@)[i as int].1 == d@);
            if d.current >= d.pronouns.len() {
                assert(registered_in(self@, entry_views(regs@)[i as int].0, user));
                return false;
            }
            i = i + 1;
        }
        assert forall|g: u64| #[trigger] registered_in(self@, g, user) implies self@[g].users[user].current_in_range() by {
            assert(guilds_of(entry_views(regs@)).contains(g));
            let k = choose|k: int| 0 <= k < guilds_of(entry_views(regs@)).len() && guilds_of(entry_views(regs@))[k] == g;
            assert(entry_views(regs@)[k].0 == g);
        }
        true
    }

    /// Whether each member of a server with other than exactly one pronoun
    /// set has their current index in range.
    pub fn rotating_in_range(&self, guild: u64) -> (b: bool)
        requires
            self@.contains_key(guild),
        ensures
            b == forall|u: u64| #[trigger]
                rotating_pred(self@[guild])(u) ==> self@[guild].users[u].current_in_range(),
    {
        let users = self.users_of(guild);
        let n = users.len();
        let mut i: usize = 0;
        while i < n
            invariant
                n == users@.len(),
                i <= n,
                users_of_entries(users@).to_set() == self@[guild].users.dom(),
                forall|k: int|
                    0 <= k < users@.len() ==> (#[trigger] users@[k]).1@ == self@[guild].users[users@[k].0],
                forall|k: int|
                    0 <= k < i ==> (#[trigger] users@[k]).1@.pronouns.len() != 1 ==> users@[k].1@.current_in_range(),
            decreases n - i,
        {
            let d = &users[i].1;
            if d.pronouns.len() != 1 && d.current >= d.pronouns.len() {
                assert(users_of_entries(users@)[i as int] == users@[i as int].0);
                assert(users_of_entries(users@).to_set().contains(users@[i as int].0));
                assert(rotating_pred(self@[guild])(users@[i as int].0));
                return false;
            }
            i = i + 1;
        }
        assert forall|u: u64| #[trigger] rotating_pred(self@[guild])(u) implies self@[guild].users[u].current_in_range() by {
            assert(users_of_entries(users@).to_set().contains(u));
            let k = choose|k: int| 0 <= k < users_of_entries(users@).len() && users_of_entries(users@)[k] == u;
            assert(users@[k].0 == u);
        }
        true
    }
}

/// Whether the author of a command is registered in some server.
pub fn user_is_registered_anywhere(data: &BotData, user: u64) -> (r: bool)
    ensures
        r == registered_anywhere(data@, user),
{
    let found = data.registrations_of(user);
    proof {
        if registered_anywhere(data@, user) {
            let g = choose|g: u64| #[trigger] registered_in(data@, g, user);
            assert(guilds_of(entry_views(found@)).contains(g));
        }
        if found@.len() > 0 {
            assert(registered_in(data@, entry_views(found@)[0].0, user));
        }
    }
    found.len() > 0
}

/// Whether the command runs in a server the bot knows.
pub fn guild_is_registered(data: &BotData, guild: Option<u64>) -> (r: bool)
    ensures
        r == match guild {
            Some(g) => data@.contains_key(g),
            None => false,
        },
{
    match guild {
        Some(g) => data.guilds.contains_key(&g),
        None => false,
    }
}

/// Whether the author of a command run in a server is registered there.
pub fn user_is_registered(data: &BotData, guild: Option<u64>, user: u64) -> (r: bool)
    ensures
        r == match guild {
            Some(g) => registered_in(data@, g, user),
            None => false,
        },
{
    match guild {
        Some(g) => data.user_data(g, user).is_some(),
        None => false,
    }
}

/// Whether the author of a command is not registered where it runs.
pub fn user_not_registered(data: &BotData, guild: Option<u64>, user: u64) -> (r: bool)
    ensures
        r == !match guild {
            Some(g) => registered_in(data@, g, user),
            None => false,
        },
{
    !user_is_registered(data, guild, user)
}

} // verus!
