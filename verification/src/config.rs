//! The saved form of the registry and its conversions to and from the
//! running form.

use crate::registry::{keys_of, BotData, ServerConfigCtx, ServerView};
use crate::user_data::{UserData, UserDataView};
use std::collections::HashMap;
use vstd::prelude::*;

verus! {

broadcast use vstd::std_specs::hash::group_hash_axioms;

/// One server's saved state.
#[derive(Debug)]
pub struct ServerConfig {
    pub update_channel: Option<u64>,
    pub users: HashMap<u64, UserData>,
}

impl View for ServerConfig {
    type V = ServerView;

    open spec fn view(&self) -> ServerView {
        ServerView {
            update_channel: self.update_channel,
            users: self.users@.map_values(|u: UserData| u@),
        }
    }
}

/// Saved server states by guild id.
#[derive(Debug)]
pub struct Servers(pub HashMap<u64, ServerConfig>);

/// The saved registry.
#[derive(Debug)]
pub struct Config {
    pub servers: Servers,
}

impl View for Config {
    type V = Map<u64, ServerView>;

    open spec fn view(&self) -> Map<u64, ServerView> {
        self.servers.0@.map_values(|s: ServerConfig| s@)
    }
}

/// A copy of a table of registrations.
fn copy_users(m: &HashMap<u64, UserData>) -> (r: HashMap<u64, UserData>)
    ensures
        r@.map_values(|u: UserData| u@) == m@.map_values(|u: UserData| u@),
{
    let ids = keys_of(m);
    let mut r: HashMap<u64, UserData> = HashMap::new();
    let n = ids.len();
    let mut i: usize = 0;
    while i < n
        invariant
            n == ids@.len(),
            i <= n,
            ids@.to_set() == m@.dom(),
            r@.dom() == ids@.take(i as int).to_set(),
            forall|k: u64| #[trigger] r@.contains_key(k) ==> m@.contains_key(k) && r@[k]@ == m@[k]@,
        decreases n - i,
    {
        let k = ids[i];
        assert(ids@.to_set().contains(k));
        let d = m.get(&k).unwrap().duplicate();
        let _ = r.insert(k, d);
        proof {
            assert(ids@.take(i + 1) =~= ids@.take(i as int).push(k));
            ids@.take(i as int).lemma_push_to_set_commute(k);
            assert(r@.dom() =~= ids@.take(i + 1).to_set());
        }
        i = i + 1;
    }
    assert(ids@.take(n as int) =~= ids@);
    assert(r@.map_values(|u: UserData| u@) =~= m@.map_values(|u: UserData| u@));
    r
}

/// A snapshot of the running registry in its saved form.
pub fn ctx_data_to_config(data: &BotData) -> (r: Config)
    ensures
        r@ == data@,
{
    let ids = data.guild_ids();
    let mut servers: HashMap<u64, ServerConfig> = HashMap::new();
    let n = ids.len();
    let mut i: usize = 0;
    while i < n
        invariant
            n == ids@.len(),
            i <= n,
            ids@.to_set() == data@.dom(),
            servers@.dom() == ids@.take(i as int).to_set(),
            forall|k: u64| #[trigger] servers@.contains_key(k) ==> data@.contains_key(k) && servers@[k]@ == data@[k],
        decreases n - i,
    {
        let g = ids[i];
        assert(ids@.to_set().contains(g));
        let s = data.guilds.get(&g).unwrap();
        let users = copy_users(&s.users);
        let cfg = ServerConfig { update_channel: s.update_channel, users };
        let _ = servers.insert(g, cfg);
        proof {
            assert(ids@.take(i + 1) =~= ids@.take(i as int).push(g));
            ids@.take(i as int).lemma_push_to_set_commute(g);
            assert(servers@.dom() =~= ids@.take(i + 1).to_set());
        }
        i = i + 1;
    }
    assert(ids@.take(n as int) =~= ids@);
    let r = Config { servers: Servers(servers) };
    assert(r@ =~= data@);
    r
}

impl BotData {
    /// The running registry built from its saved form.
    pub fn from_config(cfg: Config) -> (r: BotData)
        ensures
            r@ == cfg@,
    {
        let ghost start = cfg@;
        let mut source = cfg.servers.0;
        let ids = keys_of(&source);
        let mut guilds: HashMap<u64, ServerConfigCtx> = HashMap::new();
        let n = ids.len();
        let mut i: usize = 0;
        while i < n
            invariant
                n == ids@.len(),
                i <= n,
                ids@.no_duplicates(),
                ids@.to_set() == start.dom(),
                forall|j: int| i <= j < n ==> #[trigger] source@.contains_key(ids@[j]) && source@[ids@[j]]@ == start[ids@[j]],
                guilds@.dom() == ids@.take(i as int).to_set(),
                forall|k: u64| #[trigger] guilds@.contains_key(k) ==> start.contains_key(k) && guilds@[k]@ == start[k],
            decreases n - i,
        {
            let g = ids[i];
            assert(ids@.to_set().contains(g));
            let ghost before = source@;
            let s = source.remove(&g).unwrap();
            let ctx = ServerConfigCtx { update_channel: s.update_channel, users: s.users };
            let _ = guilds.insert(g, ctx);
            proof {
                assert(ids@.take(i + 1) =~= ids@.take(i as int).push(g));
                ids@.take(i as int).lemma_push_to_set_commute(g);
                assert(guilds@.dom() =~= ids@.take(i + 1).to_set());
                assert forall|j: int| i + 1 <= j < n implies #[trigger] source@.contains_key(ids@[j]) && source@[ids@[j]]@ == start[ids@[j]] by {
                    assert(ids@[j] != g);
                    assert(before.contains_key(ids@[j]));
                    assert(source@ == before.remove(g));
                }
            }
            i = i + 1;
        }
        assert(ids@.take(n as int) =~= ids@);
        let r = BotData { guilds };
        assert(r@ =~= start);
        r
    }
}

} // verus!
