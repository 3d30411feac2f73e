use pronoun_bot::config::ctx_data_to_config;
use pronoun_bot::error::CfgError;
use pronoun_bot::registry::{
    guild_is_registered, user_is_registered, user_is_registered_anywhere, user_not_registered,
    BotData,
};
use pronoun_bot::user_data::UserData;

fn data(current: usize, change_nickname: bool, sets: &[&str]) -> UserData {
    UserData { current, change_nickname, pronouns: sets.iter().map(|s| s.to_string()).collect() }
}

fn sorted<T: Ord>(mut v: Vec<T>) -> Vec<T> {
    v.sort();
    v
}

fn registry() -> BotData {
    let mut d = BotData::new();
    assert!(d.add_guild(1));
    assert!(d.add_guild(2));
    assert!(d.add_guild(3));
    d.register_user(1, 10, data(0, true, &["she/her", "they/them"]));
    d.register_user(2, 10, data(1, false, &["she/her", "they/them"]));
    d.register_user(1, 11, data(0, true, &["he/him"]));
    d
}

#[test]
fn add_guild_only_once() {
    let mut d = registry();
    assert!(!d.add_guild(1));
    assert!(user_is_registered(&d, Some(1), 10));
    assert!(d.add_guild(4));
    assert!(guild_is_registered(&d, Some(4)));
    assert!(!guild_is_registered(&d, Some(5)));
    assert!(!guild_is_registered(&d, None));
}

#[test]
fn registration_is_read_back() {
    let d = registry();
    assert!(user_is_registered(&d, Some(1), 10));
    assert!(user_is_registered(&d, Some(2), 10));
    assert!(!user_is_registered(&d, Some(3), 10));
    assert!(!user_is_registered(&d, None, 10));
    assert!(user_not_registered(&d, Some(3), 10));
    assert_eq!(d.user_data(1, 11).unwrap().pronouns, vec!["he/him"]);
    assert!(d.user_data(2, 11).is_none());
    assert!(user_is_registered_anywhere(&d, 11));
    assert!(!user_is_registered_anywhere(&d, 12));
}

#[test]
fn deregistration_forgets() {
    let mut d = registry();
    let removed = d.deregister_user(1, 10);
    assert_eq!(removed.pronouns, vec!["she/her", "they/them"]);
    assert!(!user_is_registered(&d, Some(1), 10));
    assert!(user_is_registered(&d, Some(2), 10));
    assert!(user_is_registered(&d, Some(1), 11));
}

#[test]
fn deregister_everywhere_lists_each_server_once() {
    let mut d = registry();
    let removed = d.deregister_everywhere(10);
    assert_eq!(sorted(removed.iter().map(|(g, _)| *g).collect()), vec![1, 2]);
    assert!(!user_is_registered_anywhere(&d, 10));
    assert!(user_is_registered(&d, Some(1), 11));
    assert!(d.deregister_everywhere(10).is_empty());
}

#[test]
fn member_removal_and_guild_removal() {
    let mut d = registry();
    d.remove_member(1, 11);
    assert!(!user_is_registered(&d, Some(1), 11));
    d.remove_member(9, 11);
    d.remove_guild(2);
    assert!(!guild_is_registered(&d, Some(2)));
    assert!(!user_is_registered(&d, Some(2), 10));
    let mut d = registry();
    d.remove_members(1, &vec![10, 11, 99]);
    assert!(d.users_of(1).is_empty());
    assert!(user_is_registered(&d, Some(2), 10));
}

#[test]
fn channels_are_set_and_cleared() {
    let mut d = registry();
    d.set_update_channel(1, Some(555));
    let mut chans = d.guild_channels();
    chans.sort();
    assert_eq!(chans, vec![(1, Some(555)), (2, None), (3, None)]);
    d.set_update_channel(1, None);
    assert!(d.guild_channels().iter().all(|(_, c)| c.is_none()));
}

#[test]
fn reroll_user_and_everywhere() {
    let mut d = registry();
    let (prev, after) = d.reroll_user(1, 10);
    assert_eq!(prev, "she/her");
    assert!(after.current < 2);
    assert_eq!(d.user_data(1, 10).unwrap().current, after.current);
    let rolled = d.reroll_everywhere(10);
    assert_eq!(sorted(rolled.iter().map(|(g, _, _)| *g).collect()), vec![1, 2]);
    for (g, _, new) in &rolled {
        assert_eq!(d.user_data(*g, 10).unwrap().current, new.current);
        assert!(new.current < 2);
    }
    let single = d.reroll_everywhere(11);
    assert_eq!(single.len(), 1);
    assert_eq!(single[0].1, "he/him");
    assert_eq!(single[0].2.current, 0);
}

#[test]
fn nickname_setting() {
    let mut d = registry();
    let (changed, now) = d.set_change_nickname(1, 10, false);
    assert!(changed);
    assert!(!now.change_nickname);
    let (changed, _) = d.set_change_nickname(1, 10, false);
    assert!(!changed);
    // Server 2 is owned by the member and skipped; server 1 changes.
    let changed = d.set_change_nickname_everywhere(10, true, &vec![2]);
    assert_eq!(changed.iter().map(|(g, _)| *g).collect::<Vec<_>>(), vec![1]);
    assert!(d.user_data(1, 10).unwrap().change_nickname);
    assert!(!d.user_data(2, 10).unwrap().change_nickname);
    let changed = d.set_change_nickname_everywhere(10, true, &vec![]);
    assert_eq!(changed.iter().map(|(g, _)| *g).collect::<Vec<_>>(), vec![2]);
    assert!(d.set_change_nickname_everywhere(10, true, &vec![]).is_empty());
}

#[test]
fn pronoun_change_keeps_or_rerolls_index() {
    let mut d = registry();
    let (before, after) = d.set_pronouns(2, 10, vec!["a".to_string(), "b".to_string(), "c".to_string()]);
    assert_eq!(before.current, 1);
    assert_eq!(after.current, 1);
    assert_eq!(after.pronouns, vec!["a", "b", "c"]);
    let (_, after) = d.set_pronouns(2, 10, vec!["x".to_string()]);
    assert_eq!(after.current, 0);
    let changes = d.set_pronouns_everywhere(10, &vec!["p".to_string(), "q".to_string()]);
    assert_eq!(sorted(changes.iter().map(|(g, _, _)| *g).collect()), vec![1, 2]);
    for (g, _, new) in &changes {
        assert_eq!(d.user_data(*g, 10).unwrap().pronouns, vec!["p", "q"]);
        assert!(new.current < 2);
    }
    assert!(d.is_well_formed());
}

#[test]
fn copying_a_registration() {
    let mut d = registry();
    d.register_copy(1, 3, 10, false);
    let copy = d.user_data(3, 10).unwrap();
    assert!(copy.change_nickname);
    assert_eq!(copy.pronouns, vec!["she/her", "they/them"]);
    d.register_copy(1, 3, 10, true);
    assert!(!d.user_data(3, 10).unwrap().change_nickname);
}

#[test]
fn listings() {
    let d = registry();
    let mut users: Vec<u64> = d.users_of(1).iter().map(|(u, _)| *u).collect();
    users.sort();
    assert_eq!(users, vec![10, 11]);
    let regs = d.registrations_of(10);
    assert_eq!(sorted(regs.iter().map(|(g, _)| *g).collect()), vec![1, 2]);
    assert_eq!(sorted(d.guild_ids()), vec![1, 2, 3]);
}

#[test]
fn daily_rerolls() {
    let mut d = registry();
    let quiet = d.daily_reroll_quiet(1);
    // Member 11 has a single set and is skipped.
    assert_eq!(quiet.iter().map(|(u, _, _)| *u).collect::<Vec<_>>(), vec![10]);
    let announced = d.daily_reroll_announced(1);
    assert_eq!(sorted(announced.iter().map(|r| r.user).collect()), vec![10, 11]);
    for r in &announced {
        let now = d.user_data(1, r.user).unwrap();
        assert_eq!(r.current, now.current_pronoun());
        assert_eq!(r.change_nickname, now.change_nickname);
    }
    assert!(d.daily_reroll_announced(3).is_empty());
}

#[test]
fn daily_pass_keeps_servers_members_and_settings() {
    let mut d = registry();
    d.set_update_channel(2, Some(77));
    let before = ctx_data_to_config(&d);
    // One turn per server, as the daily loop takes them.
    for (gid, channel) in d.guild_channels() {
        match channel {
            None => {
                let _ = d.daily_reroll_quiet(gid);
            }
            Some(_) => {
                let _ = d.daily_reroll_announced(gid);
            }
        }
    }
    assert!(d.is_well_formed());
    assert_eq!(sorted(d.guild_ids()), vec![1, 2, 3]);
    let mut chans = d.guild_channels();
    chans.sort();
    assert_eq!(chans, vec![(1, None), (2, Some(77)), (3, None)]);
    for (gid, server) in &before.servers.0 {
        let now = sorted(d.users_of(*gid).into_iter().map(|(u, _)| u).collect());
        assert_eq!(now, sorted(server.users.keys().copied().collect()));
        for (uid, old) in &server.users {
            let new = d.user_data(*gid, *uid).unwrap();
            assert_eq!(new.pronouns, old.pronouns);
            assert_eq!(new.change_nickname, old.change_nickname);
            assert!(new.current < new.pronouns.len());
        }
    }
    // Member 11 has a single set in a server without a channel: untouched.
    assert_eq!(d.user_data(1, 11).unwrap().current, 0);
}

#[test]
fn well_formedness_check() {
    let mut d = registry();
    assert!(d.is_well_formed());
    assert!(d.server_is_well_formed(1));
    d.register_user(3, 20, data(4, false, &["a"]));
    assert!(!d.server_is_well_formed(3));
    assert!(!d.is_well_formed());
}

#[test]
fn config_round_trip() {
    let mut d = registry();
    d.set_update_channel(2, Some(77));
    let cfg = ctx_data_to_config(&d);
    assert_eq!(cfg.servers.0.len(), 3);
    assert_eq!(cfg.servers.0[&2].update_channel, Some(77));
    let back = BotData::from_config(cfg);
    assert_eq!(sorted(back.guild_ids()), vec![1, 2, 3]);
    assert_eq!(back.user_data(1, 10).unwrap().pronouns, vec!["she/her", "they/them"]);
    assert!(back.user_data(1, 10).unwrap().change_nickname);
    assert_eq!(back.user_data(2, 10).unwrap().current, 1);
    let mut chans = back.guild_channels();
    chans.sort();
    assert_eq!(chans, vec![(1, None), (2, Some(77)), (3, None)]);
}

#[test]
fn cfg_error_gives_its_io_error() {
    let e = CfgError::OnWrite(std::io::Error::new(std::io::ErrorKind::Other, "disk full"));
    assert_eq!(e.into_io_error().to_string(), "disk full");
    let e = CfgError::OnOpen(std::io::Error::new(std::io::ErrorKind::NotFound, "missing"));
    assert_eq!(e.into_io_error().kind(), std::io::ErrorKind::NotFound);
}
