use pronoun_bot::announce::{
    cooldown_message, daily_fields, guild_label, registrar_reply, seconds_until_daily_update, user_id_label,
};
use pronoun_bot::autocomplete::filter_candidates;
use pronoun_bot::listing::{sort_fields, Field};

fn field(name: &str, value: &str) -> Field {
    Field { name: name.to_string(), value: value.to_string() }
}

fn names(fs: &[Field]) -> Vec<(String, String)> {
    fs.iter().map(|f| (f.name.clone(), f.value.clone())).collect()
}

#[test]
fn sort_ignores_case_and_shorter_first() {
    let sorted = sort_fields(vec![field("bob", "1"), field("Alice", "2"), field("al", "3"), field("Zed", "4")]);
    assert_eq!(
        names(&sorted),
        vec![
            ("al".to_string(), "3".to_string()),
            ("Alice".to_string(), "2".to_string()),
            ("bob".to_string(), "1".to_string()),
            ("Zed".to_string(), "4".to_string()),
        ]
    );
}

#[test]
fn sort_is_stable_for_equal_keys() {
    let sorted = sort_fields(vec![field("ALEX", "first"), field("b", "x"), field("alex", "second"), field("Alex", "third")]);
    assert_eq!(
        names(&sorted),
        vec![
            ("ALEX".to_string(), "first".to_string()),
            ("alex".to_string(), "second".to_string()),
            ("Alex".to_string(), "third".to_string()),
            ("b".to_string(), "x".to_string()),
        ]
    );
}

#[test]
fn sort_uses_unicode_lowercase() {
    let sorted = sort_fields(vec![field("Émile", "1"), field("éa", "2"), field("e", "3")]);
    assert_eq!(
        names(&sorted),
        vec![
            ("e".to_string(), "3".to_string()),
            ("éa".to_string(), "2".to_string()),
            ("Émile".to_string(), "1".to_string()),
        ]
    );
}

#[test]
fn sort_of_sorted_is_unchanged() {
    let once = sort_fields(vec![field("c", "1"), field("A", "2"), field("b", "3")]);
    let twice = sort_fields(once.iter().map(|f| field(&f.name, &f.value)).collect());
    assert_eq!(names(&once), names(&twice));
}

#[test]
fn daily_fields_add_problem_lists() {
    let too_long = vec!["Very Long Name".to_string(), "Another".to_string()];
    let perms = vec!["Boss".to_string()];
    let fs = daily_fields(vec![field("zoe", "she/her"), field("Ann", "he/him")], &too_long, &perms);
    assert_eq!(
        names(&fs),
        vec![
            ("Ann".to_string(), "he/him".to_string()),
            (
                "Failed to set nicknames for these users due to permissions errors (is my role higher than all these users'?):".to_string(),
                "Boss".to_string()
            ),
            (
                "The following users requested nickname changes, but their nicknames are too long:".to_string(),
                "Very Long Name, Another".to_string()
            ),
            ("zoe".to_string(), "she/her".to_string()),
        ]
    );
    let plain = daily_fields(vec![field("b", "1"), field("a", "2")], &vec![], &vec![]);
    assert_eq!(names(&plain), vec![("a".to_string(), "2".to_string()), ("b".to_string(), "1".to_string())]);
}

#[test]
fn registrar_reply_text() {
    assert_eq!(
        registrar_reply("Alex | she/her", "she/her"),
        "**Alex**'s pronouns are currently **she/her**."
    );
    assert_eq!(registrar_reply("Alex", "she/her"), "**Alex**'s pronouns are currently **she/her**.");
}

#[test]
fn labels() {
    assert_eq!(guild_label(Some("My Server".to_string()), 42), "My Server");
    assert_eq!(guild_label(None, 1234567890), "GID: 1234567890");
    assert_eq!(user_id_label(99), "ID: 99");
}

#[test]
fn daily_update_wait() {
    assert_eq!(seconds_until_daily_update(0), 86399);
    assert_eq!(seconds_until_daily_update(86399), 0);
    assert_eq!(seconds_until_daily_update(43200), 43199);
}

#[test]
fn fuzzy_filter() {
    let channels = vec!["general".to_string(), "announcements".to_string(), "off-topic".to_string()];
    assert_eq!(filter_candidates(channels.clone(), "gen"), vec!["general".to_string()]);
    assert_eq!(filter_candidates(channels.clone(), "an"), vec!["announcements".to_string()]);
    // Lowercase patterns match regardless of ASCII case.
    assert_eq!(filter_candidates(vec!["General".to_string()], "gen"), vec!["General".to_string()]);
    // A capital letter makes the match case sensitive.
    assert_eq!(filter_candidates(vec!["general".to_string()], "Gen"), Vec::<String>::new());
    // Letters in order, with gaps.
    assert_eq!(filter_candidates(channels.clone(), "otp"), vec!["off-topic".to_string()]);
    assert_eq!(filter_candidates(channels.clone(), ""), channels);
    assert_eq!(filter_candidates(channels, "xyz"), Vec::<String>::new());
}

#[test]
fn cooldown_rounds_up() {
    assert_eq!(cooldown_message(9001), "Oops, I've hit a cooldown! Try again in 10 seconds.");
    assert_eq!(cooldown_message(9000), "Oops, I've hit a cooldown! Try again in 9 seconds.");
    assert_eq!(cooldown_message(0), "Oops, I've hit a cooldown! Try again in 0 seconds.");
    assert_eq!(cooldown_message(1), "Oops, I've hit a cooldown! Try again in 1 seconds.");
}
