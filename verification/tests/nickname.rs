use pronoun_bot::nickname::{
    base_nickname, clean_member_nickname, cleaned_nickname, daily_nickname, nickname_warnings,
    should_refresh_nickname, startup_nickname, suffixed_nickname, update_member,
    update_member_nickname,
};
use pronoun_bot::user_data::UserData;

fn data(current: usize, change_nickname: bool, sets: &[&str]) -> UserData {
    UserData { current, change_nickname, pronouns: sets.iter().map(|s| s.to_string()).collect() }
}

const CHANGED: &str = "Successfully changed your current nickname.";

fn warning(which: &str, pronoun: &str, excess: usize) -> String {
    format!(
        "Warning: your current name plus your {which} pronouns (`{pronoun}`) are {excess} characters too long. I will only attempt to modify your nickname if it doesn't require truncation."
    )
}

#[test]
fn cleaning_strips_separator_and_pronoun() {
    assert_eq!(cleaned_nickname("Alex | she/her", "she/her"), Some("Alex"));
    assert_eq!(cleaned_nickname("Alex she/her", "she/her"), None);
    assert_eq!(cleaned_nickname("Alex", "she/her"), None);
    assert_eq!(base_nickname("Alex", "she/her"), "Alex");
    assert_eq!(base_nickname("Alex | ", ""), "Alex");
}

#[test]
fn suffix_then_clean_gives_name_back() {
    let n = suffixed_nickname("Sam", "they/them");
    assert_eq!(n, "Sam | they/them");
    assert_eq!(cleaned_nickname(&n, "they/them"), Some("Sam"));
}

#[test]
fn update_sets_suffix_when_it_fits() {
    let d = data(0, true, &["she/her", "they/them"]);
    let u = update_member_nickname("Alex", &d, "");
    assert_eq!(u.nickname.as_deref(), Some("Alex | she/her"));
    assert_eq!(u.message, CHANGED);
}

#[test]
fn update_replaces_old_suffix() {
    let d = data(1, true, &["she/her", "they/them"]);
    let u = update_member_nickname("Alex | she/her", &d, "she/her");
    assert_eq!(u.nickname.as_deref(), Some("Alex | they/them"));
    assert_eq!(u.message, CHANGED);
}

#[test]
fn update_warns_about_longest_but_still_fits() {
    let d = data(0, true, &["she/her", "they/them"]);
    let name = "ABCDEFGHIJKLMNOPQRSTUV"; // 22 bytes
    let u = update_member_nickname(name, &d, "");
    assert_eq!(u.nickname.as_deref(), Some("ABCDEFGHIJKLMNOPQRSTUV | she/her"));
    assert_eq!(u.message, format!("{}\n{}", warning("longest", "they/them", 2), CHANGED));
}

#[test]
fn update_refuses_truncation() {
    let d = data(1, true, &["she/her", "they/them"]);
    let name = "ABCDEFGHIJKLMNOPQRSTUVWXYZ"; // 26 bytes
    let u = update_member_nickname(name, &d, "");
    assert_eq!(u.nickname, None);
    assert_eq!(
        u.message,
        format!("{}\n{}", warning("longest", "they/them", 6), warning("current", "they/them", 6))
    );
}

#[test]
fn update_counts_bytes_not_characters() {
    // Ten three-byte characters are thirty bytes.
    let d = data(0, true, &["a"]);
    let u = update_member_nickname("京京京京京京京京京京", &d, "");
    assert_eq!(u.nickname, None);
    assert_eq!(u.message, format!("{}\n{}", warning("longest", "a", 2), warning("current", "a", 2)));
}

#[test]
fn cleaning_for_unmanaged_members() {
    let c = clean_member_nickname("Alex | she/her", "she/her");
    assert_eq!(c.nickname.as_deref(), Some("Alex"));
    assert_eq!(c.message, "Successfully cleaned your nickname.");
    let c = clean_member_nickname("Alex", "she/her");
    assert_eq!(c.nickname, None);
    let d = data(0, false, &["she/her"]);
    let u = update_member("Alex | she/her", &d, "ignored");
    assert_eq!(u.nickname.as_deref(), Some("Alex"));
    assert_eq!(u.message, "Successfully cleaned your nickname.");
}

#[test]
fn startup_fixes_stale_suffix_only() {
    let d = data(1, true, &["she/her", "they/them"]);
    assert_eq!(startup_nickname("Alex | she/her", &d).as_deref(), Some("Alex | they/them"));
    assert_eq!(startup_nickname("Alex | they/them", &d), None);
    assert_eq!(startup_nickname("Alex", &d).as_deref(), Some("Alex | they/them"));
    let unmanaged = data(1, false, &["she/her", "they/them"]);
    assert_eq!(startup_nickname("Alex | she/her", &unmanaged), None);
}

#[test]
fn warnings_are_what_precedes_success() {
    let msg = format!("{}\n{}", warning("longest", "they/them", 2), CHANGED);
    assert_eq!(nickname_warnings(&msg), Some(format!("{}\n", warning("longest", "they/them", 2))));
    assert_eq!(nickname_warnings(CHANGED), None);
    assert_eq!(nickname_warnings(&warning("current", "a", 1)), None);
}

#[test]
fn refresh_decision() {
    let before = data(0, true, &["she/her", "they/them"]);
    assert!(should_refresh_nickname(&before, "they/them", "Alex | she/her"));
    assert!(!should_refresh_nickname(&before, "they/them", "Alex"));
    assert!(!should_refresh_nickname(&before, "she/her", "Alex | she/her"));
    let unmanaged = data(0, false, &["she/her"]);
    assert!(!should_refresh_nickname(&unmanaged, "he/him", "Alex | she/her"));
}

#[test]
fn daily_nickname_decisions() {
    let d = daily_nickname("Alex | she/her", "she/her", "they/them", true);
    assert_eq!(d.listed, "Alex");
    assert_eq!(d.nickname.as_deref(), Some("Alex | they/them"));
    assert!(!d.too_long);
    let d = daily_nickname("ABCDEFGHIJKLMNOPQRSTUVWXYZ", "x", "they/them", true);
    assert_eq!(d.listed, "ABCDEFGHIJKLMNOPQRSTUVWXYZ");
    assert_eq!(d.nickname, None);
    assert!(d.too_long);
    let d = daily_nickname("Alex | she/her", "she/her", "they/them", false);
    assert_eq!(d.listed, "Alex | she/her");
    assert_eq!(d.nickname, None);
    assert!(!d.too_long);
}
