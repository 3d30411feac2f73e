use pronoun_bot::user_data::UserData;

fn data(current: usize, sets: &[&str]) -> UserData {
    UserData {
        current,
        change_nickname: true,
        pronouns: sets.iter().map(|s| s.to_string()).collect(),
    }
}

#[test]
fn current_pronoun_reads_the_current_set() {
    assert_eq!(data(1, &["he/him", "they/them"]).current_pronoun(), "they/them");
}

#[test]
fn single_set_reroll_stays_zero() {
    let mut d = data(0, &["she/her"]);
    for _ in 0..20 {
        let prev = d.current_and_reroll();
        assert_eq!(prev, "she/her");
        assert_eq!(d.current, 0);
    }
}

#[test]
fn reroll_keeps_sets_and_stays_in_range() {
    let mut d = data(2, &["a", "b", "c"]);
    let mut seen = [false; 3];
    for _ in 0..200 {
        let before = d.current;
        let prev = d.current_and_reroll();
        assert_eq!(prev, ["a", "b", "c"][before]);
        assert!(d.current < 3);
        assert!(d.change_nickname);
        assert_eq!(d.pronouns, vec!["a", "b", "c"]);
        seen[d.current] = true;
    }
    // With 200 draws every index should have come up.
    assert!(seen.iter().all(|b| *b));
}

#[test]
fn current_sanity_only_acts_out_of_range() {
    let mut d = data(1, &["a", "b"]);
    d.current_sanity();
    assert_eq!(d.current, 1);
    let mut d = data(5, &["a", "b"]);
    d.current_sanity();
    assert!(d.current < 2);
    let mut d = data(3, &["only"]);
    d.current_sanity();
    assert_eq!(d.current, 0);
}

#[test]
fn new_registration_settings() {
    let one = UserData::new_registration(vec!["xe/xem".to_string()], Some(true), false);
    assert_eq!(one.current, 0);
    assert!(one.change_nickname);
    let owner = UserData::new_registration(vec!["a".to_string(), "b".to_string()], Some(true), true);
    assert!(!owner.change_nickname);
    assert!(owner.current < 2);
    let unset = UserData::new_registration(vec!["a".to_string()], None, false);
    assert!(!unset.change_nickname);
}

#[test]
fn duplicate_copies_everything() {
    let d = data(1, &["a", "b"]);
    let c = d.duplicate();
    assert_eq!(c.current, 1);
    assert_eq!(c.change_nickname, d.change_nickname);
    assert_eq!(c.pronouns, d.pronouns);
}
