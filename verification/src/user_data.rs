//! A member's registration in one server: their pronoun sets, which one is
//! current, and whether the bot keeps their nickname suffix up to date.

use crate::random::{draw, is_draw};
use crate::text::{join, join_strings};
use vstd::prelude::*;

verus! {

/// One member's registration in one server.
#[derive(Clone, Debug)]
pub struct UserData {
    /// Index into `pronouns` of the set in use today.
    pub current: usize,
    /// Whether the bot appends ` | <current>` to the member's nickname.
    pub change_nickname: bool,
    /// The member's pronoun sets, such as `she/her`.
    pub pronouns: Vec<String>,
}

/// The value of a registration, with the pronoun sets as character
/// sequences.
pub struct UserDataView {
    pub current: usize,
    pub change_nickname: bool,
    pub pronouns: Seq<Seq<char>>,
}

impl UserDataView {
    /// `current` points at one of the pronoun sets.
    pub open spec fn current_in_range(self) -> bool {
        self.current < self.pronouns.len()
    }

    /// The pronoun set in use today.
    pub open spec fn current_text(self) -> Seq<char> {
        self.pronouns[self.current as int]
    }

    /// `self` is what a reroll can make of `old`: the same sets and setting,
    /// index 0 when there are fewer than two sets, otherwise an index freshly
    /// drawn below the number of sets.
    pub open spec fn is_reroll_of(self, old: UserDataView) -> bool {
        &&& self.pronouns == old.pronouns
        &&& self.change_nickname == old.change_nickname
        &&& old.pronouns.len() < 2 ==> self.current == 0
        &&& old.pronouns.len() >= 2 ==> self.current < old.pronouns.len() && is_draw(
            old.pronouns.len() as usize,
            self.current,
        )
    }
}

impl View for UserData {
    type V = UserDataView;

    open spec fn view(&self) -> UserDataView {
        UserDataView {
            current: self.current,
            change_nickname: self.change_nickname,
            pronouns: self.pronouns.deep_view(),
        }
    }
}

impl UserData {
    /// The pronoun sets as character sequences.
    pub open spec fn pronoun_texts(&self) -> Seq<Seq<char>> {
        self.pronouns.deep_view()
    }

    /// `current` points at one of the pronoun sets.
    pub open spec fn current_in_range(&self) -> bool {
        self@.current_in_range()
    }

    /// The pronoun set in use today.
    pub open spec fn current_text(&self) -> Seq<char> {
        self@.current_text()
    }

    /// A copy with the same value.
    pub fn duplicate(&self) -> (r: UserData)
        ensures
            r@ == self@,
    {
        let pronouns = self.pronouns.clone();
        assert(pronouns@ =~= self.pronouns@);
        let r = UserData { current: self.current, change_nickname: self.change_nickname, pronouns };
        assert(r.pronouns.deep_view() =~= self.pronouns.deep_view());
        r
    }

    /// A new registration with the given pronoun sets: the current set is
    /// the only one, or one drawn at random; the bot manages the nickname
    /// when the member asked for it and does not own the server.
    pub fn new_registration(pronouns: Vec<String>, change_nickname: Option<bool>, is_owner: bool) -> (r:
        UserData)
        requires
            pronouns@.len() > 0,
        ensures
            r@.pronouns == pronouns.deep_view(),
            r@.change_nickname == (change_nickname == Some(true) && !is_owner),
            r@.current < pronouns@.len(),
            pronouns@.len() == 1 ==> r@.current == 0,
            pronouns@.len() >= 2 ==> is_draw(pronouns@.len() as usize, r@.current),
    {
        let requested = match change_nickname {
            Some(b) => b,
            None => false,
        };
        let current = if pronouns.len() == 1 {
            0
        } else {
            draw(pronouns.len())
        };
        UserData { current, change_nickname: requested && !is_owner, pronouns }
    }

    /// The pronoun set in use today.
    pub fn current_pronoun(&self) -> (r: &str)
        requires
            self.current_in_range(),
        ensures
            r@ == self.current_text(),
    {
        self.pronouns[self.current].as_str()
    }

    /// Draws a new current index: 0 when there are fewer than two sets,
    /// otherwise one at random among all of them.
    pub fn reroll(&mut self)
        ensures
            final(self)@.is_reroll_of(old(self)@),
    {
        self.current = if self.pronouns.len() < 2 {
            0
        } else {
            draw(self.pronouns.len())
        };
    }

    /// Returns the current pronoun set, then rerolls.
    pub fn current_and_reroll(&mut self) -> (prev: String)
        requires
            old(self).current_in_range(),
        ensures
            prev@ == old(self).current_text(),
            final(self)@.is_reroll_of(old(self)@),
    {
        let prev = self.current_pronoun().to_owned();
        self.reroll();
        prev
    }

    /// Rerolls when the current index no longer points at a set, and leaves
    /// everything as it is otherwise.
    pub fn current_sanity(&mut self)
        ensures
            old(self).current_in_range() ==> final(self)@ == old(self)@,
            !old(self).current_in_range() ==> final(self)@.is_reroll_of(old(self)@),
    {
        if self.current >= self.pronouns.len() {
            self.reroll();
        }
    }
}

/// Listing of a member's pronoun sets for display.
pub trait RwLockUserDataExt {
    /// The pronoun sets separated by `", "`.
    fn user_pronouns_string(&self) -> String;
}

impl RwLockUserDataExt for UserData {
    fn user_pronouns_string(&self) -> (r: String)
        ensures
            r@ == join(self.pronoun_texts(), ", "@),
    {
        join_strings(&self.pronouns, ", ")
    }
}

} // verus!
