//! Contacts and pending invitations: searching the contact list by name,
//! listing the matches and reading the user's choice among them.

use crate::error::ChatBrokenError;
use crate::fold::{fold, folded};
use crate::text::{
    contains, decimal, decimal_value, lemma_decimal_round_trip, occurs_in, parse_decimal,
    render_decimal, trim, trimmed,
};
use vstd::prelude::*;

verus! {

/// An entry of the user's contact list, as fetched once at startup.
#[derive(Debug, PartialEq, Eq)]
pub struct Friend {
    pub name: String,
    pub summoner_id: u64,
    pub availability: String,
}

/// What a `Friend` holds, as mathematical values.
pub ghost struct FriendView {
    pub name: Seq<char>,
    pub summoner_id: u64,
    pub availability: Seq<char>,
}

impl View for Friend {
    type V = FriendView;

    open spec fn view(&self) -> FriendView {
        FriendView {
            name: self.name@,
            summoner_id: self.summoner_id,
            availability: self.availability@,
        }
    }
}

impl DeepView for Friend {
    type V = FriendView;

    open spec fn deep_view(&self) -> FriendView {
        self@
    }
}

impl Clone for Friend {
    fn clone(&self) -> (copy: Self)
        ensures
            copy == *self,
    {
        Friend {
            name: self.name.clone(),
            summoner_id: self.summoner_id,
            availability: self.availability.clone(),
        }
    }
}

/// An incoming lobby invitation that waits for an answer.
#[derive(Debug, PartialEq, Eq)]
pub struct Invite {
    pub invitation_id: String,
}

/// What an `Invite` holds, as mathematical values.
pub ghost struct InviteView {
    pub invitation_id: Seq<char>,
}

impl View for Invite {
    type V = InviteView;

    open spec fn view(&self) -> InviteView {
        InviteView { invitation_id: self.invitation_id@ }
    }
}

impl DeepView for Invite {
    type V = InviteView;

    open spec fn deep_view(&self) -> InviteView {
        self@
    }
}

impl Clone for Invite {
    fn clone(&self) -> (copy: Self)
        ensures
            copy == *self,
    {
        Invite { invitation_id: self.invitation_id.clone() }
    }
}

/// Whether a contact called `name` answers the search for `query`: the folded
/// name contains the folded query.
pub open spec fn name_matches(query: Seq<char>, name: Seq<char>) -> bool {
    occurs_in(folded(query), folded(name))
}

/// The test that a search for `query` applies to each contact.
pub open spec fn answers(query: Seq<char>) -> spec_fn(FriendView) -> bool {
    |friend: FriendView| name_matches(query, friend.name)
}

/// The numbers below `n`, ascending.
pub open spec fn positions_below(n: nat) -> Seq<int> {
    Seq::new(n, |i: int| i)
}

/// The test for a position whose key contains `needle`.
pub open spec fn holds_needle(keys: Seq<Seq<char>>, needle: Seq<char>) -> spec_fn(int) -> bool {
    |i: int| occurs_in(needle, keys[i])
}

/// The positions of the keys that contain `needle`, ascending.
pub open spec fn positions_of(keys: Seq<Seq<char>>, needle: Seq<char>) -> Seq<int> {
    positions_below(keys.len()).filter(holds_needle(keys, needle))
}

/// The positions as mathematical integers.
pub open spec fn as_ints(positions: Seq<usize>) -> Seq<int> {
    positions.map_values(|p: usize| p as int)
}

/// The positions of the keys that contain `needle`, ascending.
pub fn positions_containing(keys: &Vec<String>, needle: &str) -> (found: Vec<usize>)
    ensures
        as_ints(found@) == positions_of(keys.deep_view(), needle@),
        forall|j: int| 0 <= j < found.len() ==> found@[j] < keys.len(),
{
    let mut found: Vec<usize> = Vec::new();
    let ghost test = holds_needle(keys.deep_view(), needle@);
    proof {
        reveal(Seq::filter);
    }
    let mut i: usize = 0;
    while i < keys.len()
        invariant
            i <= keys.len(),
            test == holds_needle(keys.deep_view(), needle@),
            as_ints(found@) == positions_below(i as nat).filter(test),
            forall|j: int| 0 <= j < found.len() ==> found@[j] < i,
        decreases keys.len() - i,
    {
        if contains(keys[i].as_str(), needle) {
            found.push(i);
        }
        proof {
            reveal(Seq::filter);
            assert(positions_below((i + 1) as nat).drop_last() =~= positions_below(i as nat));
        }
        i += 1;
    }
    found
}

/// Picking the contacts at the positions whose folded name contains the
/// folded query gives the contacts that answer the query, in their order.
pub proof fn lemma_positions_pick_answers(friends: Seq<FriendView>, query: Seq<char>, k: int)
    requires
        0 <= k <= friends.len(),
    ensures
        positions_below(k as nat).filter(
            holds_needle(friends.map_values(|f: FriendView| folded(f.name)), folded(query)),
        ).map_values(|i: int| friends[i]) == friends.take(k).filter(answers(query)),
    decreases k,
{
    reveal(Seq::filter);
    let keys = friends.map_values(|f: FriendView| folded(f.name));
    let test = holds_needle(keys, folded(query));
    let pick = |i: int| friends[i];
    if k == 0 {
        assert(positions_below(0).filter(test).map_values(pick) =~= friends.take(0).filter(
            answers(query),
        ));
    } else {
        lemma_positions_pick_answers(friends, query, k - 1);
        let shorter = positions_below((k - 1) as nat);
        assert(positions_below(k as nat).drop_last() =~= shorter);
        assert(friends.take(k).drop_last() =~= friends.take(k - 1));
        if test(k - 1) {
            assert(shorter.filter(test).push(k - 1).map_values(pick) =~= shorter.filter(
                test,
            ).map_values(pick).push(friends[k - 1]));
        }
    }
}

/// The folded name of each contact, in order.
fn folded_names(friends: &Vec<Friend>) -> (keys: Vec<String>)
    ensures
        keys.deep_view() == friends.deep_view().map_values(|f: FriendView| folded(f.name)),
{
    let mut keys: Vec<String> = Vec::new();
    let mut i: usize = 0;
    while i < friends.len()
        invariant
            i <= friends.len(),
            keys.len() == i,
            forall|k: int| 0 <= k < i ==> keys@[k]@ == folded(friends@[k].name@),
        decreases friends.len() - i,
    {
        keys.push(fold(friends[i].name.as_str()));
        i += 1;
    }
    keys
}

/// Copies of the contacts at the given positions, in the order given.
fn pick(friends: &Vec<Friend>, positions: &Vec<usize>) -> (picked: Vec<Friend>)
    requires
        forall|j: int| 0 <= j < positions.len() ==> positions@[j] < friends.len(),
    ensures
        picked.deep_view() == as_ints(positions@).map_values(|i: int| friends.deep_view()[i]),
{
    let mut picked: Vec<Friend> = Vec::new();
    let mut j: usize = 0;
    while j < positions.len()
        invariant
            j <= positions.len(),
            picked.len() == j,
            forall|k: int| 0 <= k < positions.len() ==> positions@[k] < friends.len(),
            forall|k: int| 0 <= k < j ==> picked@[k]@ == friends@[positions@[k] as int]@,
        decreases positions.len() - j,
    {
        picked.push(friends[positions[j]].clone());
        j += 1;
    }
    assert(picked.deep_view() =~= as_ints(positions@).map_values(
        |i: int| friends.deep_view()[i],
    ));
    picked
}

/// The contacts whose name answers `query`, in the order of the list.
pub fn search(friends: &Vec<Friend>, query: &str) -> (found: Vec<Friend>)
    ensures
        found.deep_view() == friends.deep_view().filter(answers(query@)),
{
    let needle = fold(query);
    let keys = folded_names(friends);
    let positions = positions_containing(&keys, needle.as_str());
    proof {
        let all = friends.deep_view();
        lemma_positions_pick_answers(all, query@, all.len() as int);
        assert(all.take(all.len() as int) =~= all);
    }
    pick(friends, &positions)
}

/// The line that shows `friend` at the 1-based `position` of a list.
pub open spec fn entry_line(position: nat, friend: FriendView) -> Seq<char> {
    "["@ + decimal(position) + "] "@ + friend.name + " - "@ + friend.availability
}

/// The numbered lines that show `found`, counting from 1.
pub open spec fn listing(found: Seq<FriendView>) -> Seq<Seq<char>> {
    Seq::new(found.len(), |i: int| entry_line((i + 1) as nat, found[i]))
}

/// The numbered lines that show `found`, counting from 1.
pub fn list_lines(found: &Vec<Friend>) -> (lines: Vec<String>)
    ensures
        lines.deep_view() == listing(found.deep_view()),
{
    let mut lines: Vec<String> = Vec::new();
    let mut i: usize = 0;
    while i < found.len()
        invariant
            i <= found.len(),
            lines.len() == i,
            forall|k: int| 0 <= k < i ==> lines@[k]@ == entry_line((k + 1) as nat, found@[k]@),
        decreases found.len() - i,
    {
        let mut line = String::from_str("[");
        line.append(render_decimal(i + 1).as_str());
        line.append("] ");
        line.append(found[i].name.as_str());
        line.append(" - ");
        line.append(found[i].availability.as_str());
        lines.push(line);
        i += 1;
    }
    lines
}

/// The 0-based position that `input` chooses in a list of `count` entries:
/// the input, trimmed, is a decimal numeral from 1 to `count`.
pub open spec fn selection(count: nat, input: Seq<char>) -> Option<int> {
    match decimal_value(trimmed(input)) {
        Some(number) => if 1 <= number <= count {
            Some(number - 1)
        } else {
            None
        },
        None => None,
    }
}

/// The entry of `found` that `input` chooses. Zero, a number beyond the list
/// and text that is no number are all refused as an invalid index.
pub fn select<'a>(found: &'a Vec<Friend>, input: &str) -> (chosen: Result<
    &'a Friend,
    ChatBrokenError,
>)
    ensures
        match selection(found.len() as nat, input@) {
            Some(i) => chosen == Ok::<&Friend, ChatBrokenError>(&found@[i]),
            None => chosen == Err::<&Friend, ChatBrokenError>(ChatBrokenError::InvalidIndexError),
        },
{
    match parse_decimal(trim(input)) {
        Some(number) => {
            if 1 <= number && number <= found.len() {
                Ok(&found[number - 1])
            } else {
                Err(ChatBrokenError::InvalidIndexError)
            }
        },
        None => Err(ChatBrokenError::InvalidIndexError),
    }
}

/// Zero, the number after the last entry and text that is no numeral choose
/// nothing, whatever the length of the list.
pub proof fn lemma_invalid_choices(count: nat, input: Seq<char>)
    ensures
        selection(count, "0"@) is None,
        selection(count, decimal(count + 1)) is None,
        decimal_value(trimmed(input)) is None ==> selection(count, input) is None,
{
    reveal_strlit("0");
    assert("0"@ =~= decimal(0));
    lemma_decimal_round_trip(0);
    lemma_decimal_round_trip(count + 1);
}

} // verus!
