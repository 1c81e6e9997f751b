//! One pass of the interactive loop as a state machine. The caller performs
//! each action (reading a line, sending a request) and hands back what came
//! of it as an event; the machine decides what is printed and what is done
//! next. A pass starts with `begin` and is over when the action is `Done`.

use crate::chat::{
    answers, lemma_invalid_choices, list_lines, listing, search, select, selection, Friend,
    FriendView, Invite, InviteView,
};
use crate::error::ChatBrokenError;
use crate::text::{decimal, decimal_value, trim, trimmed};
use vstd::prelude::*;

verus! {

/// Where the contact list is fetched from.
pub const FRIENDS_ENDPOINT: &'static str = "/lol-chat/v1/friends";

/// Where an invitation to the lobby is posted.
pub const INVITATIONS_ENDPOINT: &'static str = "/lol-lobby/v2/lobby/invitations";

/// Where the pending invitations are fetched from.
pub const RECEIVED_ENDPOINT: &'static str = "/lol-lobby/v2/received-invitations";

/// What the machine waits for.
#[derive(Debug, PartialEq, Eq)]
pub enum State {
    /// The line that holds a search, or nothing.
    AwaitQuery,
    /// The line that chooses one of the contacts shown.
    AwaitChoice { found: Vec<Friend> },
    /// The answer to the invitation sent to the contact of this name.
    AwaitInvited { name: String },
    /// The list of pending invitations.
    AwaitInvites,
    /// The answer to the acceptance of `invites[current]`.
    AwaitAccepted { invites: Vec<Invite>, current: usize },
    /// Nothing: the pass is over.
    Finished,
}

/// What a `State` holds, as mathematical values.
pub ghost enum StateView {
    AwaitQuery,
    AwaitChoice { found: Seq<FriendView> },
    AwaitInvited { name: Seq<char> },
    AwaitInvites,
    AwaitAccepted { invites: Seq<InviteView>, current: nat },
    Finished,
}

impl View for State {
    type V = StateView;

    open spec fn view(&self) -> StateView {
        match self {
            State::AwaitQuery => StateView::AwaitQuery,
            State::AwaitChoice { found } => StateView::AwaitChoice { found: found.deep_view() },
            State::AwaitInvited { name } => StateView::AwaitInvited { name: name@ },
            State::AwaitInvites => StateView::AwaitInvites,
            State::AwaitAccepted { invites, current } => StateView::AwaitAccepted {
                invites: invites.deep_view(),
                current: *current as nat,
            },
            State::Finished => StateView::Finished,
        }
    }
}

/// What came of the action that the machine asked for.
#[derive(Debug, PartialEq, Eq)]
pub enum Event {
    /// A line was read from the terminal.
    Line(String),
    /// The pending invitations were fetched and decoded.
    Invites(Vec<Invite>),
    /// A request was answered, with a status in the success range or not.
    Responded { success: bool },
    /// The action failed.
    Failed(ChatBrokenError),
}

/// What an `Event` holds, as mathematical values.
pub ghost enum EventView {
    Line(Seq<char>),
    Invites(Seq<InviteView>),
    Responded { success: bool },
    Failed(ChatBrokenError),
}

impl View for Event {
    type V = EventView;

    open spec fn view(&self) -> EventView {
        match self {
            Event::Line(line) => EventView::Line(line@),
            Event::Invites(invites) => EventView::Invites(invites.deep_view()),
            Event::Responded { success } => EventView::Responded { success: *success },
            Event::Failed(error) => EventView::Failed(*error),
        }
    }
}

/// What the caller is to do next.
#[derive(Debug, PartialEq, Eq)]
pub enum Action {
    /// Print `prompt` without a line break and read one line.
    ReadLine { prompt: String },
    /// GET the pending invitations from `endpoint`.
    GetInvites { endpoint: String },
    /// POST to `endpoint` a list of one invitation, for the summoner given.
    PostInvite { endpoint: String, to_summoner_id: u64 },
    /// POST to `endpoint` the acceptance of the invitation given.
    PostAccept { endpoint: String, invitation_id: String },
    /// Nothing: the pass is over.
    Done,
}

/// What an `Action` holds, as mathematical values.
pub ghost enum ActionView {
    ReadLine { prompt: Seq<char> },
    GetInvites { endpoint: Seq<char> },
    PostInvite { endpoint: Seq<char>, to_summoner_id: u64 },
    PostAccept { endpoint: Seq<char>, invitation_id: Seq<char> },
    Done,
}

impl View for Action {
    type V = ActionView;

    open spec fn view(&self) -> ActionView {
        match self {
            Action::ReadLine { prompt } => ActionView::ReadLine { prompt: prompt@ },
            Action::GetInvites { endpoint } => ActionView::GetInvites { endpoint: endpoint@ },
            Action::PostInvite { endpoint, to_summoner_id } => ActionView::PostInvite {
                endpoint: endpoint@,
                to_summoner_id: *to_summoner_id,
            },
            Action::PostAccept { endpoint, invitation_id } => ActionView::PostAccept {
                endpoint: endpoint@,
                invitation_id: invitation_id@,
            },
            Action::Done => ActionView::Done,
        }
    }
}

/// One move of the machine: the lines to print, then the action to perform,
/// and the state in which its outcome is awaited.
#[derive(Debug, PartialEq, Eq)]
pub struct Step {
    pub state: State,
    pub lines: Vec<String>,
    pub action: Action,
}

/// What a `Step` holds, as mathematical values.
pub ghost struct StepView {
    pub state: StateView,
    pub lines: Seq<Seq<char>>,
    pub action: ActionView,
}

impl View for Step {
    type V = StepView;

    open spec fn view(&self) -> StepView {
        StepView { state: self.state@, lines: self.lines.deep_view(), action: self.action@ }
    }
}

/// The first move of a pass: the banner, then the line with the search.
pub open spec fn opening() -> StepView {
    StepView {
        state: StateView::AwaitQuery,
        lines: seq![
            "-------------------------"@,
            "Search for the name of player to invite and press enter, or press enter without typing anything to accept pending invitations:"@,
        ],
        action: ActionView::ReadLine { prompt: Seq::empty() },
    }
}

/// The move of a machine whose pass is over: nothing is said or done.
pub open spec fn idle() -> StepView {
    StepView { state: StateView::Finished, lines: Seq::empty(), action: ActionView::Done }
}

/// The move that ends a pass on `error`.
pub open spec fn failure(error: ChatBrokenError) -> StepView {
    StepView {
        state: StateView::Finished,
        lines: seq!["Error: "@ + error.message_text()],
        action: ActionView::Done,
    }
}

/// The move on the line that holds a search, or nothing.
pub open spec fn on_query(friends: Seq<FriendView>, line: Seq<char>) -> StepView {
    let query = trimmed(line);
    let found = friends.filter(answers(query));
    if query.len() == 0 {
        StepView {
            state: StateView::AwaitInvites,
            lines: Seq::empty(),
            action: ActionView::GetInvites { endpoint: RECEIVED_ENDPOINT@ },
        }
    } else if found.len() == 0 {
        StepView {
            state: StateView::Finished,
            lines: seq![Seq::empty(), "No matches found"@],
            action: ActionView::Done,
        }
    } else {
        StepView {
            state: StateView::AwaitChoice { found },
            lines: seq![Seq::empty(), "Possible matches:"@] + listing(found),
            action: ActionView::ReadLine { prompt: "Type the number of the player to invite: "@ },
        }
    }
}

/// The move on the line that chooses among `found`.
pub open spec fn on_choice(found: Seq<FriendView>, line: Seq<char>) -> StepView {
    match selection(found.len(), line) {
        Some(i) => StepView {
            state: StateView::AwaitInvited { name: found[i].name },
            lines: Seq::empty(),
            action: ActionView::PostInvite {
                endpoint: INVITATIONS_ENDPOINT@,
                to_summoner_id: found[i].summoner_id,
            },
        },
        None => failure(ChatBrokenError::InvalidIndexError),
    }
}

/// The move on the answer to the invitation of the contact called `name`.
pub open spec fn on_invited(name: Seq<char>, success: bool) -> StepView {
    StepView {
        state: StateView::Finished,
        lines: seq![
            if success {
                "Invited "@ + name
            } else {
                "Failed to invite "@ + name
            },
        ],
        action: ActionView::Done,
    }
}

/// The request that accepts `invite`.
pub open spec fn accept_request(invite: InviteView) -> ActionView {
    ActionView::PostAccept {
        endpoint: RECEIVED_ENDPOINT@ + "/"@ + invite.invitation_id + "/accept"@,
        invitation_id: invite.invitation_id,
    }
}

/// The line that reports how one acceptance went.
pub open spec fn accept_report(success: bool) -> Seq<char> {
    if success {
        "Successfully accepted pending invitations"@
    } else {
        "Failed to accept pending invitations"@
    }
}

/// The move on the list of pending invitations.
pub open spec fn on_invites(invites: Seq<InviteView>) -> StepView {
    if invites.len() == 0 {
        StepView {
            state: StateView::Finished,
            lines: seq!["No invites found"@],
            action: ActionView::Done,
        }
    } else {
        StepView {
            state: StateView::AwaitAccepted { invites, current: 0 },
            lines: Seq::empty(),
            action: accept_request(invites[0]),
        }
    }
}

/// The move on the answer to the acceptance of `invites[current]`.
pub open spec fn on_accepted(invites: Seq<InviteView>, current: nat, success: bool) -> StepView {
    if current + 1 < invites.len() {
        StepView {
            state: StateView::AwaitAccepted { invites, current: current + 1 },
            lines: seq![accept_report(success)],
            action: accept_request(invites[current as int + 1]),
        }
    } else {
        StepView {
            state: StateView::Finished,
            lines: seq![accept_report(success)],
            action: ActionView::Done,
        }
    }
}

/// The move of the machine in `state` on `event`. A failure ends the pass
/// with its message; so does an event that the state does not wait for, as
/// invalid data. Once the pass is over nothing more is said or done.
pub open spec fn advance(friends: Seq<FriendView>, state: StateView, event: EventView) -> StepView {
    match (state, event) {
        (StateView::Finished, _) => idle(),
        (_, EventView::Failed(error)) => failure(error),
        (StateView::AwaitQuery, EventView::Line(line)) => on_query(friends, line),
        (StateView::AwaitChoice { found }, EventView::Line(line)) => on_choice(found, line),
        (StateView::AwaitInvited { name }, EventView::Responded { success }) => on_invited(
            name,
            success,
        ),
        (StateView::AwaitInvites, EventView::Invites(invites)) => on_invites(invites),
        (
            StateView::AwaitAccepted { invites, current },
            EventView::Responded { success },
        ) => on_accepted(invites, current, success),
        _ => failure(ChatBrokenError::InvalidDataError),
    }
}

/// Starts a pass.
pub fn begin() -> (step: Step)
    ensures
        step@ == opening(),
{
    let mut lines: Vec<String> = Vec::new();
    lines.push(String::from_str("-------------------------"));
    lines.push(
        String::from_str(
            "Search for the name of player to invite and press enter, or press enter without typing anything to accept pending invitations:",
        ),
    );
    assert(lines.deep_view() =~= opening().lines);
    Step { state: State::AwaitQuery, lines, action: Action::ReadLine { prompt: String::new() } }
}

/// Ends a pass on `error`.
fn fail(error: ChatBrokenError) -> (step: Step)
    ensures
        step@ == failure(error),
{
    let mut line = String::from_str("Error: ");
    line.append(error.message().as_str());
    let mut lines: Vec<String> = Vec::new();
    lines.push(line);
    assert(lines.deep_view() =~= failure(error).lines);
    Step { state: State::Finished, lines, action: Action::Done }
}

/// Ends a pass with one line.
fn conclude(line: String) -> (step: Step)
    ensures
        step@ == (StepView {
            state: StateView::Finished,
            lines: seq![line@],
            action: ActionView::Done,
        }),
{
    let mut lines: Vec<String> = Vec::new();
    lines.push(line);
    assert(lines.deep_view() =~= seq![line@]);
    Step { state: State::Finished, lines, action: Action::Done }
}

/// The move on the line that holds a search, or nothing.
fn query_step(friends: &Vec<Friend>, line: &str) -> (step: Step)
    ensures
        step@ == on_query(friends.deep_view(), line@),
{
    let query = trim(line);
    if query.is_empty() {
        let lines: Vec<String> = Vec::new();
        assert(lines.deep_view() =~= Seq::<Seq<char>>::empty());
        return Step {
            state: State::AwaitInvites,
            lines,
            action: Action::GetInvites { endpoint: String::from_str(RECEIVED_ENDPOINT) },
        };
    }
    let found = search(friends, query);
    let mut lines: Vec<String> = Vec::new();
    lines.push(String::new());
    if found.len() == 0 {
        lines.push(String::from_str("No matches found"));
        assert(lines.deep_view() =~= seq![Seq::<char>::empty(), "No matches found"@]);
        return Step { state: State::Finished, lines, action: Action::Done };
    }
    lines.push(String::from_str("Possible matches:"));
    let mut entries = list_lines(&found);
    let ghost shown = entries.deep_view();
    lines.append(&mut entries);
    assert(lines.deep_view() =~= seq![Seq::<char>::empty(), "Possible matches:"@] + shown);
    Step {
        state: State::AwaitChoice { found },
        lines,
        action: Action::ReadLine {
            prompt: String::from_str("Type the number of the player to invite: "),
        },
    }
}

/// The move on the line that chooses among `found`.
fn choice_step(found: Vec<Friend>, line: &str) -> (step: Step)
    ensures
        step@ == on_choice(found.deep_view(), line@),
{
    match select(&found, line) {
        Ok(friend) => {
            let lines: Vec<String> = Vec::new();
            assert(lines.deep_view() =~= Seq::<Seq<char>>::empty());
            Step {
                state: State::AwaitInvited { name: friend.name.clone() },
                lines,
                action: Action::PostInvite {
                    endpoint: String::from_str(INVITATIONS_ENDPOINT),
                    to_summoner_id: friend.summoner_id,
                },
            }
        },
        Err(error) => fail(error),
    }
}

/// The move on the answer to the invitation of the contact called `name`.
fn invited_step(name: String, success: bool) -> (step: Step)
    ensures
        step@ == on_invited(name@, success),
{
    let line = if success {
        String::from_str("Invited ").concat(name.as_str())
    } else {
        String::from_str("Failed to invite ").concat(name.as_str())
    };
    conclude(line)
}

/// The request that accepts `invite`.
fn accept_action(invite: &Invite) -> (action: Action)
    ensures
        action@ == accept_request(invite@),
{
    let mut endpoint = String::from_str(RECEIVED_ENDPOINT);
    endpoint.append("/");
    endpoint.append(invite.invitation_id.as_str());
    endpoint.append("/accept");
    Action::PostAccept { endpoint, invitation_id: invite.invitation_id.clone() }
}

/// The line that reports how one acceptance went.
fn accept_line(success: bool) -> (line: String)
    ensures
        line@ == accept_report(success),
{
    if success {
        String::from_str("Successfully accepted pending invitations")
    } else {
        String::from_str("Failed to accept pending invitations")
    }
}

/// The move on the list of pending invitations.
fn invites_step(invites: Vec<Invite>) -> (step: Step)
    ensures
        step@ == on_invites(invites.deep_view()),
{
    if invites.len() == 0 {
        return conclude(String::from_str("No invites found"));
    }
    let action = accept_action(&invites[0]);
    let lines: Vec<String> = Vec::new();
    assert(lines.deep_view() =~= Seq::<Seq<char>>::empty());
    Step { state: State::AwaitAccepted { invites, current: 0 }, lines, action }
}

/// The move on the answer to the acceptance of `invites[current]`.
fn accepted_step(invites: Vec<Invite>, current: usize, success: bool) -> (step: Step)
    ensures
        step@ == on_accepted(invites.deep_view(), current as nat, success),
{
    let line = accept_line(success);
    if invites.len() > 0 && current < invites.len() - 1 {
        let action = accept_action(&invites[current + 1]);
        let mut lines: Vec<String> = Vec::new();
        lines.push(line);
        assert(lines.deep_view() =~= seq![accept_report(success)]);
        Step { state: State::AwaitAccepted { invites, current: current + 1 }, lines, action }
    } else {
        conclude(line)
    }
}

/// The move of the machine in `state` on `event`.
pub fn step(friends: &Vec<Friend>, state: State, event: Event) -> (step: Step)
    ensures
        step@ == advance(friends.deep_view(), state@, event@),
{
    match (state, event) {
        (State::Finished, _) => {
            let lines: Vec<String> = Vec::new();
            assert(lines.deep_view() =~= Seq::<Seq<char>>::empty());
            Step { state: State::Finished, lines, action: Action::Done }
        },
        (_, Event::Failed(error)) => fail(error),
        (State::AwaitQuery, Event::Line(line)) => query_step(friends, line.as_str()),
        (State::AwaitChoice { found }, Event::Line(line)) => choice_step(found, line.as_str()),
        (State::AwaitInvited { name }, Event::Responded { success }) => invited_step(
            name,
            success,
        ),
        (State::AwaitInvites, Event::Invites(invites)) => invites_step(invites),
        (State::AwaitAccepted { invites, current }, Event::Responded { success }) => accepted_step(
            invites,
            current,
            success,
        ),
        _ => fail(ChatBrokenError::InvalidDataError),
    }
}

/// The moves that the machine makes from `state` on `events`, one for each.
pub open spec fn trace(friends: Seq<FriendView>, state: StateView, events: Seq<EventView>) -> Seq<
    StepView,
>
    decreases events.len(),
{
    if events.len() == 0 {
        Seq::empty()
    } else {
        let first = advance(friends, state, events[0]);
        seq![first] + trace(friends, first.state, events.drop_first())
    }
}

/// The answers to as many requests as `successes` is long, in order.
pub open spec fn responses(successes: Seq<bool>) -> Seq<EventView> {
    successes.map_values(|success: bool| EventView::Responded { success })
}

/// A line that is blank once trimmed is never searched for: it asks for the
/// pending invitations. Any other line is searched for, trimmed: the contacts
/// offered are exactly those of the list that answer it, in the order of the
/// list, and where there is none the pass ends.
pub proof fn lemma_query_routing(friends: Seq<FriendView>, line: Seq<char>)
    ensures
        ({
            let step = advance(friends, StateView::AwaitQuery, EventView::Line(line));
            let query = trimmed(line);
            let found = friends.filter(answers(query));
            &&& query.len() == 0 ==> step.state == StateView::AwaitInvites && step.action
                == (ActionView::GetInvites { endpoint: RECEIVED_ENDPOINT@ })
            &&& query.len() > 0 && found.len() > 0 ==> step.state == (StateView::AwaitChoice {
                found,
            }) && step.action is ReadLine
            &&& query.len() > 0 && found.len() == 0 ==> step.state == StateView::Finished
                && step.action == ActionView::Done
        }),
{
}

/// Zero, the number after the last entry and text that is no numeral all end
/// the pass in the same way, as an invalid index, and send nothing.
pub proof fn lemma_invalid_choice_fails(
    friends: Seq<FriendView>,
    found: Seq<FriendView>,
    input: Seq<char>,
)
    ensures
        advance(friends, StateView::AwaitChoice { found }, EventView::Line("0"@)) == failure(
            ChatBrokenError::InvalidIndexError,
        ),
        advance(
            friends,
            StateView::AwaitChoice { found },
            EventView::Line(decimal(found.len() + 1)),
        ) == failure(ChatBrokenError::InvalidIndexError),
        decimal_value(trimmed(input)) is None ==> advance(
            friends,
            StateView::AwaitChoice { found },
            EventView::Line(input),
        ) == failure(ChatBrokenError::InvalidIndexError),
        failure(ChatBrokenError::InvalidIndexError).action == ActionView::Done,
{
    lemma_invalid_choices(found.len(), input);
}

/// With no invitation pending the machine says so and ends the pass: no
/// acceptance is sent.
pub proof fn lemma_no_invites_no_requests(friends: Seq<FriendView>)
    ensures
        advance(friends, StateView::AwaitInvites, EventView::Invites(Seq::empty())) == (StepView {
            state: StateView::Finished,
            lines: seq!["No invites found"@],
            action: ActionView::Done,
        }),
{
}

/// While invitation `current` is being accepted and the remaining requests
/// are all answered, each answer is reported on a line of its own and is
/// followed by the request for the next invitation, until none is left.
pub proof fn lemma_accepting(
    friends: Seq<FriendView>,
    invites: Seq<InviteView>,
    current: nat,
    successes: Seq<bool>,
)
    requires
        current < invites.len(),
        successes.len() == invites.len() - current,
    ensures
        trace(
            friends,
            StateView::AwaitAccepted { invites, current },
            responses(successes),
        ).len() == successes.len(),
        forall|j: int|
            #![trigger trace(
                friends,
                StateView::AwaitAccepted { invites, current },
                responses(successes),
            )[j]]
            0 <= j < successes.len() ==> {
                let step = trace(
                    friends,
                    StateView::AwaitAccepted { invites, current },
                    responses(successes),
                )[j];
                &&& step.lines == seq![accept_report(successes[j])]
                &&& step.action == if current + j + 1 < invites.len() {
                    accept_request(invites[current + j + 1])
                } else {
                    ActionView::Done
                }
            },
    decreases successes.len(),
{
    let state = StateView::AwaitAccepted { invites, current };
    let events = responses(successes);
    let first = advance(friends, state, events[0]);
    let later = trace(friends, first.state, events.drop_first());
    assert(trace(friends, state, events) == seq![first] + later);
    assert(events.drop_first() =~= responses(successes.drop_first()));
    if current + 1 < invites.len() {
        lemma_accepting(friends, invites, current + 1, successes.drop_first());
        assert forall|j: int| 0 <= j < successes.len() implies {
            let step = #[trigger] trace(friends, state, events)[j];
            &&& step.lines == seq![accept_report(successes[j])]
            &&& step.action == if current + j + 1 < invites.len() {
                accept_request(invites[current + j + 1])
            } else {
                ActionView::Done
            }
        } by {
            if j > 0 {
                assert(trace(friends, state, events)[j] == later[j - 1]);
                assert(successes.drop_first()[j - 1] == successes[j]);
            }
        }
    } else {
        assert(events.drop_first().len() == 0);
    }
}

/// Accepting all of `n` pending invitations, `n` at least one, sends exactly
/// `n` acceptances, one for each invitation in the order listed, whether the
/// earlier ones succeeded or not, and reports each answer on a line of its
/// own; after the last answer the pass is over. This holds where every
/// request is answered: a request that fails to be carried out ends the pass.
pub proof fn lemma_accept_all(
    friends: Seq<FriendView>,
    invites: Seq<InviteView>,
    successes: Seq<bool>,
)
    requires
        invites.len() > 0,
        successes.len() == invites.len(),
    ensures
        ({
            let moves = trace(
                friends,
                StateView::AwaitInvites,
                seq![EventView::Invites(invites)] + responses(successes),
            );
            &&& moves.len() == invites.len() + 1
            &&& moves[0].lines == Seq::<Seq<char>>::empty()
            &&& forall|k: int|
                0 <= k < invites.len() ==> (#[trigger] moves[k]).action == accept_request(
                    invites[k],
                )
            &&& forall|k: int|
                0 <= k < invites.len() ==> (#[trigger] moves[k + 1]).lines == seq![
                    accept_report(successes[k]),
                ]
            &&& moves[invites.len() as int].action == ActionView::Done
        }),
{
    let events = seq![EventView::Invites(invites)] + responses(successes);
    let first = advance(friends, StateView::AwaitInvites, events[0]);
    let state = StateView::AwaitAccepted { invites, current: 0 };
    let later = trace(friends, state, responses(successes));
    assert(events.drop_first() =~= responses(successes));
    assert(first.state == state);
    let moves = trace(friends, StateView::AwaitInvites, events);
    assert(moves == seq![first] + later);
    lemma_accepting(friends, invites, 0, successes);
    assert forall|k: int| 0 <= k < invites.len() implies (#[trigger] moves[k]).action
        == accept_request(invites[k]) by {
        if k > 0 {
            assert(moves[k] == later[k - 1]);
        }
    }
    assert forall|k: int| 0 <= k < invites.len() implies (#[trigger] moves[k + 1]).lines == seq![
        accept_report(successes[k]),
    ] by {
        assert(moves[k + 1] == later[k]);
    }
    assert(moves[invites.len() as int] == later[invites.len() - 1]);
}

} // verus!
