use lcu::chat::{Friend, Invite};
use lcu::error::{ApiError, ChatBrokenError};
use lcu::session::{
    begin, step, Action, Event, State, Step, FRIENDS_ENDPOINT, INVITATIONS_ENDPOINT,
    RECEIVED_ENDPOINT,
};

fn contacts() -> Vec<Friend> {
    vec![
        Friend { name: "Ana".to_string(), summoner_id: 1, availability: "Online".to_string() },
        Friend { name: "Anna".to_string(), summoner_id: 2, availability: "Away".to_string() },
    ]
}

fn invite(id: &str) -> Invite {
    Invite { invitation_id: id.to_string() }
}

fn line(text: &str) -> Event {
    Event::Line(text.to_string())
}

fn over(lines: &[&str]) -> Step {
    Step {
        state: State::Finished,
        lines: lines.iter().map(|l| l.to_string()).collect(),
        action: Action::Done,
    }
}

fn accept(id: &str) -> Action {
    Action::PostAccept {
        endpoint: format!("/lol-lobby/v2/received-invitations/{}/accept", id),
        invitation_id: id.to_string(),
    }
}

#[test]
fn endpoints() {
    assert_eq!(FRIENDS_ENDPOINT, "/lol-chat/v1/friends");
    assert_eq!(INVITATIONS_ENDPOINT, "/lol-lobby/v2/lobby/invitations");
    assert_eq!(RECEIVED_ENDPOINT, "/lol-lobby/v2/received-invitations");
}

#[test]
fn begin_prints_the_banner_and_reads_a_line() {
    let first = begin();
    assert_eq!(first.state, State::AwaitQuery);
    assert_eq!(first.lines.len(), 2);
    assert_eq!(first.lines[0], "-".repeat(25));
    assert_eq!(first.lines[1], "Search for the name of player to invite and press enter, or press enter without typing anything to accept pending invitations:");
    assert_eq!(first.action, Action::ReadLine { prompt: String::new() });
}

#[test]
fn search_lists_matches_and_selection_posts_invitation() {
    let friends = contacts();
    let listed = step(&friends, begin().state, line("an\n"));
    assert_eq!(listed.lines, vec!["", "Possible matches:", "[1] Ana - Online", "[2] Anna - Away"]);
    assert_eq!(
        listed.action,
        Action::ReadLine { prompt: "Type the number of the player to invite: ".to_string() }
    );
    assert_eq!(listed.state, State::AwaitChoice { found: contacts() });

    let chosen = step(&friends, listed.state, line("2\n"));
    assert_eq!(chosen.lines, Vec::<String>::new());
    assert_eq!(
        chosen.action,
        Action::PostInvite {
            endpoint: "/lol-lobby/v2/lobby/invitations".to_string(),
            to_summoner_id: 2,
        }
    );
    assert_eq!(chosen.state, State::AwaitInvited { name: "Anna".to_string() });

    let invited = step(&friends, chosen.state, Event::Responded { success: true });
    assert_eq!(invited, over(&["Invited Anna"]));
}

#[test]
fn refused_invitation_is_reported() {
    let friends = contacts();
    let state = State::AwaitInvited { name: "Ana".to_string() };
    let refused = step(&friends, state, Event::Responded { success: false });
    assert_eq!(refused, over(&["Failed to invite Ana"]));
}

#[test]
fn empty_line_without_invitations_posts_nothing() {
    let friends = contacts();
    let asked = step(&friends, State::AwaitQuery, line("\n"));
    assert_eq!(asked.lines, Vec::<String>::new());
    assert_eq!(
        asked.action,
        Action::GetInvites { endpoint: "/lol-lobby/v2/received-invitations".to_string() }
    );
    assert_eq!(asked.state, State::AwaitInvites);

    let none = step(&friends, asked.state, Event::Invites(Vec::new()));
    assert_eq!(none, over(&["No invites found"]));
}

#[test]
fn blank_line_is_no_search() {
    let friends = contacts();
    for text in ["", "   ", "\r\n", "\t \u{a0}\n"] {
        let asked = step(&friends, State::AwaitQuery, line(text));
        assert_eq!(asked.state, State::AwaitInvites, "{:?}", text);
    }
}

#[test]
fn query_without_match_ends_the_pass() {
    let friends = contacts();
    let nothing = step(&friends, State::AwaitQuery, line("zed\n"));
    assert_eq!(nothing, over(&["", "No matches found"]));
    let after = step(&friends, nothing.state, line("1\n"));
    assert_eq!(after, over(&[]));
}

#[test]
fn search_on_an_empty_contact_list_finds_nothing() {
    let nothing = step(&Vec::new(), State::AwaitQuery, line("an"));
    assert_eq!(nothing, over(&["", "No matches found"]));
}

#[test]
fn invalid_selections_fail_alike() {
    let friends = contacts();
    for input in ["0", "3", "abc", "", "-1", "2.5"] {
        let failed = step(&friends, State::AwaitChoice { found: contacts() }, line(input));
        assert_eq!(failed, over(&["Error: invalid index"]), "{:?}", input);
    }
}

#[test]
fn accept_all_sends_one_request_for_each_invitation() {
    let friends = contacts();
    let invites = vec![invite("a1"), invite("b2"), invite("c3")];
    let first = step(&friends, State::AwaitInvites, Event::Invites(invites));
    assert_eq!(first.lines, Vec::<String>::new());
    assert_eq!(first.action, accept("a1"));

    let second = step(&friends, first.state, Event::Responded { success: false });
    assert_eq!(second.lines, vec!["Failed to accept pending invitations"]);
    assert_eq!(second.action, accept("b2"));

    let third = step(&friends, second.state, Event::Responded { success: true });
    assert_eq!(third.lines, vec!["Successfully accepted pending invitations"]);
    assert_eq!(third.action, accept("c3"));

    let last = step(&friends, third.state, Event::Responded { success: false });
    assert_eq!(last, over(&["Failed to accept pending invitations"]));
}

#[test]
fn accept_all_counts_its_requests() {
    let friends = contacts();
    for n in 1..6usize {
        let invites: Vec<Invite> = (0..n).map(|i| invite(&format!("id-{}", i))).collect();
        let mut current = step(&friends, State::AwaitInvites, Event::Invites(invites));
        let mut sent = 0;
        let mut reported = 0;
        while current.action != Action::Done {
            assert_eq!(current.action, accept(&format!("id-{}", sent)));
            sent += 1;
            current = step(&friends, current.state, Event::Responded { success: sent % 2 == 0 });
            reported += current.lines.len();
        }
        assert_eq!(sent, n);
        assert_eq!(reported, n);
        assert_eq!(current.state, State::Finished);
    }
}

#[test]
fn single_invitation_is_accepted() {
    let friends = contacts();
    let first = step(&friends, State::AwaitInvites, Event::Invites(vec![invite("only")]));
    assert_eq!(first.action, accept("only"));
    let last = step(&friends, first.state, Event::Responded { success: true });
    assert_eq!(last, over(&["Successfully accepted pending invitations"]));
}

#[test]
fn failure_ends_the_pass_with_its_message() {
    let friends = contacts();
    let request = ChatBrokenError::ApiError(ApiError::RequestError);
    let failed = step(&friends, State::AwaitInvites, Event::Failed(request));
    assert_eq!(failed, over(&["Error: lcu api error"]));
    let decode = step(&friends, State::AwaitInvites, Event::Failed(ChatBrokenError::ReqwestError));
    assert_eq!(decode, over(&["Error: reqwest error"]));
    let terminal = step(&friends, State::AwaitQuery, Event::Failed(ChatBrokenError::IoError));
    assert_eq!(terminal, over(&["Error: error with terminal input"]));
    let accepting = State::AwaitAccepted { invites: vec![invite("a"), invite("b")], current: 0 };
    let broken = step(&friends, accepting, Event::Failed(request));
    assert_eq!(broken, over(&["Error: lcu api error"]));
}

#[test]
fn unexpected_event_is_invalid_data() {
    let friends = contacts();
    let odd = step(&friends, State::AwaitQuery, Event::Responded { success: true });
    assert_eq!(odd, over(&["Error: lcu api returned invalid data"]));
    let early = step(&friends, State::AwaitInvites, line("x"));
    assert_eq!(early, over(&["Error: lcu api returned invalid data"]));
}

#[test]
fn finished_pass_stays_finished() {
    let friends = contacts();
    assert_eq!(step(&friends, State::Finished, line("an")), over(&[]));
    assert_eq!(step(&friends, State::Finished, Event::Failed(ChatBrokenError::IoError)), over(&[]));
}

#[test]
fn accepting_beyond_the_list_ends_the_pass() {
    let friends = contacts();
    let state = State::AwaitAccepted { invites: vec![invite("a")], current: 7 };
    let done = step(&friends, state, Event::Responded { success: true });
    assert_eq!(done, over(&["Successfully accepted pending invitations"]));
    let empty = State::AwaitAccepted { invites: Vec::new(), current: usize::MAX };
    let done = step(&friends, empty, Event::Responded { success: false });
    assert_eq!(done, over(&["Failed to accept pending invitations"]));
}
