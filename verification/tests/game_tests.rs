use gru_core::data::{
    Action, Data, EventTag, FrameAction, LobbyState, State, SteamEvent, SteamMessage, UiEvent,
};
use gru_core::game::{Match, Symbol, Victor, TARGET_SCORE};

#[test]
fn round_outcomes_follow_the_rules() {
    let mut m = Match::new(2, "you".to_string(), "opp".to_string());
    assert!(!m.current_round.finished());
    assert!(!m.current_round.your_turn(Symbol::Rock));
    assert!(m.current_round.opp_turn(Symbol::Scissor));
    assert!(m.current_round.finished());
    let v = m.next_round();
    assert!(v.is_none());
    assert_eq!(m.scores, (1, 0));
    assert_eq!(m.last_round, Some((Symbol::Rock, Symbol::Scissor)));
    assert!(!m.current_round.finished());
}

#[test]
fn tie_rounds_score_nothing() {
    let mut m = Match::new(2, "you".to_string(), "opp".to_string());
    m.current_round.your_turn(Symbol::Paper);
    m.current_round.opp_turn(Symbol::Paper);
    assert!(m.next_round().is_none());
    assert_eq!(m.scores, (0, 0));
    assert_eq!(m.last_round, Some((Symbol::Paper, Symbol::Paper)));
}

#[test]
fn open_round_does_not_advance() {
    let mut m = Match::new(2, "you".to_string(), "opp".to_string());
    m.current_round.your_turn(Symbol::Rock);
    assert!(m.next_round().is_none());
    assert_eq!(m.scores, (0, 0));
    assert!(m.last_round.is_none());
}

#[test]
fn match_ends_at_target_score() {
    let mut m = Match::new(2, "you".to_string(), "opp".to_string());
    // Opponent wins two rounds: paper beats rock, scissor beats paper.
    m.current_round.your_turn(Symbol::Rock);
    m.current_round.opp_turn(Symbol::Paper);
    assert!(m.next_round().is_none());
    assert_eq!(m.scores, (0, 1));
    m.current_round.your_turn(Symbol::Paper);
    m.current_round.opp_turn(Symbol::Scissor);
    let v = m.next_round();
    assert!(matches!(v, Some(Victor::Opp)));
    assert_eq!(m.scores, (0, 2));
    assert!(matches!(m.victor(), Some(Victor::Opp)));
    // The final round is not archived once the match is over.
    assert!(m.current_round.finished());
}

#[test]
fn lobby_member_list_puts_you_first() {
    let mut lobby = LobbyState { members: Vec::new() };
    let raw = vec![
        (5u64, "ada".to_string()),
        (7u64, "you".to_string()),
        (9u64, "ben".to_string()),
    ];
    assert!(!lobby.verify_member_list(3));
    lobby.set_members(7, raw);
    assert_eq!(
        lobby.members,
        vec![
            (7u64, "you".to_string()),
            (5u64, "ada".to_string()),
            (9u64, "ben".to_string()),
        ]
    );
    assert!(lobby.verify_member_list(3));
}

#[test]
fn lobby_frame_rebuilds_only_on_count_change() {
    let mut lobby = LobbyState { members: vec![(7u64, "you".to_string())] };
    let raw = vec![(7u64, "you".to_string()), (5u64, "ada".to_string())];
    assert!(!lobby.frame(1, 7, raw.clone()));
    assert_eq!(lobby.members.len(), 1);
    assert!(lobby.frame(2, 7, raw));
    assert_eq!(lobby.members.len(), 2);
    assert_eq!(lobby.members[0].0, 7);
}

fn two_member_lobby() -> Vec<(u64, String)> {
    vec![(7u64, "you".to_string()), (9u64, "opp".to_string())]
}

#[test]
fn session_reaches_a_match_through_the_lobby() {
    let mut data = Data::new();
    assert!(matches!(data.state, State::Menu));
    assert!(matches!(data.frame(), FrameAction::Idle));

    let actions = data.ui_event(UiEvent::Clicked(EventTag::CreateLobby));
    assert_eq!(actions, vec![Action::JoinLobby]);
    assert!(matches!(data.state, State::Menu));

    let actions = data.steam_events(SteamEvent::LobbyJoined(two_member_lobby()));
    assert!(actions.is_empty());
    assert!(matches!(data.state, State::Lobby(_)));
    assert!(matches!(data.frame(), FrameAction::PumpLobby));

    let actions = data.ui_event(UiEvent::Clicked(EventTag::StartMatch));
    assert_eq!(
        actions,
        vec![Action::Send(SteamMessage::Start(7, "you".to_string()))]
    );
    match &data.state {
        State::Match(m) => {
            assert_eq!(m.players, ("you".to_string(), "opp".to_string()));
            assert_eq!(m.target_score, TARGET_SCORE);
            assert_eq!(m.scores, (0, 0));
        }
        _ => panic!("expected a match"),
    }
    assert!(matches!(data.frame(), FrameAction::PumpMatch));
}

#[test]
fn session_needs_two_players_to_start() {
    let mut data = Data::new();
    data.steam_events(SteamEvent::LobbyJoined(vec![(7u64, "you".to_string())]));
    let actions = data.ui_event(UiEvent::Clicked(EventTag::StartMatch));
    assert_eq!(actions, vec![Action::NeedTwoPlayers]);
    assert!(matches!(data.state, State::Lobby(_)));
}

#[test]
fn session_plays_a_full_match() {
    let mut data = Data::new();
    data.steam_events(SteamEvent::LobbyJoined(two_member_lobby()));
    data.ui_event(UiEvent::Clicked(EventTag::StartMatch));

    // TARGET_SCORE rounds won by the local player end the match.
    for i in 0..TARGET_SCORE {
        let actions = data.ui_event(UiEvent::Clicked(EventTag::Pick(Symbol::Rock)));
        assert_eq!(actions, vec![Action::Send(SteamMessage::Pick(Symbol::Rock))]);
        let actions = data.steam_events(SteamEvent::Msg(SteamMessage::Pick(Symbol::Scissor)));
        if i + 1 < TARGET_SCORE {
            assert_eq!(actions, vec![Action::RequestLayout]);
            match &data.state {
                State::Match(m) => {
                    assert_eq!(m.scores, (i + 1, 0));
                    assert_eq!(m.last_round, Some((Symbol::Rock, Symbol::Scissor)));
                }
                _ => panic!("expected a match"),
            }
        } else {
            assert_eq!(
                actions,
                vec![Action::RequestLayout, Action::AnnounceVictor(Victor::You)]
            );
            assert!(matches!(data.state, State::Menu));
        }
    }
}

#[test]
fn session_handles_abandon_and_departure() {
    let mut data = Data::new();
    data.steam_events(SteamEvent::LobbyJoined(two_member_lobby()));
    data.ui_event(UiEvent::Clicked(EventTag::StartMatch));
    let actions = data.steam_events(SteamEvent::Msg(SteamMessage::Abandon));
    assert_eq!(actions, vec![Action::OpponentLeft]);
    assert!(matches!(data.state, State::Menu));

    data.steam_events(SteamEvent::LobbyJoined(two_member_lobby()));
    data.ui_event(UiEvent::Clicked(EventTag::StartMatch));
    let actions = data.ui_event(UiEvent::Clicked(EventTag::Abandon));
    assert_eq!(actions, vec![Action::Send(SteamMessage::Abandon)]);
    assert!(matches!(data.state, State::Menu));
}

#[test]
fn session_accepts_incoming_start() {
    let mut data = Data::new();
    data.steam_events(SteamEvent::LobbyJoined(vec![(7u64, "you".to_string())]));
    let actions = data.steam_events(SteamEvent::Msg(SteamMessage::Start(
        9,
        "opp".to_string(),
    )));
    assert!(actions.is_empty());
    match &data.state {
        State::Match(m) => {
            assert_eq!(m.players, ("you".to_string(), "opp".to_string()));
        }
        _ => panic!("expected a match"),
    }
}

#[test]
fn session_keys_and_failures() {
    let mut data = Data::new();
    let actions = data.ui_event(UiEvent::Fullscreen);
    assert_eq!(actions, vec![Action::ToggleFullscreen]);
    let actions = data.steam_events(SteamEvent::JoinFailed);
    assert!(actions.is_empty());
    assert!(matches!(data.state, State::Menu));
    let actions = data.ui_event(UiEvent::Escape);
    assert!(actions.is_empty());
    assert!(matches!(data.state, State::End));
    // Messages arriving after the end are ignored.
    let actions = data.steam_events(SteamEvent::Msg(SteamMessage::Hi));
    assert!(actions.is_empty());
    assert!(matches!(data.state, State::End));
}
