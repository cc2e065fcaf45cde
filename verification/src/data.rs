use vstd::prelude::*;
use crate::game::{Match, Round, Symbol, Victor, TARGET_SCORE, spec_next_round, spec_round_victor};

verus! {

// ---------------------------------------------------------------------------
// The session state machine of the lobby game, lifted out of its I/O: the
// networking and matchmaking calls of the event loop appear here as
// `Action` values that the surrounding program performs, and their results
// come back as events.
// ---------------------------------------------------------------------------

/// What a click on one of the user-interface elements means.
#[derive(Clone, Copy, PartialEq, Eq, Structural, Debug)]
pub enum EventTag {
    CreateLobby,
    LeaveLobby,
    StartMatch,
    Pick(Symbol),
    Abandon,
    EndApp,
}

/// A user-interface event: a hardware key the session reacts to, or a
/// click.
#[derive(Clone, Copy, PartialEq, Eq, Structural, Debug)]
pub enum UiEvent {
    Escape,
    Fullscreen,
    Clicked(EventTag),
}

/// A message exchanged with the other player.
#[derive(PartialEq, Eq, Debug)]
pub enum SteamMessage {
    Hi,
    Start(u64, String),
    Pick(Symbol),
    Abandon,
}

/// A matchmaking or networking event handed in by the surrounding
/// program.
#[derive(PartialEq, Eq, Debug)]
pub enum SteamEvent {
    LobbyJoined(Vec<(u64, String)>),
    JoinFailed,
    Msg(SteamMessage),
}

/// What the surrounding program must do after a step of the machine.
#[derive(PartialEq, Eq, Debug)]
pub enum Action {
    ToggleFullscreen,
    JoinLobby,
    LeaveLobby,
    Send(SteamMessage),
    RequestLayout,
    NeedTwoPlayers,
    AnnounceVictor(Victor),
    OpponentLeft,
}

/// What the per-frame housekeeping should pump.
#[derive(Clone, Copy, PartialEq, Eq, Structural, Debug)]
pub enum FrameAction {
    PumpLobby,
    PumpMatch,
    Idle,
}

/// The lobby as the session sees it: its member list, the local player
/// first.
pub struct LobbyState {
    pub members: Vec<(u64, String)>,
}

/// Where the session stands.
pub enum State {
    Menu,
    Lobby(LobbyState),
    Match(Match),
    End,
}

/// The session data: the state the event handlers step through.
pub struct Data {
    pub state: State,
}

// ---------------------------------------------------------------------------
// Transition relation
// ---------------------------------------------------------------------------

/// A fresh match against the named opponent.
pub open spec fn spec_new_match(you: Seq<char>, opp: Seq<char>, m: Match) -> bool {
    &&& m.players.0@ == you
    &&& m.players.1@ == opp
    &&& m.target_score == TARGET_SCORE
    &&& m.scores == (0u32, 0u32)
    &&& m.current_round == (Round { your_symbol: None, opp_symbol: None })
    &&& m.last_round is None
}

/// The match after the local player picked `sym`.
pub open spec fn spec_after_pick(m: Match, sym: Symbol) -> Match {
    Match {
        current_round: Round {
            your_symbol: Some(sym),
            opp_symbol: m.current_round.opp_symbol,
        },
        ..m
    }
}

/// The match after the opponent picked `sym`.
pub open spec fn spec_after_opp_pick(m: Match, sym: Symbol) -> Match {
    Match {
        current_round: Round {
            your_symbol: m.current_round.your_symbol,
            opp_symbol: Some(sym),
        },
        ..m
    }
}

/// When a user-interface event may be handed to the machine: a click is
/// only meaningful in the state whose screen shows the clicked element.
pub open spec fn spec_ui_pre(s: State, e: UiEvent) -> bool {
    match e {
        UiEvent::Clicked(EventTag::StartMatch) => s is Lobby,
        UiEvent::Clicked(EventTag::Pick(_)) => s is Match && s->Match_0.scores.0 < u32::MAX
            && s->Match_0.scores.1 < u32::MAX,
        UiEvent::Clicked(EventTag::Abandon) => s is Match,
        _ => true,
    }
}

/// When a matchmaking or networking event may be handed to the machine.
pub open spec fn spec_steam_pre(s: State, e: SteamEvent) -> bool {
    match e {
        SteamEvent::Msg(m) => match s {
            State::Menu => false,
            State::Lobby(ls) => match m {
                SteamMessage::Hi => true,
                SteamMessage::Start(_, _) => ls.members@.len() >= 1,
                SteamMessage::Pick(_) => false,
                SteamMessage::Abandon => false,
            },
            State::Match(g) => match m {
                SteamMessage::Start(_, _) => false,
                SteamMessage::Pick(_) => g.scores.0 < u32::MAX && g.scores.1 < u32::MAX,
                _ => true,
            },
            State::End => true,
        },
        _ => true,
    }
}

impl Data {
    /// A fresh session, in the menu.
    pub fn new() -> (d: Data)
        ensures
            d.state is Menu,
    {
        Data { state: State::Menu }
    }

    /// Step the machine on a user-interface event; the returned actions
    /// are what the surrounding program performs, in order.
    pub fn ui_event(&mut self, event: UiEvent) -> (actions: Vec<Action>)
        requires
            spec_ui_pre(old(self).state, event),
        ensures
            match event {
                UiEvent::Escape => final(self).state is End && actions@ =~= Seq::<
                    Action,
                >::empty(),
                UiEvent::Fullscreen => final(self).state == old(self).state && actions@ =~= seq![
                    Action::ToggleFullscreen,
                ],
                UiEvent::Clicked(tag) => match tag {
                    EventTag::CreateLobby => final(self).state == old(self).state && actions@
                        =~= seq![Action::JoinLobby],
                    EventTag::LeaveLobby => final(self).state is Menu && actions@ =~= seq![
                        Action::LeaveLobby,
                    ],
                    EventTag::EndApp => final(self).state is End && actions@ =~= Seq::<
                        Action,
                    >::empty(),
                    EventTag::StartMatch => {
                        let members = old(self).state->Lobby_0.members@;
                        if members.len() == 2 {
                            &&& final(self).state is Match
                            &&& spec_new_match(
                                members[0].1@,
                                members[1].1@,
                                final(self).state->Match_0,
                            )
                            &&& actions@.len() == 1
                            &&& actions@[0] matches Action::Send(SteamMessage::Start(id, name))
                                && id == members[0].0 && name@ == members[0].1@
                        } else {
                            final(self).state == old(self).state && actions@ =~= seq![
                                Action::NeedTwoPlayers,
                            ]
                        }
                    },
                    EventTag::Pick(sym) => {
                        let m1 = spec_after_pick(old(self).state->Match_0, sym);
                        if spec_round_victor(m1.current_round) is None {
                            &&& final(self).state == State::Match(m1)
                            &&& actions@ =~= seq![Action::Send(SteamMessage::Pick(sym))]
                        } else {
                            let stepped = spec_next_round(m1);
                            match stepped.1 {
                                None => final(self).state == State::Match(stepped.0) && actions@
                                    =~= seq![
                                    Action::Send(SteamMessage::Pick(sym)),
                                    Action::RequestLayout,
                                ],
                                Some(v) => final(self).state is Menu && actions@ =~= seq![
                                    Action::Send(SteamMessage::Pick(sym)),
                                    Action::RequestLayout,
                                    Action::AnnounceVictor(v),
                                ],
                            }
                        }
                    },
                    EventTag::Abandon => final(self).state is Menu && actions@ =~= seq![
                        Action::Send(SteamMessage::Abandon),
                    ],
                },
            },
    {
        let mut actions: Vec<Action> = Vec::new();
        match event {
            UiEvent::Escape => {
                self.state = State::End;
            },
            UiEvent::Fullscreen => {
                actions.push(Action::ToggleFullscreen);
            },
            UiEvent::Clicked(tag) => match tag {
                EventTag::CreateLobby => {
                    actions.push(Action::JoinLobby);
                },
                EventTag::LeaveLobby => {
                    actions.push(Action::LeaveLobby);
                    self.state = State::Menu;
                },
                EventTag::EndApp => {
                    self.state = State::End;
                },
                EventTag::StartMatch => {
                    let mut info: Option<(u64, String, String, String)> = None;
                    match &self.state {
                        State::Lobby(ls) => {
                            if ls.members.len() == 2 {
                                let id = ls.members[0].0;
                                let sent_name = ls.members[0].1.clone();
                                let your_name = ls.members[0].1.clone();
                                let opp_name = ls.members[1].1.clone();
                                info = Some((id, sent_name, your_name, opp_name));
                            }
                        },
                        _ => {
                            proof {
                                assert(false);
                            }
                        },
                    }
                    match info {
                        Some(parts) => {
                            let (id, sent_name, your_name, opp_name) = parts;
                            actions.push(Action::Send(SteamMessage::Start(id, sent_name)));
                            self.state = State::Match(
                                Match::new(TARGET_SCORE, your_name, opp_name),
                            );
                        },
                        None => {
                            actions.push(Action::NeedTwoPlayers);
                        },
                    }
                },
                EventTag::Pick(sym) => {
                    actions.push(Action::Send(SteamMessage::Pick(sym)));
                    let mut to_menu: bool = false;
                    match &mut self.state {
                        State::Match(m) => {
                            if m.current_round.your_turn(sym) {
                                actions.push(Action::RequestLayout);
                                match m.next_round() {
                                    Some(v) => {
                                        actions.push(Action::AnnounceVictor(v));
                                        to_menu = true;
                                    },
                                    None => {},
                                }
                            }
                        },
                        _ => {
                            proof {
                                assert(false);
                            }
                        },
                    }
                    if to_menu {
                        self.state = State::Menu;
                    }
                },
                EventTag::Abandon => {
                    actions.push(Action::Send(SteamMessage::Abandon));
                    self.state = State::Menu;
                },
            },
        }
        actions
    }

    /// Step the machine on a matchmaking or networking event.
    pub fn steam_events(&mut self, event: SteamEvent) -> (actions: Vec<Action>)
        requires
            spec_steam_pre(old(self).state, event),
        ensures
            match event {
                SteamEvent::LobbyJoined(members) => final(self).state matches State::Lobby(ls)
                    && ls.members == members && actions@ =~= Seq::<Action>::empty(),
                SteamEvent::JoinFailed => final(self).state == old(self).state && actions@ =~= Seq::<
                    Action,
                >::empty(),
                SteamEvent::Msg(msg) => match old(self).state {
                    State::Lobby(ls) => match msg {
                        SteamMessage::Hi => final(self).state == old(self).state && actions@
                            =~= Seq::<Action>::empty(),
                        SteamMessage::Start(_, opp_name) => {
                            &&& final(self).state is Match
                            &&& spec_new_match(
                                ls.members@[0].1@,
                                opp_name@,
                                final(self).state->Match_0,
                            )
                            &&& actions@ =~= Seq::<Action>::empty()
                        },
                        _ => false,
                    },
                    State::Match(g) => match msg {
                        SteamMessage::Hi => final(self).state == old(self).state && actions@
                            =~= Seq::<Action>::empty(),
                        SteamMessage::Pick(sym) => {
                            let m1 = spec_after_opp_pick(g, sym);
                            if spec_round_victor(m1.current_round) is None {
                                &&& final(self).state == State::Match(m1)
                                &&& actions@ =~= Seq::<Action>::empty()
                            } else {
                                let stepped = spec_next_round(m1);
                                match stepped.1 {
                                    None => final(self).state == State::Match(stepped.0)
                                        && actions@ =~= seq![Action::RequestLayout],
                                    Some(v) => final(self).state is Menu && actions@ =~= seq![
                                        Action::RequestLayout,
                                        Action::AnnounceVictor(v),
                                    ],
                                }
                            }
                        },
                        SteamMessage::Abandon => final(self).state is Menu && actions@ =~= seq![
                            Action::OpponentLeft,
                        ],
                        _ => false,
                    },
                    State::End => final(self).state is End && actions@ =~= Seq::<
                        Action,
                    >::empty(),
                    State::Menu => false,
                },
            },
    {
        let mut actions: Vec<Action> = Vec::new();
        match event {
            SteamEvent::LobbyJoined(members) => {
                self.state = State::Lobby(LobbyState { members });
            },
            SteamEvent::JoinFailed => {},
            SteamEvent::Msg(msg) => {
                match &self.state {
                    State::End => {
                        return actions;
                    },
                    _ => {},
                }
                match msg {
                    SteamMessage::Hi => {},
                    SteamMessage::Start(_opp_id, opp_name) => {
                        let mut your_name: String = String::new();
                        match &self.state {
                            State::Lobby(ls) => {
                                your_name = ls.members[0].1.clone();
                            },
                            _ => {
                                proof {
                                    assert(false);
                                }
                            },
                        }
                        self.state = State::Match(
                            Match::new(TARGET_SCORE, your_name, opp_name),
                        );
                    },
                    SteamMessage::Pick(sym) => {
                        let mut to_menu: bool = false;
                        match &mut self.state {
                            State::Match(m) => {
                                if m.current_round.opp_turn(sym) {
                                    actions.push(Action::RequestLayout);
                                    match m.next_round() {
                                        Some(v) => {
                                            actions.push(Action::AnnounceVictor(v));
                                            to_menu = true;
                                        },
                                        None => {},
                                    }
                                }
                            },
                            _ => {
                                proof {
                                    assert(false);
                                }
                            },
                        }
                        if to_menu {
                            self.state = State::Menu;
                        }
                    },
                    SteamMessage::Abandon => {
                        actions.push(Action::OpponentLeft);
                        self.state = State::Menu;
                    },
                }
            },
        }
        actions
    }

    /// What the per-frame housekeeping should pump in the current state.
    pub fn frame(&self) -> (a: FrameAction)
        ensures
            a == (match self.state {
                State::Lobby(_) => FrameAction::PumpLobby,
                State::Match(_) => FrameAction::PumpMatch,
                _ => FrameAction::Idle,
            }),
    {
        match &self.state {
            State::Lobby(_) => FrameAction::PumpLobby,
            State::Match(_) => FrameAction::PumpMatch,
            _ => FrameAction::Idle,
        }
    }
}

// ---------------------------------------------------------------------------
// Lobby membership
// ---------------------------------------------------------------------------

/// The member list as the lobby builds it: members in arrival order,
/// except that every entry with the local player's id is put in front (the
/// last such entry first).
pub open spec fn spec_order_members(your_id: u64, raw: Seq<(u64, String)>) -> Seq<(u64, String)>
    decreases raw.len(),
{
    if raw.len() == 0 {
        Seq::empty()
    } else {
        let prev = spec_order_members(your_id, raw.drop_last());
        let m = raw.last();
        if m.0 == your_id {
            seq![m] + prev
        } else {
            prev.push(m)
        }
    }
}

impl LobbyState {
    /// Whether the held member list already has the expected number of
    /// entries.
    pub fn verify_member_list(&self, expected_count: usize) -> (b: bool)
        ensures
            b == (expected_count as int == self.members@.len()),
    {
        expected_count == self.members.len()
    }

    /// Replace the member list with the freshly fetched one, the local
    /// player first.
    pub fn set_members(&mut self, your_id: u64, raw: Vec<(u64, String)>)
        ensures
            final(self).members@ == spec_order_members(your_id, raw@),
    {
        self.members = Vec::new();
        let mut i: usize = 0;
        while i < raw.len()
            invariant
                i <= raw@.len(),
                self.members@ == spec_order_members(your_id, raw@.take(i as int)),
            decreases raw@.len() - i,
        {
            let id = raw[i].0;
            let name = raw[i].1.clone();
            proof {
                assert(raw@.take(i as int + 1).drop_last() =~= raw@.take(i as int));
                assert(raw@.take(i as int + 1).last() == raw@[i as int]);
            }
            if id == your_id {
                self.members.insert(0, (id, name));
                proof {
                    assert(self.members@ =~= seq![raw@[i as int]] + spec_order_members(
                        your_id,
                        raw@.take(i as int),
                    ));
                }
            } else {
                self.members.push((id, name));
                proof {
                    assert(self.members@ =~= spec_order_members(
                        your_id,
                        raw@.take(i as int),
                    ).push(raw@[i as int]));
                }
            }
            i = i + 1;
        }
        proof {
            assert(raw@.take(raw@.len() as int) =~= raw@);
        }
    }

    /// One housekeeping step of the lobby: when the expected member count
    /// differs from the held list, rebuild the list; reports whether it was rebuilt (and the
    /// user interface must be laid out anew).
    pub fn frame(&mut self, expected_count: usize, your_id: u64, raw: Vec<(u64, String)>) -> (changed:
        bool)
        ensures
            changed == (expected_count as int != old(self).members@.len()),
            changed ==> final(self).members@ == spec_order_members(your_id, raw@),
            !changed ==> final(self).members@ == old(self).members@,
    {
        if !self.verify_member_list(expected_count) {
            self.set_members(your_id, raw);
            true
        } else {
            false
        }
    }
}

} // verus!
