use president::action::{Action, Event};
use president::card::{Card, Rank, Suit};
use president::card_play::CardPlay;
use president::config::{DatabaseConfig, DatabaseWriterType, GameHandle};
use president::game_state::{GameState, RoleScheme};
use president::player::{Player, Strategy};
use president::player_state::{PlayerState, Role};
use president::round::role_for_place;
use president::strategies::{DefaultStrategy, RandomStrategy};

fn c(rank: Rank, suit: Suit) -> Card {
    Card::new(rank, suit)
}

fn seat(id: u128, name: &str, hand: Vec<Card>) -> Player<DefaultStrategy> {
    Player {
        state: PlayerState::new_with_id(id, name.to_string(), hand, None),
        strategy: DefaultStrategy::default(),
    }
}

fn game(table: Vec<Player<DefaultStrategy>>, top: Option<CardPlay>, history: Vec<Event>) -> GameState<DefaultStrategy> {
    GameState { table, top_card: top, history, role_scheme: RoleScheme::ExtremesFirst }
}

fn opened() -> Vec<Event> {
    vec![Event {
        player_id: 99,
        action: Action::PlayCards { card_play: CardPlay::Single(c(Rank::Three, Suit::Clubs)) },
    }]
}

fn play(cp: CardPlay) -> Action {
    Action::PlayCards { card_play: cp }
}

#[test]
fn open_table_offers_every_group_but_no_triple() {
    let ks = c(Rank::King, Suit::Spades);
    let kh = c(Rank::King, Suit::Hearts);
    let ad = c(Rank::Ace, Suit::Diamonds);
    let g = game(
        vec![seat(1, "A", vec![ks, kh, ad]), seat(2, "B", vec![c(Rank::Four, Suit::Spades)])],
        None,
        opened(),
    );
    let actions = g.permitted_actions();
    assert!(actions.contains(&play(CardPlay::Pair(ks, kh))));
    assert!(actions.contains(&play(CardPlay::Single(ks))));
    assert!(actions.contains(&play(CardPlay::Single(kh))));
    assert!(actions.contains(&play(CardPlay::Single(ad))));
    assert!(!actions.iter().any(|a| matches!(a, Action::PlayCards { card_play: CardPlay::Triple(..) })));
    assert!(!actions.contains(&Action::Pass));
    assert_eq!(actions.len(), 4);
}

#[test]
fn single_on_table_allows_only_higher_single_and_pass() {
    let qh = c(Rank::Queen, Suit::Hearts);
    let ts = c(Rank::Ten, Suit::Spades);
    let g = game(
        vec![seat(1, "A", vec![qh, ts]), seat(2, "B", vec![c(Rank::Four, Suit::Spades)])],
        Some(CardPlay::Single(c(Rank::Jack, Suit::Clubs))),
        opened(),
    );
    let actions = g.permitted_actions();
    assert_eq!(actions, vec![play(CardPlay::Single(qh)), Action::Pass]);
}

#[test]
fn pair_on_table_ignores_singles() {
    let g = game(
        vec![
            seat(1, "A", vec![c(Rank::Two, Suit::Hearts), c(Rank::Five, Suit::Hearts), c(Rank::Five, Suit::Clubs)]),
            seat(2, "B", vec![c(Rank::Four, Suit::Spades)]),
        ],
        Some(CardPlay::Pair(c(Rank::Four, Suit::Hearts), c(Rank::Four, Suit::Clubs))),
        opened(),
    );
    let actions = g.permitted_actions();
    assert_eq!(
        actions,
        vec![play(CardPlay::Pair(c(Rank::Five, Suit::Hearts), c(Rank::Five, Suit::Clubs))), Action::Pass]
    );
}

#[test]
fn first_play_must_hold_starting_card() {
    let c3 = c(Rank::Three, Suit::Clubs);
    let s3 = c(Rank::Three, Suit::Spades);
    let g = game(
        vec![seat(1, "A", vec![c3, s3, c(Rank::Nine, Suit::Hearts)]), seat(2, "B", vec![c(Rank::Four, Suit::Spades)])],
        None,
        vec![],
    );
    assert_eq!(g.find_starting_card(), Some(c3));
    assert_eq!(g.starting_player_and_card(), (1, c3));
    let actions = g.permitted_actions();
    assert_eq!(actions.len(), 2);
    assert!(actions.contains(&play(CardPlay::Single(c3))));
    assert!(actions.contains(&play(CardPlay::Pair(c3, s3))));
}

#[test]
fn starting_card_falls_back_to_four_of_clubs() {
    let g = game(
        vec![seat(1, "A", vec![c(Rank::Nine, Suit::Hearts)]), seat(2, "B", vec![c(Rank::Four, Suit::Clubs)])],
        None,
        vec![],
    );
    assert_eq!(g.starting_player_and_card(), (2, c(Rank::Four, Suit::Clubs)));
    let g2 = game(vec![seat(1, "A", vec![c(Rank::Nine, Suit::Hearts)])], None, vec![]);
    assert_eq!(g2.find_starting_card(), None);
}

#[test]
fn permitted_actions_twice_gives_the_same_list() {
    let g = game(
        vec![
            seat(1, "A", vec![c(Rank::King, Suit::Spades), c(Rank::King, Suit::Hearts), c(Rank::Six, Suit::Clubs)]),
            seat(2, "B", vec![c(Rank::Four, Suit::Spades)]),
        ],
        None,
        opened(),
    );
    let first = g.permitted_actions();
    let second = g.permitted_actions();
    assert_eq!(first, second);
}

#[test]
fn playing_removes_cards_and_sets_top_card() {
    let ks = c(Rank::King, Suit::Spades);
    let kh = c(Rank::King, Suit::Hearts);
    let six = c(Rank::Six, Suit::Clubs);
    let mut g = game(
        vec![seat(1, "A", vec![ks, six, kh]), seat(2, "B", vec![c(Rank::Four, Suit::Spades)])],
        None,
        opened(),
    );
    let cp = CardPlay::Pair(ks, kh);
    assert!(g.is_performable(&play(cp)));
    g.perform_ingame_action(&play(cp));
    assert_eq!(g.top_card, Some(cp));
    let a = g.get_player(1).unwrap();
    assert_eq!(a.state.current_hand, vec![six]);
    assert_eq!(g.current_player().state.id, 2);
    assert_eq!(g.history.len(), 2);
    assert_eq!(g.history[1], Event { player_id: 1, action: play(cp) });
    assert_eq!(g.last_played_id(), Some(1));
}

#[test]
fn not_performable_moves() {
    let g = game(
        vec![seat(1, "A", vec![c(Rank::Six, Suit::Clubs)]), seat(2, "B", vec![c(Rank::Four, Suit::Spades)])],
        Some(CardPlay::Single(c(Rank::Nine, Suit::Clubs))),
        opened(),
    );
    assert!(!g.is_performable(&play(CardPlay::Single(c(Rank::Six, Suit::Clubs)))));
    assert!(!g.is_performable(&play(CardPlay::Single(c(Rank::Ace, Suit::Clubs)))));
    assert!(!g.is_performable(&Action::SendCard { to: 2, card: c(Rank::Six, Suit::Clubs) }));
    assert!(g.is_performable(&Action::Pass));
}

#[test]
fn turn_rotation_and_clearing() {
    let a5 = c(Rank::Five, Suit::Spades);
    let c7 = c(Rank::Seven, Suit::Spades);
    let mut g = game(
        vec![
            seat(1, "A", vec![a5, c(Rank::Queen, Suit::Spades)]),
            seat(2, "B", vec![c(Rank::Six, Suit::Hearts), c(Rank::Three, Suit::Hearts)]),
            seat(3, "C", vec![c7, c(Rank::Eight, Suit::Spades)]),
        ],
        None,
        opened(),
    );
    g.perform_ingame_action(&play(CardPlay::Single(a5)));
    assert_eq!(g.current_player().state.id, 2);
    g.perform_ingame_action(&Action::Pass);
    assert_eq!(g.current_player().state.id, 3);
    g.perform_ingame_action(&play(CardPlay::Single(c7)));
    assert_eq!(g.current_player().state.id, 1);
    assert_eq!(g.top_card, Some(CardPlay::Single(c7)));
    g.perform_ingame_action(&Action::Pass);
    assert_eq!(g.current_player().state.id, 2);
    assert_eq!(g.top_card, Some(CardPlay::Single(c7)));
    g.perform_ingame_action(&Action::Pass);
    assert_eq!(g.current_player().state.id, 3);
    assert_eq!(g.top_card, None);
}

#[test]
fn empty_hands_are_skipped() {
    let a5 = c(Rank::Five, Suit::Spades);
    let mut g = game(
        vec![
            seat(1, "A", vec![a5, c(Rank::Queen, Suit::Spades)]),
            seat(2, "B", vec![]),
            seat(3, "C", vec![c(Rank::Eight, Suit::Spades)]),
        ],
        None,
        opened(),
    );
    assert!(g.still_playing());
    g.perform_ingame_action(&play(CardPlay::Single(a5)));
    assert_eq!(g.current_player().state.id, 3);
}

#[test]
fn still_playing_needs_two_hands() {
    let g = game(
        vec![seat(1, "A", vec![]), seat(2, "B", vec![c(Rank::Four, Suit::Spades)]), seat(3, "C", vec![])],
        None,
        opened(),
    );
    assert!(!g.still_playing());
}

fn finished_round(n: usize) -> GameState<DefaultStrategy> {
    // seat 0 goes out first, then seat 1, ...; the last seat is left with cards
    let mut table = Vec::new();
    let mut history = Vec::new();
    for i in 0..n {
        let hand = if i + 1 == n { vec![c(Rank::Four, Suit::Spades)] } else { vec![] };
        table.push(seat(i as u128 + 1, "P", hand));
    }
    for i in 0..n - 1 {
        history.push(Event {
            player_id: i as u128 + 1,
            action: Action::PlayCards { card_play: CardPlay::Single(c(Rank::Five, Suit::Spades)) },
        });
        history.push(Event { player_id: i as u128 + 2, action: Action::Pass });
    }
    game(table, None, history)
}

fn roles(g: &GameState<DefaultStrategy>) -> Vec<Option<Role>> {
    g.table.iter().map(|p| p.state.role).collect()
}

#[test]
fn round_end_three_players() {
    let mut g = finished_round(3);
    assert_eq!(g.finishing_order(), vec![3, 2, 1]);
    let deck = Card::all_cards();
    g.start_new_game_with_deck(&deck);
    assert_eq!(roles(&g), vec![Some(Role::President), None, Some(Role::Asshole)]);
    assert_eq!(g.top_card, None);
    assert!(g.history.is_empty());
    assert_eq!(g.table[0].state.current_hand, deck[0..17].to_vec());
    assert_eq!(g.table[2].state.current_hand, deck[34..51].to_vec());
}

#[test]
fn round_end_three_players_positional() {
    let mut g = finished_round(3);
    g.role_scheme = RoleScheme::Positional;
    g.start_new_game_with_deck(&Card::all_cards());
    assert_eq!(roles(&g), vec![Some(Role::President), Some(Role::VicePresident), Some(Role::Asshole)]);
}

#[test]
fn round_end_two_players() {
    let mut g = finished_round(2);
    g.start_new_game_with_deck(&Card::all_cards());
    assert_eq!(roles(&g), vec![Some(Role::President), Some(Role::Asshole)]);
    assert_eq!(g.table[1].state.current_hand.len(), 26);
    let mut g2 = finished_round(2);
    g2.role_scheme = RoleScheme::Positional;
    g2.start_new_game_with_deck(&Card::all_cards());
    assert_eq!(roles(&g2), vec![Some(Role::President), Some(Role::VicePresident)]);
}

#[test]
fn round_end_four_players() {
    let mut g = finished_round(4);
    g.start_new_game_with_deck(&Card::all_cards());
    assert_eq!(
        roles(&g),
        vec![Some(Role::President), Some(Role::VicePresident), Some(Role::ViceAsshole), Some(Role::Asshole)]
    );
    let mut g2 = finished_round(4);
    g2.role_scheme = RoleScheme::Positional;
    g2.start_new_game_with_deck(&Card::all_cards());
    assert_eq!(roles(&g2), roles(&g));
}

#[test]
fn round_end_six_players() {
    let mut g = finished_round(6);
    g.start_new_game_with_deck(&Card::all_cards());
    assert_eq!(
        roles(&g),
        vec![
            Some(Role::President),
            Some(Role::VicePresident),
            None,
            None,
            Some(Role::ViceAsshole),
            Some(Role::Asshole)
        ]
    );
    assert_eq!(g.table[5].state.current_hand.len(), 8);
}

#[test]
fn role_for_place_edges() {
    assert_eq!(role_for_place(RoleScheme::Positional, 0, 1), Some(Role::President));
    assert_eq!(role_for_place(RoleScheme::Positional, 0, 2), Some(Role::VicePresident));
    assert_eq!(role_for_place(RoleScheme::ExtremesFirst, 0, 2), Some(Role::Asshole));
    assert_eq!(role_for_place(RoleScheme::ExtremesFirst, 1, 3), None);
    assert_eq!(role_for_place(RoleScheme::Positional, 1, 3), Some(Role::VicePresident));
}

#[test]
fn new_game_deals_whole_hands() {
    let inputs = vec![
        (10u128, "Alice".to_string(), DefaultStrategy::default()),
        (20u128, "Bob".to_string(), DefaultStrategy::default()),
        (30u128, "Charlie".to_string(), DefaultStrategy::default()),
    ];
    let g = GameState::new(inputs);
    assert_eq!(g.table.len(), 3);
    let mut ids: Vec<u128> = g.table.iter().map(|p| p.state.id).collect();
    ids.sort();
    assert_eq!(ids, vec![10, 20, 30]);
    assert!(g.table.iter().all(|p| p.state.current_hand.len() == 17));
    assert!(g.has_distinct_ids());
    assert!(g.still_playing());
    assert!(g.history.is_empty());
    assert_eq!(g.role_scheme, RoleScheme::ExtremesFirst);
}

#[test]
fn new_game_with_deck_deals_in_order() {
    let deck = Card::all_cards();
    let g = GameState::new_with_deck(
        vec![(1u128, "A".to_string(), DefaultStrategy::default()), (2u128, "B".to_string(), DefaultStrategy::default())],
        &deck,
    );
    assert_eq!(g.table[0].state.current_hand, deck[0..26].to_vec());
    assert_eq!(g.table[1].state.current_hand, deck[26..52].to_vec());
    assert_eq!(g.table[1].state.name, "B");
}

#[test]
fn pregame_exchange_between_roles() {
    let mut a = seat(1, "Prez", vec![c(Rank::Three, Suit::Hearts), c(Rank::Ace, Suit::Spades), c(Rank::Nine, Suit::Spades)]);
    a.state.role = Some(Role::President);
    let mut b = seat(2, "Low", vec![c(Rank::Two, Suit::Hearts), c(Rank::King, Suit::Spades), c(Rank::Three, Suit::Clubs)]);
    b.state.role = Some(Role::Asshole);
    let mut g = game(vec![a, b], None, vec![]);
    let events = g.run_pregame();
    assert_eq!(events.len(), 4);
    assert_eq!(events[0], Event { player_id: 2, action: Action::SendCard { to: 1, card: c(Rank::Two, Suit::Hearts) } });
    assert_eq!(events[1], Event { player_id: 2, action: Action::SendCard { to: 1, card: c(Rank::King, Suit::Spades) } });
    assert_eq!(events[2], Event { player_id: 1, action: Action::SendCard { to: 2, card: c(Rank::Three, Suit::Hearts) } });
    assert_eq!(events[3], Event { player_id: 1, action: Action::SendCard { to: 2, card: c(Rank::Nine, Suit::Spades) } });
    // the holder of the three of clubs opens
    assert_eq!(g.current_player().state.id, 2);
    let low = g.get_player(2).unwrap();
    assert_eq!(low.state.current_hand.len(), 3);
    assert!(low.state.current_hand.contains(&c(Rank::Three, Suit::Hearts)));
    let prez = g.get_role(Role::President).unwrap();
    assert!(prez.state.current_hand.contains(&c(Rank::Two, Suit::Hearts)));
    assert_eq!(prez.state.current_hand.len(), 3);
}

#[test]
fn pregame_without_roles_only_seats_the_opener() {
    let mut g = game(
        vec![seat(1, "A", vec![c(Rank::Nine, Suit::Hearts)]), seat(2, "B", vec![c(Rank::Three, Suit::Spades)])],
        None,
        vec![],
    );
    let events = g.run_pregame();
    assert!(events.is_empty());
    assert_eq!(g.current_player().state.id, 2);
    assert!(g.get_role(Role::President).is_none());
}

#[test]
fn public_info_hides_hands() {
    let g = game(
        vec![seat(1, "A", vec![c(Rank::Nine, Suit::Hearts)]), seat(2, "B", vec![])],
        None,
        opened(),
    );
    let info = g.public_info();
    assert_eq!(info.public_table.len(), 2);
    assert_eq!(info.public_table[0].hand_size, 1);
    assert_eq!(info.public_table[1].name, "B");
    assert_eq!(info.history, g.history);
}

#[test]
fn default_strategy_plays_smallest_weakest() {
    let acts = vec![
        Action::Pass,
        play(CardPlay::Pair(c(Rank::Four, Suit::Spades), c(Rank::Four, Suit::Hearts))),
        play(CardPlay::Single(c(Rank::King, Suit::Spades))),
        play(CardPlay::Single(c(Rank::Six, Suit::Spades))),
    ];
    assert_eq!(DefaultStrategy::pick_action(&acts), acts[3]);
    assert_eq!(DefaultStrategy::pick_action(&[Action::Pass]), Action::Pass);
}

#[test]
fn default_strategy_keeps_three_of_clubs() {
    let acts = vec![
        Action::SendCard { to: 1, card: c(Rank::Three, Suit::Clubs) },
        Action::SendCard { to: 1, card: c(Rank::Ten, Suit::Clubs) },
        Action::SendCard { to: 1, card: c(Rank::Five, Suit::Hearts) },
    ];
    assert_eq!(DefaultStrategy::pick_action(&acts), acts[2]);
}

#[test]
fn random_strategy_picks_an_offered_move() {
    let acts = vec![Action::Pass, play(CardPlay::Single(c(Rank::Six, Suit::Spades)))];
    let g = game(vec![seat(1, "A", vec![])], None, vec![]);
    let info = g.public_info();
    let mut s = RandomStrategy::default();
    for _ in 0..20 {
        let a = s.select_action(&g.table[0].state, &info, &acts);
        assert!(acts.contains(&a));
    }
}

#[test]
fn database_config_sources() {
    let cfg = DatabaseConfig::from_cli_or_env_or_yaml(None, Some("env.db".to_string()), Some("yaml.db".to_string()));
    assert_eq!(cfg.url, "env.db");
    assert_eq!(cfg.pool_size, 20);
    assert_eq!(cfg.writer_type, DatabaseWriterType::Bulk);
    let cfg = DatabaseConfig::from_cli_or_env_or_yaml(Some("cli.db".to_string()), Some("env.db".to_string()), None);
    assert_eq!(cfg.url, "cli.db");
    let cfg = DatabaseConfig::from_cli_or_env_or_yaml(None, None, None);
    assert_eq!(cfg.url, "sqlite::memory:");
    assert_eq!(DatabaseWriterType::Streaming.name(), "streaming");
}

#[test]
fn game_handle_round_trip() {
    let h1 = GameHandle::new(1);
    let h2 = GameHandle::new(2);
    assert_eq!(h1.as_i64(), 1);
    assert_eq!(h2.as_i64(), 2);
    assert_ne!(h1, h2);
    assert_eq!(h1, GameHandle::new(1));
}

#[derive(Debug)]
struct Tagged(u128);

impl Strategy for Tagged {
    fn select_action(
        &mut self,
        _private_info: &PlayerState,
        _public_info: &president::game_state::PublicInfo,
        available_actions: &[Action],
    ) -> Action {
        available_actions[0]
    }
}

#[test]
fn players_keep_their_strategies() {
    let inputs = vec![
        (10u128, "A".to_string(), Tagged(10)),
        (20u128, "B".to_string(), Tagged(20)),
        (30u128, "C".to_string(), Tagged(30)),
    ];
    let mut g = GameState::new(inputs);
    assert!(g.table.iter().all(|p| p.state.id == p.strategy.0));
    g.run_pregame();
    assert!(g.table.iter().all(|p| p.state.id == p.strategy.0));
    g.start_new_game();
    assert!(g.table.iter().all(|p| p.state.id == p.strategy.0));
}
