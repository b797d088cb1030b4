use black_jack::runner::{
    dealer_should_hit, next_turn, parse_count, turn_step, parse_deck_count, parse_player_count, read_command,
};
use black_jack::{
    ask_set_player_attributes, dealer_turn, end_game, game, set_dealer, win_or_lose,
    BlackJackRunner, Card, Command, CountError, Deck, Outcome, Player, Rank, Suit, TurnState,
    Verdict,
};

fn hearts(ranks: &[Rank]) -> Vec<Card> {
    ranks.iter().map(|r| Card { suit: Suit::Hearts, rank: *r }).collect()
}

/// A deck whose top cards, from the top down, are `ranks`.
fn stacked(ranks: &[Rank]) -> Deck {
    Deck { cards: hearts(ranks).into_iter().rev().collect() }
}

fn holding(name: &str, ranks: &[Rank]) -> Player {
    let mut deck = stacked(ranks);
    let mut p = Player::new(String::from(name));
    for _ in ranks {
        p.hit(&mut deck);
    }
    p
}

fn v(player: usize, outcome: Outcome) -> Verdict {
    Verdict { player, outcome }
}

#[test]
fn deck_count_must_be_six_to_eight() {
    assert_eq!(parse_deck_count("6"), Ok(6));
    assert_eq!(parse_deck_count(" 7 \n"), Ok(7));
    assert_eq!(parse_deck_count("+8"), Ok(8));
    assert_eq!(parse_deck_count("5"), Err(CountError::OutOfRange));
    assert_eq!(parse_deck_count("9"), Err(CountError::OutOfRange));
    assert_eq!(parse_deck_count("six"), Err(CountError::NotInteger));
    assert_eq!(parse_deck_count("-6"), Err(CountError::NotInteger));
    assert_eq!(parse_deck_count(""), Err(CountError::NotInteger));
    assert_eq!(parse_deck_count("6 6"), Err(CountError::NotInteger));
}

#[test]
fn player_count_must_be_one_to_seven() {
    assert_eq!(parse_player_count("1\n"), Ok(1));
    assert_eq!(parse_player_count("7"), Ok(7));
    assert_eq!(parse_player_count("0"), Err(CountError::OutOfRange));
    assert_eq!(parse_player_count("8"), Err(CountError::OutOfRange));
    assert_eq!(parse_player_count("99999999999999999999999"), Err(CountError::NotInteger));
    assert_eq!(parse_count("12", 10, 20), Ok(12));
}

#[test]
fn commands_are_read_in_any_case() {
    assert_eq!(read_command("h"), Command::Hit);
    assert_eq!(read_command("HIT\n"), Command::Hit);
    assert_eq!(read_command("  Hit  "), Command::Hit);
    assert_eq!(read_command("s"), Command::Stand);
    assert_eq!(read_command("Stand\r\n"), Command::Stand);
    assert_eq!(read_command("stay"), Command::Invalid);
    assert_eq!(read_command(""), Command::Invalid);
}

#[test]
fn win_or_lose_reports_the_turn() {
    assert_eq!(win_or_lose(&holding("a", &[Rank::Ace, Rank::Queen])), TurnState::BlackJack);
    assert_eq!(
        win_or_lose(&holding("a", &[Rank::Seven, Rank::Seven, Rank::Seven])),
        TurnState::TwentyOne
    );
    assert_eq!(
        win_or_lose(&holding("a", &[Rank::King, Rank::Queen, Rank::Two])),
        TurnState::Bust
    );
    assert_eq!(win_or_lose(&holding("a", &[Rank::King, Rank::Six])), TurnState::Playing);
}

#[test]
fn dealer_draws_to_seventeen() {
    let mut dealer = holding("Dealer", &[Rank::Two, Rank::Three]);
    let mut deck = stacked(&[Rank::Four, Rank::Five, Rank::Ace, Rank::King]);
    assert!(dealer_should_hit(&dealer));
    dealer_turn(&mut dealer, &mut deck);
    // 5, then 9, then 14, then the ace makes 25 and drops to 15, then the king: 25.
    assert_eq!(dealer.get_hand().len(), 6);
    assert_eq!(dealer.get_score(), 25);
    assert!(dealer.bust());
    assert!(!dealer_should_hit(&dealer));
    assert_eq!(deck.cards.len(), 0);
}

#[test]
fn dealer_stands_on_seventeen() {
    let mut dealer = holding("Dealer", &[Rank::King, Rank::Seven]);
    let mut deck = stacked(&[Rank::Four; 15]);
    dealer_turn(&mut dealer, &mut deck);
    assert_eq!(dealer.get_hand().len(), 2);
    assert_eq!(deck.cards.len(), 15);
}

#[test]
fn end_game_when_dealer_busts() {
    let dealer = holding("Dealer", &[Rank::King, Rank::Six, Rank::Nine]);
    let players = vec![
        holding("a", &[Rank::King, Rank::Eight]),
        holding("b", &[Rank::King, Rank::Eight, Rank::Nine]),
    ];
    assert_eq!(
        end_game(&players, &dealer, false),
        vec![v(0, Outcome::Won), v(0, Outcome::Lost), v(1, Outcome::Lost)]
    );
}

#[test]
fn end_game_when_dealer_has_blackjack() {
    let dealer = holding("Dealer", &[Rank::Ace, Rank::King]);
    let players = vec![
        holding("a", &[Rank::Ace, Rank::Jack]),
        holding("b", &[Rank::Seven, Rank::Seven, Rank::Seven]),
    ];
    assert_eq!(
        end_game(&players, &dealer, true),
        vec![v(0, Outcome::Tied), v(0, Outcome::Lost), v(1, Outcome::Lost)]
    );
}

#[test]
fn end_game_after_a_player_blackjack() {
    let dealer = holding("Dealer", &[Rank::King, Rank::Nine]);
    let players = vec![
        holding("a", &[Rank::Ace, Rank::Jack]),
        holding("b", &[Rank::King, Rank::Queen]),
    ];
    assert_eq!(
        end_game(&players, &dealer, true),
        vec![v(0, Outcome::Won), v(1, Outcome::Lost)]
    );
}

#[test]
fn end_game_by_points() {
    let dealer = holding("Dealer", &[Rank::King, Rank::Eight]);
    let players = vec![
        holding("a", &[Rank::King, Rank::Nine]),
        holding("b", &[Rank::King, Rank::Seven]),
        holding("c", &[Rank::Ten, Rank::Eight]),
        holding("d", &[Rank::King, Rank::Nine, Rank::Five]),
    ];
    assert_eq!(
        end_game(&players, &dealer, false),
        vec![
            v(0, Outcome::Won),
            v(1, Outcome::Lost),
            v(2, Outcome::Tied),
            v(3, Outcome::Lost)
        ]
    );
    assert_eq!(end_game(&vec![], &dealer, false), vec![]);
}

#[test]
fn seating_deals_two_cards_each_in_order() {
    let mut players: Vec<Player> = Vec::new();
    let mut deck = Deck::new(1);
    let names = vec![String::from("  Ann \n"), String::from("Bob")];
    ask_set_player_attributes(&names, &mut players, &mut deck);
    assert_eq!(players.len(), 2);
    assert_eq!(players[0].get_name(), "Ann");
    assert_eq!(players[1].get_name(), "Bob");
    assert_eq!(
        players[0].get_hand(),
        &vec![
            Card { suit: Suit::Spades, rank: Rank::King },
            Card { suit: Suit::Spades, rank: Rank::Queen }
        ]
    );
    assert_eq!(
        players[1].get_hand(),
        &vec![
            Card { suit: Suit::Spades, rank: Rank::Jack },
            Card { suit: Suit::Spades, rank: Rank::Ten }
        ]
    );
    assert_eq!(deck.cards.len(), 48);
    let mut dealer = Player::new(String::from("Dealer"));
    set_dealer(&mut dealer, &mut deck);
    assert_eq!(dealer.get_hand()[0], Card { suit: Suit::Spades, rank: Rank::Nine });
    assert_eq!(deck.cards.len(), 46);
}

#[test]
fn seating_deals_to_seats_by_position() {
    let mut players = vec![Player::new(String::from("Old"))];
    let mut deck = Deck::new(1);
    ask_set_player_attributes(&vec![String::from("New")], &mut players, &mut deck);
    assert_eq!(players.len(), 2);
    assert_eq!(players[0].get_name(), "Old");
    assert_eq!(players[0].get_hand().len(), 2);
    assert_eq!(players[1].get_name(), "New");
    assert!(players[1].get_hand().is_empty());
}

#[test]
fn a_new_game_has_only_the_dealer() {
    let runner = game();
    assert!(runner.players.is_empty());
    assert!(runner.deck.cards.is_empty());
    assert_eq!(runner.dealer.get_name(), "Dealer");
    let other = BlackJackRunner::default();
    assert_eq!(other.dealer.get_name(), "");
}

#[test]
fn a_table_is_set_with_shuffled_decks() {
    let mut runner = BlackJackRunner::new();
    runner.prepare_deck(6);
    assert_eq!(runner.deck.cards.len(), 312);
    runner.seat_players(&vec![String::from("Ann"), String::from("Bob"), String::from("Cid")]);
    assert_eq!(runner.players.len(), 3);
    assert_eq!(runner.deck.cards.len(), 312 - 8);
    assert_eq!(runner.dealer.get_hand().len(), 2);
    for p in runner.players.iter() {
        assert_eq!(p.get_hand().len(), 2);
    }
}

#[test]
fn a_hit_takes_the_top_card_and_may_end_the_turn() {
    let mut p = holding("a", &[Rank::Ten, Rank::Six]);
    let mut deck = stacked(&[Rank::Three, Rank::Two, Rank::King]);
    assert!(!turn_step(&mut p, &mut deck, Command::Hit));
    assert_eq!(p.get_score(), 19);
    assert_eq!(deck.cards.len(), 2);
    assert!(turn_step(&mut p, &mut deck, Command::Hit));
    assert_eq!(p.get_score(), 21);
    assert_eq!(win_or_lose(&p), TurnState::TwentyOne);
    assert_eq!(p.get_name(), "a");
}

#[test]
fn stand_ends_the_turn_and_invalid_does_not() {
    let mut p = holding("a", &[Rank::Ten, Rank::Six]);
    let mut deck = stacked(&[Rank::King]);
    assert!(!turn_step(&mut p, &mut deck, Command::Invalid));
    assert!(turn_step(&mut p, &mut deck, Command::Stand));
    assert_eq!(p.get_hand().len(), 2);
    assert_eq!(deck.cards.len(), 1);
    let mut q = holding("b", &[Rank::Ten, Rank::Six]);
    assert!(turn_step(&mut q, &mut deck, Command::Hit));
    assert!(q.bust());
}

#[test]
fn turns_go_in_seat_order_until_a_blackjack() {
    let players = vec![
        holding("a", &[Rank::King, Rank::Six]),
        holding("b", &[Rank::Ace, Rank::King]),
        holding("c", &[Rank::Two, Rank::Six]),
    ];
    assert_eq!(next_turn(&players, 0), Some(1));
    assert_eq!(next_turn(&players, 1), None);
    assert_eq!(next_turn(&players, 2), None);
}

#[test]
fn the_score_ignores_the_order_of_the_cards() {
    let orders: [&[Rank]; 3] = [
        &[Rank::Ace, Rank::Nine, Rank::Ace, Rank::Five],
        &[Rank::Five, Rank::Ace, Rank::Ace, Rank::Nine],
        &[Rank::Nine, Rank::Five, Rank::Ace, Rank::Ace],
    ];
    for o in orders {
        assert_eq!(holding("a", o).get_score(), 16);
    }
}

#[test]
fn a_round_keeps_every_card() {
    let mut runner = BlackJackRunner::new();
    runner.prepare_deck(6);
    runner.seat_players(&vec![String::from("Ann"), String::from("Bob"), String::from("Cid")]);
    let mut turn = Some(0);
    while let Some(i) = turn {
        while win_or_lose(&runner.players[i]) == TurnState::Playing {
            if turn_step(&mut runner.players[i], &mut runner.deck, Command::Hit) {
                break;
            }
        }
        turn = next_turn(&runner.players, i);
    }
    dealer_turn(&mut runner.dealer, &mut runner.deck);
    assert!(runner.dealer.get_score() >= 17);
    let mut all: Vec<Card> = runner.deck.cards.clone();
    for p in runner.players.iter() {
        all.extend(p.get_hand().iter().cloned());
    }
    all.extend(runner.dealer.get_hand().iter().cloned());
    assert_eq!(all.len(), 312);
    for c in Deck::new(1).cards.iter() {
        assert_eq!(all.iter().filter(|d| *d == c).count(), 6);
    }
}
