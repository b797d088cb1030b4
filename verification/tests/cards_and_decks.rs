use black_jack::{Card, Deck, Rank, Suit};

fn card(rank: Rank, suit: Suit) -> Card {
    Card { suit, rank }
}

#[test]
fn card_scores_follow_the_rules() {
    assert_eq!(card(Rank::Ace, Suit::Hearts).score(), 11);
    assert_eq!(card(Rank::Two, Suit::Clubs).score(), 2);
    assert_eq!(card(Rank::Nine, Suit::Clubs).score(), 9);
    assert_eq!(card(Rank::Ten, Suit::Spades).score(), 10);
    assert_eq!(card(Rank::Jack, Suit::Spades).score(), 10);
    assert_eq!(card(Rank::Queen, Suit::Diamonds).score(), 10);
    assert_eq!(card(Rank::King, Suit::Diamonds).score(), 10);
}

#[test]
fn card_text_shows_rank_and_suit() {
    assert_eq!(card(Rank::Ace, Suit::Hearts).to_text(), "A of Hearts");
    assert_eq!(card(Rank::Ten, Suit::Spades).to_text(), "10 of Spades");
    assert_eq!(card(Rank::Queen, Suit::Clubs).value(), "Q");
    assert_eq!(card(Rank::Seven, Suit::Diamonds).suit_name(), "Diamonds");
    assert!(card(Rank::Ace, Suit::Clubs).is_ace());
    assert!(!card(Rank::King, Suit::Clubs).is_ace());
}

#[test]
fn one_fresh_deck_is_in_order() {
    let deck = Deck::new(1);
    assert_eq!(deck.cards.len(), 52);
    assert_eq!(deck.cards[0], card(Rank::Ace, Suit::Hearts));
    assert_eq!(deck.cards[12], card(Rank::King, Suit::Hearts));
    assert_eq!(deck.cards[13], card(Rank::Ace, Suit::Diamonds));
    assert_eq!(deck.cards[26], card(Rank::Ace, Suit::Clubs));
    assert_eq!(deck.cards[51], card(Rank::King, Suit::Spades));
}

#[test]
fn six_decks_hold_each_card_six_times() {
    let deck = Deck::new(6);
    assert_eq!(deck.cards.len(), 312);
    for c in Deck::new(1).cards.iter() {
        assert_eq!(deck.cards.iter().filter(|d| *d == c).count(), 6);
    }
}

#[test]
fn zero_decks_are_empty() {
    assert_eq!(Deck::new(0).cards.len(), 0);
    assert_eq!(Deck::default().cards.len(), 0);
}

#[test]
fn shuffle_keeps_the_cards_and_moves_them() {
    let fresh = Deck::new(6);
    let mut deck = fresh.clone();
    deck.shuffle();
    assert_eq!(deck.cards.len(), 312);
    assert_ne!(deck.cards, fresh.cards);
    for c in Deck::new(1).cards.iter() {
        assert_eq!(deck.cards.iter().filter(|d| *d == c).count(), 6);
    }
}

#[test]
fn deal_card_takes_the_top_card() {
    let mut deck = Deck::new(1);
    let top = deck.deal_card();
    assert_eq!(top, card(Rank::King, Suit::Spades));
    assert_eq!(deck.cards.len(), 51);
    assert_eq!(deck.deal_card(), card(Rank::Queen, Suit::Spades));
}

#[test]
fn initial_cards_are_the_top_two() {
    let mut deck = Deck::new(1);
    let cards = deck.get_initial_cards();
    assert_eq!(
        cards,
        vec![card(Rank::King, Suit::Spades), card(Rank::Queen, Suit::Spades)]
    );
    assert_eq!(deck.cards.len(), 50);
    assert_eq!(deck.cards[49], card(Rank::Jack, Suit::Spades));
}
