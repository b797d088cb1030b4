use black_jack::{Card, Dealer, Deck, Person, Player, Rank, Suit};

fn hearts(ranks: &[Rank]) -> Vec<Card> {
    ranks.iter().map(|r| Card { suit: Suit::Hearts, rank: *r }).collect()
}

/// A player holding exactly these cards, dealt from a deck stacked for it.
fn holding(ranks: &[Rank]) -> Player {
    let mut deck = Deck { cards: hearts(ranks).into_iter().rev().collect() };
    let mut p = Player::new(String::from("Ann"));
    for _ in ranks {
        p.hit(&mut deck);
    }
    assert_eq!(p.get_hand(), &hearts(ranks));
    p
}

#[test]
fn new_player_has_a_name_and_no_cards() {
    let p = Player::new(String::from("Ann"));
    assert_eq!(p.get_name(), "Ann");
    assert!(p.get_hand().is_empty());
    assert_eq!(p.get_score(), 0);
    let d = Player::default();
    assert_eq!(d.get_name(), "");
}

#[test]
fn ace_and_king_is_blackjack() {
    let p = holding(&[Rank::Ace, Rank::King]);
    assert_eq!(p.get_score(), 21);
    assert!(p.has_black_jack());
    assert!(!p.bust());
}

#[test]
fn two_aces_score_twelve() {
    let p = holding(&[Rank::Ace, Rank::Ace]);
    assert_eq!(p.get_score(), 12);
    assert!(!p.has_black_jack());
}

#[test]
fn three_card_twenty_one_is_not_blackjack() {
    let p = holding(&[Rank::Ace, Rank::Ace, Rank::Nine]);
    assert_eq!(p.get_score(), 21);
    assert!(!p.has_black_jack());
    let q = holding(&[Rank::Seven, Rank::Seven, Rank::Seven]);
    assert_eq!(q.get_score(), 21);
    assert!(!q.has_black_jack());
}

#[test]
fn aces_drop_to_one_only_as_needed() {
    assert_eq!(holding(&[Rank::Ace, Rank::Five, Rank::Ten]).get_score(), 16);
    assert_eq!(holding(&[Rank::Ace, Rank::Five]).get_score(), 16);
    assert_eq!(holding(&[Rank::Ace, Rank::Ace, Rank::Ace, Rank::Ace]).get_score(), 14);
    assert_eq!(
        holding(&[Rank::Ace, Rank::Ace, Rank::Ten, Rank::King, Rank::Two]).get_score(),
        24
    );
}

#[test]
fn over_twenty_one_is_bust() {
    let p = holding(&[Rank::King, Rank::Queen, Rank::Five]);
    assert_eq!(p.get_score(), 25);
    assert!(p.bust());
    let q = holding(&[Rank::King, Rank::Queen]);
    assert!(!q.bust());
}

#[test]
fn initial_r_replaces_the_hand() {
    let mut p = holding(&[Rank::Two, Rank::Three, Rank::Four]);
    let mut deck = Deck::new(1);
    p.initial_r(&mut deck);
    assert_eq!(
        p.get_hand(),
        &vec![
            Card { suit: Suit::Spades, rank: Rank::King },
            Card { suit: Suit::Spades, rank: Rank::Queen }
        ]
    );
    assert_eq!(p.get_score(), 20);
    assert_eq!(deck.cards.len(), 50);
    assert_eq!(p.get_name(), "Ann");
}

#[test]
fn hit_moves_the_top_card_into_the_hand() {
    let mut p = Player::new(String::from("Bob"));
    let mut deck = Deck::new(1);
    p.hit(&mut deck);
    p.hit(&mut deck);
    p.hit(&mut deck);
    assert_eq!(p.get_hand().len(), 3);
    assert_eq!(p.get_hand()[2], Card { suit: Suit::Spades, rank: Rank::Jack });
    assert_eq!(deck.cards.len() + p.get_hand().len(), 52);
    assert_eq!(p.get_score(), 30);
}

#[test]
fn person_deals_to_players_and_dealers() {
    let c = Card { suit: Suit::Clubs, rank: Rank::Ace };
    let mut d = Dealer::new(String::from("House"));
    Person::deal_card(&mut d, c);
    assert_eq!(Person::get_hand(&d), &vec![c]);
    assert_eq!(Person::get_name(&d), "House");
    let mut p = Player::new(String::from("Cid"));
    Person::deal_card(&mut p, c);
    assert_eq!(p.get_hand(), &vec![c]);
    assert_eq!(Person::get_name(&p), "Cid");
}
