use vstd::prelude::*;

use rand::seq::SliceRandom;

use crate::card::{rank_at, suit_at, Card, Rank, Suit};

verus! {

/// The card at position `i` (0 to 51) of one fresh 52-card deck: the
/// hearts from ace to king, then the diamonds, the clubs and the spades.
pub open spec fn standard_card(i: int) -> Card {
    Card { suit: suit_at(i / 13), rank: rank_at(i % 13) }
}

/// One fresh 52-card deck, in order.
pub open spec fn standard_deck() -> Seq<Card> {
    Seq::new(52, |i: int| standard_card(i))
}

/// `n` fresh decks laid one after the other.
pub open spec fn fresh_decks(n: nat) -> Seq<Card> {
    Seq::new(52 * n, |i: int| standard_card(i % 52))
}

/// Shuffles the cards in place with the thread's random generator.
///
/// Trusted: `rand::seq::SliceRandom::shuffle` on a slice, fed by
/// `rand::thread_rng()`. Its source only swaps elements of the slice (a
/// Fisher-Yates shuffle), so the claim is that the result is a permutation of
/// the input: same length, same multiset of cards. Which permutation comes
/// out depends on the random generator and is left unsaid.
#[verifier::external_body]
fn shuffle_cards(cards: &mut Vec<Card>)
    ensures
        final(cards)@.len() == old(cards)@.len(),
        final(cards)@.to_multiset() == old(cards)@.to_multiset(),
{
    cards.shuffle(&mut rand::thread_rng());
}

/// A pile of cards to deal from; the last card of `cards` is the top.
#[derive(Clone, Debug)]
pub struct Deck {
    pub cards: Vec<Card>,
}

impl Default for Deck {
    /// An empty deck.
    fn default() -> (deck: Deck)
        ensures
            deck.cards@ == Seq::<Card>::empty(),
    {
        Deck { cards: Vec::new() }
    }
}

impl View for Deck {
    type V = Seq<Card>;

    open spec fn view(&self) -> Seq<Card> {
        self.cards@
    }
}

impl Deck {
    /// `deck_n` fresh decks stacked into one pile, unshuffled.
    pub fn new(deck_n: usize) -> (deck: Deck)
        requires
            deck_n * 52 <= usize::MAX,
        ensures
            deck@ == fresh_decks(deck_n as nat),
    {
        let mut cards: Vec<Card> = Vec::new();
        let mut d: usize = 0;
        while d < deck_n
            invariant
                d <= deck_n,
                deck_n * 52 <= usize::MAX,
                cards@ =~= fresh_decks(d as nat),
            decreases deck_n - d,
        {
            let mut one = Deck::make_deck();
            let ghost before = cards@;
            cards.append(&mut one);
            assert forall|i: int| 0 <= i < 52 * (d + 1) implies #[trigger] cards@[i]
                == standard_card(i % 52) by {
                if i >= 52 * d {
                    assert((i - 52 * d) % 52 == i % 52) by (nonlinear_arith)
                        requires
                            52 * d <= i,
                            i < 52 * d + 52,
                    ;
                    assert(0 <= i - 52 * d < 52) by (nonlinear_arith)
                        requires
                            52 * d <= i,
                            i < 52 * d + 52,
                    ;
                }
            }
            assert(cards@.len() == 52 * (d + 1)) by (nonlinear_arith)
                requires
                    cards@.len() == before.len() + 52,
                    before.len() == 52 * d,
            ;
            d = d + 1;
        }
        Deck { cards }
    }

    /// Shuffles the deck: afterwards it holds the same cards in some order.
    pub fn shuffle(&mut self)
        ensures
            final(self)@.len() == old(self)@.len(),
            final(self)@.to_multiset() == old(self)@.to_multiset(),
    {
        shuffle_cards(&mut self.cards);
    }

    /// One fresh 52-card deck, in order.
    fn make_deck() -> (cards: Vec<Card>)
        ensures
            cards@ == standard_deck(),
    {
        let suits = vec![Suit::Hearts, Suit::Diamonds, Suit::Clubs, Suit::Spades];
        let numbers = vec![
            Rank::Ace,
            Rank::Two,
            Rank::Three,
            Rank::Four,
            Rank::Five,
            Rank::Six,
            Rank::Seven,
            Rank::Eight,
            Rank::Nine,
            Rank::Ten,
            Rank::Jack,
            Rank::Queen,
            Rank::King,
        ];
        assert forall|k: int| 0 <= k < 4 implies #[trigger] suits@[k] == suit_at(k) by {}
        assert forall|k: int| 0 <= k < 13 implies #[trigger] numbers@[k] == rank_at(k) by {}
        let mut cards: Vec<Card> = Vec::new();
        let mut s: usize = 0;
        while s < 4
            invariant
                s <= 4,
                suits@.len() == 4,
                numbers@.len() == 13,
                forall|k: int| 0 <= k < 4 ==> #[trigger] suits@[k] == suit_at(k),
                forall|k: int| 0 <= k < 13 ==> #[trigger] numbers@[k] == rank_at(k),
                cards@ =~= Seq::new((13 * s) as nat, |i: int| standard_card(i)),
            decreases 4 - s,
        {
            let mut r: usize = 0;
            while r < 13
                invariant
                    s < 4,
                    r <= 13,
                    suits@.len() == 4,
                    numbers@.len() == 13,
                    forall|k: int| 0 <= k < 4 ==> #[trigger] suits@[k] == suit_at(k),
                    forall|k: int| 0 <= k < 13 ==> #[trigger] numbers@[k] == rank_at(k),
                    cards@ =~= Seq::new((13 * s + r) as nat, |i: int| standard_card(i)),
                decreases 13 - r,
            {
                let card = Card { suit: suits[s], rank: numbers[r] };
                assert((13 * s + r) / 13 == s && (13 * s + r) % 13 == r) by (nonlinear_arith)
                    requires
                        r < 13,
                ;
                cards.push(card);
                r = r + 1;
            }
            s = s + 1;
        }
        cards
    }

    /// Takes the top card off the deck.
    pub fn deal_card(&mut self) -> (card: Card)
        requires
            old(self)@.len() > 0,
        ensures
            card == old(self)@.last(),
            final(self)@ == old(self)@.drop_last(),
    {
        self.cards.pop().unwrap()
    }

    /// Deals the two cards of an opening hand: the top card, then the one
    /// under it.
    pub fn get_initial_cards(&mut self) -> (cards: Vec<Card>)
        requires
            old(self)@.len() >= 2,
        ensures
            cards@ == seq![old(self)@[old(self)@.len() - 1], old(self)@[old(self)@.len() - 2]],
            final(self)@ == old(self)@.subrange(0, old(self)@.len() - 2),
    {
        let first = self.deal_card();
        let second = self.deal_card();
        let mut cards: Vec<Card> = Vec::new();
        cards.push(first);
        cards.push(second);
        cards
    }
}

/// Where a suit sits in a fresh deck (0 to 3).
pub open spec fn suit_index(s: Suit) -> int {
    match s {
        Suit::Hearts => 0,
        Suit::Diamonds => 1,
        Suit::Clubs => 2,
        Suit::Spades => 3,
    }
}

/// Where a rank sits within its suit in a fresh deck (0 to 12).
pub open spec fn rank_index(r: Rank) -> int {
    match r {
        Rank::Ace => 0,
        Rank::Two => 1,
        Rank::Three => 2,
        Rank::Four => 3,
        Rank::Five => 4,
        Rank::Six => 5,
        Rank::Seven => 6,
        Rank::Eight => 7,
        Rank::Nine => 8,
        Rank::Ten => 9,
        Rank::Jack => 10,
        Rank::Queen => 11,
        Rank::King => 12,
    }
}

/// A fresh deck holds no card twice.
proof fn lemma_standard_deck_distinct()
    ensures
        standard_deck().no_duplicates(),
{
    let d = standard_deck();
    assert forall|i: int, j: int| 0 <= i < d.len() && 0 <= j < d.len() && i != j implies d[i]
        != d[j] by {
        assert(i == 13 * (i / 13) + i % 13) by (nonlinear_arith);
        assert(j == 13 * (j / 13) + j % 13) by (nonlinear_arith);
        assert(0 <= i / 13 < 4 && 0 <= j / 13 < 4) by (nonlinear_arith)
            requires
                0 <= i < 52,
                0 <= j < 52,
        ;
        assert(0 <= i % 13 < 13 && 0 <= j % 13 < 13) by (nonlinear_arith)
            requires
                0 <= i,
                0 <= j,
        ;
    }
}

/// A fresh deck holds every card.
proof fn lemma_standard_deck_complete(c: Card)
    ensures
        standard_deck().contains(c),
{
    let k = 13 * suit_index(c.suit) + rank_index(c.rank);
    assert(k / 13 == suit_index(c.suit) && k % 13 == rank_index(c.rank)) by (nonlinear_arith)
        requires
            k == 13 * suit_index(c.suit) + rank_index(c.rank),
            0 <= rank_index(c.rank) < 13,
    ;
    assert(standard_deck()[k] == c);
}

/// `n + 1` fresh decks are `n` fresh decks and one more.
proof fn lemma_fresh_decks_step(n: nat)
    ensures
        fresh_decks(n + 1) =~= fresh_decks(n) + standard_deck(),
{
    assert forall|i: int| 52 * n <= i < 52 * (n + 1) implies #[trigger] (i % 52) == i - 52 * n by {
        assert(i % 52 == i - 52 * n) by (nonlinear_arith)
            requires
                52 * n <= i < 52 * n + 52,
        ;
    }
    assert(52 * (n + 1) == 52 * n + 52) by (nonlinear_arith);
}

/// Law: `n` fresh decks hold each of the 52 cards exactly `n` times; since
/// shuffling keeps the cards, so does a shuffled pile of `n` decks.
pub proof fn law_fresh_decks_count(n: nat, c: Card)
    ensures
        fresh_decks(n).to_multiset().count(c) == n,
        fresh_decks(n).len() == 52 * n,
    decreases n,
{
    broadcast use vstd::seq_lib::group_to_multiset_ensures;

    if n == 0 {
        assert(fresh_decks(0) =~= Seq::<Card>::empty());
        assert(fresh_decks(0).to_multiset().len() == 0);
    } else {
        law_fresh_decks_count((n - 1) as nat, c);
        lemma_fresh_decks_step((n - 1) as nat);
        vstd::seq_lib::lemma_multiset_commutative(fresh_decks((n - 1) as nat), standard_deck());
        lemma_standard_deck_distinct();
        lemma_standard_deck_complete(c);
        standard_deck().lemma_multiset_has_no_duplicates();
        assert(standard_deck().to_multiset().count(c) == 1);
    }
}

} // verus!
