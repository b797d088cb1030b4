use vstd::prelude::*;

use crate::card::{rank_points, Card, Rank};
use crate::deck::Deck;

verus! {

/// The points of a hand before any ace is lowered: aces count 11.
pub open spec fn raw_total(hand: Seq<Card>) -> nat
    decreases hand.len(),
{
    if hand.len() == 0 {
        0
    } else {
        rank_points(hand.first().rank) + raw_total(hand.drop_first())
    }
}

/// The number of aces in a hand.
pub open spec fn ace_count(hand: Seq<Card>) -> nat
    decreases hand.len(),
{
    if hand.len() == 0 {
        0
    } else {
        (if hand.first().rank == Rank::Ace { 1nat } else { 0nat }) + ace_count(hand.drop_first())
    }
}

/// Lowers aces from 11 to 1, one at a time, while the total is over 21 and
/// an unlowered ace is left.
pub open spec fn lowered(total: int, aces: nat) -> int
    decreases aces,
{
    if total > 21 && aces > 0 {
        lowered(total - 10, (aces - 1) as nat)
    } else {
        total
    }
}

/// The score of a hand: its raw total, with as many aces counted as 1 as it
/// takes to get to 21 or below (or all of them, if that is not enough).
pub open spec fn hand_score(hand: Seq<Card>) -> int {
    lowered(raw_total(hand) as int, ace_count(hand))
}

/// Every card counts at most 11 points.
pub proof fn lemma_raw_total_bound(hand: Seq<Card>)
    ensures
        raw_total(hand) <= 11 * hand.len(),
        ace_count(hand) <= hand.len(),
    decreases hand.len(),
{
    if hand.len() > 0 {
        lemma_raw_total_bound(hand.drop_first());
    }
}

/// With every ace counted as 1, each card counts at least 1 point.
proof fn lemma_low_total(hand: Seq<Card>)
    ensures
        raw_total(hand) >= hand.len() + 10 * ace_count(hand),
    decreases hand.len(),
{
    if hand.len() > 0 {
        lemma_low_total(hand.drop_first());
    }
}

/// Lowering takes away at most 10 points per ace.
proof fn lemma_lowered_floor(total: int, aces: nat)
    ensures
        lowered(total, aces) >= total - 10 * aces,
        lowered(total, aces) <= total,
    decreases aces,
{
    if total > 21 && aces > 0 {
        lemma_lowered_floor(total - 10, (aces - 1) as nat);
    }
}

/// A hand scores at least one point per card.
pub proof fn lemma_score_at_least_len(hand: Seq<Card>)
    ensures
        hand_score(hand) >= hand.len(),
        hand_score(hand) <= raw_total(hand),
{
    lemma_low_total(hand);
    lemma_lowered_floor(raw_total(hand) as int, ace_count(hand));
}

/// Splitting a hand after its first `k` cards splits its totals too.
proof fn lemma_suffix_step(hand: Seq<Card>, k: int)
    requires
        0 <= k < hand.len(),
    ensures
        raw_total(hand.subrange(k, hand.len() as int)) == rank_points(hand[k].rank) + raw_total(
            hand.subrange(k + 1, hand.len() as int),
        ),
        ace_count(hand.subrange(k, hand.len() as int)) == (if hand[k].rank == Rank::Ace {
            1nat
        } else {
            0nat
        }) + ace_count(hand.subrange(k + 1, hand.len() as int)),
{
    let s = hand.subrange(k, hand.len() as int);
    assert(s.drop_first() =~= hand.subrange(k + 1, hand.len() as int));
    assert(s.first() == hand[k]);
}

/// A total with `j` of its aces counted as 1 rather than 11.
pub open spec fn with_low_aces(total: int, j: int) -> int {
    total - 10 * j
}

/// How many aces `lowered` counts as 1.
pub open spec fn lowered_aces(total: int, aces: nat) -> nat
    decreases aces,
{
    if total > 21 && aces > 0 {
        1 + lowered_aces(total - 10, (aces - 1) as nat)
    } else {
        0
    }
}

proof fn lemma_lowered_best(total: int, aces: nat)
    ensures
        lowered_aces(total, aces) <= aces,
        lowered(total, aces) == total - 10 * lowered_aces(total, aces),
        lowered(total, aces) <= 21 ==> forall|j: int|
            0 <= j <= aces && #[trigger] with_low_aces(total, j) <= 21 ==> with_low_aces(total, j)
                <= lowered(total, aces),
        lowered(total, aces) > 21 ==> lowered_aces(total, aces) == aces,
    decreases aces,
{
    if total > 21 && aces > 0 {
        lemma_lowered_best(total - 10, (aces - 1) as nat);
        assert forall|j: int|
            0 <= j <= aces && #[trigger] with_low_aces(total, j) <= 21 && lowered(total, aces) <= 21
                implies with_low_aces(total, j) <= lowered(total, aces) by {
            assert(j >= 1);
            assert(with_low_aces(total, j) == with_low_aces(total - 10, j - 1));
        }
    }
}

/// Law: the score of a hand is the best total that counting its aces as 1
/// or 11 can give: the highest total of 21 or less, if there is one; if there
/// is none, every ace counts 1. A blackjack is never bust.
pub proof fn law_score_is_best_total(hand: Seq<Card>)
    ensures
        lowered_aces(raw_total(hand) as int, ace_count(hand)) <= ace_count(hand),
        hand_score(hand) == raw_total(hand) - 10 * lowered_aces(
            raw_total(hand) as int,
            ace_count(hand),
        ),
        hand_score(hand) <= 21 ==> forall|j: int|
            0 <= j <= ace_count(hand) && #[trigger] with_low_aces(raw_total(hand) as int, j) <= 21
                ==> with_low_aces(raw_total(hand) as int, j) <= hand_score(hand),
        hand_score(hand) > 21 ==> hand_score(hand) == raw_total(hand) - 10 * ace_count(hand),
        hand_score(hand) >= hand.len(),
{
    lemma_lowered_best(raw_total(hand) as int, ace_count(hand));
    lemma_score_at_least_len(hand);
}

/// Law: dealing moves the top card of the deck into the hand; no card is
/// lost or made.
pub proof fn law_hit_keeps_cards(hand: Seq<Card>, deck: Seq<Card>)
    requires
        deck.len() > 0,
    ensures
        (hand.push(deck.last()) + deck.drop_last()).to_multiset() == (hand + deck).to_multiset(),
{
    broadcast use vstd::seq_lib::group_to_multiset_ensures;

    let c = deck.last();
    let rest = deck.drop_last();
    assert(rest.push(c) =~= deck);
    vstd::seq_lib::lemma_multiset_commutative(hand.push(c), rest);
    vstd::seq_lib::lemma_multiset_commutative(hand, rest.push(c));
    assert((hand.push(c) + rest).to_multiset() =~= (hand + rest.push(c)).to_multiset());
}

/// Law: an opening hand is the top two cards of the deck; together with the
/// rest of the deck they are the cards the deck held.
pub proof fn law_opening_keeps_cards(deck: Seq<Card>)
    requires
        deck.len() >= 2,
    ensures
        (seq![deck[deck.len() - 1], deck[deck.len() - 2]] + deck.subrange(0, deck.len() - 2)).to_multiset()
            == deck.to_multiset(),
{
    broadcast use vstd::seq_lib::group_to_multiset_ensures;

    let top = seq![deck[deck.len() - 1], deck[deck.len() - 2]];
    let rest = deck.subrange(0, deck.len() - 2);
    let swapped = rest + seq![deck[deck.len() - 2], deck[deck.len() - 1]];
    assert(swapped =~= deck);
    vstd::seq_lib::lemma_seq_union_to_multiset_commutative(top, rest);
    vstd::seq_lib::lemma_multiset_commutative(rest, top);
    vstd::seq_lib::lemma_multiset_commutative(
        rest,
        seq![deck[deck.len() - 2], deck[deck.len() - 1]],
    );
    assert(top.to_multiset() =~= seq![deck[deck.len() - 2], deck[deck.len() - 1]].to_multiset()) by {
        assert(top =~= seq![deck[deck.len() - 1]].push(deck[deck.len() - 2]));
        assert(seq![deck[deck.len() - 2], deck[deck.len() - 1]] =~= seq![deck[deck.len()
            - 2]].push(deck[deck.len() - 1]));
        assert(seq![deck[deck.len() - 1]] =~= Seq::<Card>::empty().push(deck[deck.len() - 1]));
        assert(seq![deck[deck.len() - 2]] =~= Seq::<Card>::empty().push(deck[deck.len() - 2]));
    }
}

/// Taking out the card at `i` takes its points and its ace, if it is one,
/// out of the totals.
proof fn lemma_remove_totals(h: Seq<Card>, i: int)
    requires
        0 <= i < h.len(),
    ensures
        raw_total(h) == rank_points(h[i].rank) + raw_total(h.remove(i)),
        ace_count(h) == (if h[i].rank == Rank::Ace {
            1nat
        } else {
            0nat
        }) + ace_count(h.remove(i)),
    decreases i,
{
    if i == 0 {
        assert(h.remove(0) =~= h.drop_first());
    } else {
        lemma_remove_totals(h.drop_first(), i - 1);
        assert(h.remove(i).drop_first() =~= h.drop_first().remove(i - 1));
        assert(h.remove(i).first() == h.first());
    }
}

/// Law: the score of a hand depends only on which cards it holds, not on
/// the order they were dealt in.
pub proof fn law_score_ignores_order(p: Seq<Card>, q: Seq<Card>)
    requires
        p.to_multiset() == q.to_multiset(),
    ensures
        raw_total(p) == raw_total(q),
        ace_count(p) == ace_count(q),
        hand_score(p) == hand_score(q),
    decreases p.len(),
{
    broadcast use vstd::seq_lib::group_to_multiset_ensures;

    if p.len() == 0 {
        assert(q.to_multiset().len() == 0);
        assert(q.len() == 0);
    } else {
        let c = p[0];
        assert(p.to_multiset().count(c) > 0);
        assert(q.contains(c));
        let i = choose|i: int| 0 <= i < q.len() && q[i] == c;
        assert(p.remove(0) =~= p.drop_first());
        assert(p.drop_first().to_multiset() == p.to_multiset().remove(c));
        assert(q.remove(i).to_multiset() == q.to_multiset().remove(c));
        law_score_ignores_order(p.drop_first(), q.remove(i));
        lemma_remove_totals(p, 0);
        lemma_remove_totals(q, i);
    }
}

/// A player at the table: a name and the cards in hand.
#[derive(Clone, Debug)]
pub struct Player {
    pub name: String,
    hand: Vec<Card>,
}

impl Default for Player {
    /// A player with an empty name and no cards.
    fn default() -> (player: Player)
        ensures
            player.name_view() == Seq::<char>::empty(),
            player.hand_view() == Seq::<Card>::empty(),
    {
        Player { name: String::new(), hand: Vec::new() }
    }
}

impl Player {
    /// The cards the player holds, in the order they were dealt.
    pub closed spec fn hand_view(&self) -> Seq<Card> {
        self.hand@
    }

    /// The name, as text.
    pub closed spec fn name_view(&self) -> Seq<char> {
        self.name@
    }

    /// Whether the raw total of the hand fits the `u32` that scores are
    /// counted in.
    pub open spec fn score_fits(&self) -> bool {
        raw_total(self.hand_view()) <= u32::MAX
    }

    /// A player with the given name and no cards.
    pub fn new(name: String) -> (player: Player)
        ensures
            player.name_view() == name@,
            player.hand_view() == Seq::<Card>::empty(),
    {
        let hand = Vec::new();
        Player { name, hand }
    }

    /// The cards in hand.
    pub fn get_hand(&self) -> (hand: &Vec<Card>)
        ensures
            hand@ == self.hand_view(),
    {
        &self.hand
    }

    /// The player's name.
    pub fn get_name(&self) -> (name: &str)
        ensures
            name@ == self.name_view(),
    {
        self.name.as_str()
    }

    /// The score of the hand (see `hand_score`).
    pub fn get_score(&self) -> (score: u32)
        requires
            self.score_fits(),
        ensures
            score == hand_score(self.hand_view()),
    {
        let len = self.hand.len();
        let mut score: u32 = 0;
        let mut k: usize = 0;
        assert(self.hand@.subrange(0, len as int) =~= self.hand@);
        while k < len
            invariant
                k <= len,
                len == self.hand@.len(),
                raw_total(self.hand@) <= u32::MAX,
                score + raw_total(self.hand@.subrange(k as int, len as int)) == raw_total(
                    self.hand@,
                ),
            decreases len - k,
        {
            proof {
                lemma_suffix_step(self.hand@, k as int);
            }
            score = score + self.hand[k].score();
            k = k + 1;
        }
        assert(self.hand@.subrange(len as int, len as int) =~= Seq::<Card>::empty());
        if score > 21 {
            let mut k: usize = 0;
            while k < len
                invariant_except_break
                    k <= len,
                    score > 21,
                    lowered(raw_total(self.hand@) as int, ace_count(self.hand@)) == lowered(
                        score as int,
                        ace_count(self.hand@.subrange(k as int, len as int)),
                    ),
                invariant
                    len == self.hand@.len(),
                ensures
                    score == lowered(raw_total(self.hand@) as int, ace_count(self.hand@)),
                decreases len - k,
            {
                proof {
                    lemma_suffix_step(self.hand@, k as int);
                }
                if self.hand[k].is_ace() {
                    score = score - 10;
                    assert(lowered(raw_total(self.hand@) as int, ace_count(self.hand@)) == lowered(
                        score as int,
                        ace_count(self.hand@.subrange(k + 1, len as int)),
                    ));
                    if score <= 21 {
                        break;
                    }
                }
                k = k + 1;
            }
        }
        score
    }

    /// Whether the hand is a blackjack: two cards scoring 21.
    pub fn has_black_jack(&self) -> (blackjack: bool)
        requires
            self.score_fits(),
        ensures
            blackjack == (hand_score(self.hand_view()) == 21 && self.hand_view().len() == 2),
    {
        self.get_score() == 21 && self.hand.len() == 2
    }

    /// Throws away the hand and deals a new opening hand from the deck: the
    /// top card, then the one under it.
    pub fn initial_r(&mut self, deck: &mut Deck)
        requires
            old(deck)@.len() >= 2,
        ensures
            final(self).name_view() == old(self).name_view(),
            final(self).hand_view() == seq![
                old(deck)@[old(deck)@.len() - 1],
                old(deck)@[old(deck)@.len() - 2],
            ],
            final(deck)@ == old(deck)@.subrange(0, old(deck)@.len() - 2),
    {
        self.hand.clear();
        let mut cards = deck.get_initial_cards();
        self.hand.append(&mut cards);
    }

    /// Takes the top card of the deck into the hand.
    pub fn hit(&mut self, deck: &mut Deck)
        requires
            old(deck)@.len() > 0,
        ensures
            final(self).name_view() == old(self).name_view(),
            final(self).hand_view() == old(self).hand_view().push(old(deck)@.last()),
            final(deck)@ == old(deck)@.drop_last(),
    {
        let card = deck.deal_card();
        self.hand.push(card);
    }

    /// Whether the hand is over 21.
    pub fn bust(&self) -> (busted: bool)
        requires
            self.score_fits(),
        ensures
            busted == (hand_score(self.hand_view()) > 21),
    {
        self.get_score() > 21
    }
}

/// Someone who holds a hand of cards.
pub trait Person {
    /// The cards held, in the order they were dealt.
    spec fn person_hand(&self) -> Seq<Card>;

    /// The holder's name.
    spec fn person_name(&self) -> Seq<char>;

    /// Adds a card to the hand.
    fn deal_card(&mut self, card: Card)
        ensures
            final(self).person_hand() == old(self).person_hand().push(card),
            final(self).person_name() == old(self).person_name(),
    ;

    /// The cards held.
    fn get_hand(&self) -> (hand: &Vec<Card>)
        ensures
            hand@ == self.person_hand(),
    ;

    /// The holder's name.
    fn get_name(&self) -> (name: &str)
        ensures
            name@ == self.person_name(),
    ;
}

impl Person for Player {
    open spec fn person_hand(&self) -> Seq<Card> {
        self.hand_view()
    }

    open spec fn person_name(&self) -> Seq<char> {
        self.name_view()
    }

    fn deal_card(&mut self, card: Card) {
        self.hand.push(card);
    }

    fn get_hand(&self) -> (hand: &Vec<Card>) {
        &self.hand
    }

    fn get_name(&self) -> (name: &str) {
        self.name.as_str()
    }
}

/// The dealer at the table, who holds a hand as the players do.
#[derive(Clone, Debug)]
pub struct Dealer {
    pub name: String,
    hand: Vec<Card>,
}

impl Dealer {
    /// The cards the dealer holds, in the order they were dealt.
    pub closed spec fn hand_view(&self) -> Seq<Card> {
        self.hand@
    }

    /// The name, as text.
    pub closed spec fn name_view(&self) -> Seq<char> {
        self.name@
    }

    /// A dealer with the given name and no cards.
    pub fn new(name: String) -> (dealer: Dealer)
        ensures
            dealer.name_view() == name@,
            dealer.hand_view() == Seq::<Card>::empty(),
    {
        Dealer { name, hand: Vec::new() }
    }
}

impl Person for Dealer {
    open spec fn person_hand(&self) -> Seq<Card> {
        self.hand_view()
    }

    open spec fn person_name(&self) -> Seq<char> {
        self.name_view()
    }

    fn deal_card(&mut self, card: Card) {
        self.hand.push(card);
    }

    fn get_hand(&self) -> (hand: &Vec<Card>) {
        &self.hand
    }

    fn get_name(&self) -> (name: &str) {
        self.name.as_str()
    }
}

} // verus!
