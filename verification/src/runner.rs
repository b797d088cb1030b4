use vstd::prelude::*;
use vstd::multiset::Multiset;

use crate::card::Card;
use crate::deck::{fresh_decks, Deck};
use crate::player::{hand_score, Player};
use crate::text::{
    lowercased, parse_usize, parses_as_usize, str_eq, to_lower, trim_text, trimmed, usize_value,
};

verus! {

/// Why a count typed at a prompt was refused.
#[derive(Clone, Copy, Debug, PartialEq, Eq, Structural)]
pub enum CountError {
    /// The text is not a whole number.
    NotInteger,
    /// The number is outside the range the prompt asks for.
    OutOfRange,
}

/// What a count typed at a prompt gives: the input is trimmed, read as a
/// `usize`, and accepted if it lies in `lo..=hi`.
pub open spec fn count_result(input: Seq<char>, lo: nat, hi: nat) -> Result<usize, CountError> {
    let t = trimmed(input);
    if !parses_as_usize(t) {
        Err(CountError::NotInteger)
    } else if lo <= usize_value(t) && usize_value(t) <= hi {
        Ok(usize_value(t) as usize)
    } else {
        Err(CountError::OutOfRange)
    }
}

/// Reads a count typed at a prompt that asks for a number in `lo..=hi`.
pub fn parse_count(input: &str, lo: usize, hi: usize) -> (count: Result<usize, CountError>)
    ensures
        count == count_result(input@, lo as nat, hi as nat),
{
    let t = trim_text(input);
    match parse_usize(t) {
        Some(val) => {
            if val >= lo && val <= hi {
                Ok(val)
            } else {
                Err(CountError::OutOfRange)
            }
        },
        None => Err(CountError::NotInteger),
    }
}

/// Reads the number of decks to play with, which must be 6 to 8.
pub fn parse_deck_count(input: &str) -> (count: Result<usize, CountError>)
    ensures
        count == count_result(input@, 6, 8),
{
    parse_count(input, 6, 8)
}

/// Reads the number of players, which must be 1 to 7.
pub fn parse_player_count(input: &str) -> (count: Result<usize, CountError>)
    ensures
        count == count_result(input@, 1, 7),
{
    parse_count(input, 1, 7)
}

/// A move typed by a player on their turn.
#[derive(Clone, Copy, Debug, PartialEq, Eq, Structural)]
pub enum Command {
    /// "h" or "hit": take another card.
    Hit,
    /// "s" or "stand": end the turn.
    Stand,
    /// Anything else.
    Invalid,
}

/// The move that a lower-cased, trimmed command spells.
pub open spec fn command_for(s: Seq<char>) -> Command {
    if s == "h"@ || s == "hit"@ {
        Command::Hit
    } else if s == "s"@ || s == "stand"@ {
        Command::Stand
    } else {
        Command::Invalid
    }
}

/// The move that a lower-cased, trimmed command spells.
pub fn command_of(s: &str) -> (cmd: Command)
    ensures
        cmd == command_for(s@),
{
    if str_eq(s, "h") || str_eq(s, "hit") {
        Command::Hit
    } else if str_eq(s, "s") || str_eq(s, "stand") {
        Command::Stand
    } else {
        Command::Invalid
    }
}

/// Reads a move as typed: lower-cased, then trimmed, then matched.
pub fn read_command(input: &str) -> (cmd: Command)
    ensures
        cmd == command_for(trimmed(lowercased(input@))),
{
    let lower = to_lower(input);
    let t = trim_text(lower.as_str());
    command_of(t)
}

/// Where a player's turn stands.
#[derive(Clone, Copy, Debug, PartialEq, Eq, Structural)]
pub enum TurnState {
    /// Two cards scoring 21: the turn is over.
    BlackJack,
    /// 21 with more than two cards: the turn is over.
    TwentyOne,
    /// Over 21: the turn is over and lost.
    Bust,
    /// Under 21: the player chooses.
    Playing,
}

/// Where a turn stands for a hand.
pub open spec fn turn_state(hand: Seq<Card>) -> TurnState {
    if hand_score(hand) == 21 && hand.len() == 2 {
        TurnState::BlackJack
    } else if hand_score(hand) == 21 {
        TurnState::TwentyOne
    } else if hand_score(hand) > 21 {
        TurnState::Bust
    } else {
        TurnState::Playing
    }
}

/// Whether the player has won or lost their turn already, and how.
pub fn win_or_lose(player: &Player) -> (state: TurnState)
    requires
        player.score_fits(),
    ensures
        state == turn_state(player.hand_view()),
{
    if player.has_black_jack() {
        TurnState::BlackJack
    } else {
        let score = player.get_score();
        if score == 21 {
            TurnState::TwentyOne
        } else if score > 21 {
            TurnState::Bust
        } else {
            TurnState::Playing
        }
    }
}

/// Whether the hand's turn is over after a move: a hit ends it when the
/// hand is no longer playable, a stand always ends it, and anything else
/// does not.
pub fn turn_step(player: &mut Player, deck: &mut Deck, cmd: Command) -> (over: bool)
    requires
        old(player).score_fits(),
        turn_state(old(player).hand_view()) == TurnState::Playing,
        cmd == Command::Hit ==> old(deck)@.len() > 0,
    ensures
        final(player).name_view() == old(player).name_view(),
        cmd == Command::Hit ==> {
            &&& final(player).hand_view() == old(player).hand_view().push(old(deck)@.last())
            &&& final(deck)@ == old(deck)@.drop_last()
            &&& final(player).score_fits()
            &&& over == (turn_state(final(player).hand_view()) != TurnState::Playing)
        },
        cmd != Command::Hit ==> {
            &&& final(player).hand_view() == old(player).hand_view()
            &&& final(deck)@ == old(deck)@
            &&& over == (cmd == Command::Stand)
        },
{
    match cmd {
        Command::Hit => {
            proof {
                crate::player::lemma_score_at_least_len(player.hand_view());
            }
            player.hit(deck);
            proof {
                crate::player::lemma_raw_total_bound(player.hand_view());
            }
            let state = win_or_lose(player);
            match state {
                TurnState::Playing => false,
                _ => true,
            }
        },
        Command::Stand => true,
        Command::Invalid => false,
    }
}

/// The seat that plays after seat `i`: the next one, unless seat `i` has a
/// blackjack, which ends the players' turns, or it was the last seat.
pub fn next_turn(players: &Vec<Player>, i: usize) -> (next: Option<usize>)
    requires
        i < players@.len(),
        players@[i as int].score_fits(),
    ensures
        next == (if crate::web::is_blackjack(players@[i as int].hand_view()) || i + 1
            >= players@.len() {
            None::<usize>
        } else {
            Some((i + 1) as usize)
        }),
        next == next_seat(players@.map_values(|p: Player| p.hand_view()), i as int),
{
    let n = players.len();
    if players[i].has_black_jack() || i + 1 >= n {
        None
    } else {
        Some(i + 1)
    }
}

/// The cards in a row of hands.
pub open spec fn hands_cards(hands: Seq<Seq<Card>>) -> Multiset<Card>
    decreases hands.len(),
{
    if hands.len() == 0 {
        Multiset::empty()
    } else {
        hands_cards(hands.drop_last()).add(hands.last().to_multiset())
    }
}

/// Replacing one hand replaces its cards.
proof fn lemma_hands_cards_update(hands: Seq<Seq<Card>>, k: int, h: Seq<Card>)
    requires
        0 <= k < hands.len(),
    ensures
        hands_cards(hands.update(k, h)).add(hands[k].to_multiset()) =~= hands_cards(hands).add(
            h.to_multiset(),
        ),
    decreases hands.len(),
{
    broadcast use vstd::multiset::group_multiset_axioms;

    let u = hands.update(k, h);
    assert(hands_cards(u) == hands_cards(u.drop_last()).add(u.last().to_multiset()));
    assert(hands_cards(hands) == hands_cards(hands.drop_last()).add(hands.last().to_multiset()));
    if k == hands.len() - 1 {
        assert(u.drop_last() =~= hands.drop_last());
        assert(u.last() == h);
        assert forall|x: Card|
            #[trigger] hands_cards(u).add(hands[k].to_multiset()).count(x) == hands_cards(hands).add(
                h.to_multiset(),
            ).count(x) by {}
    } else {
        assert(u.drop_last() =~= hands.drop_last().update(k, h));
        assert(u.last() == hands.last());
        lemma_hands_cards_update(hands.drop_last(), k, h);
        let a = hands_cards(u.drop_last());
        let b = hands_cards(hands.drop_last());
        assert forall|x: Card|
            #[trigger] hands_cards(u).add(hands[k].to_multiset()).count(x) == hands_cards(hands).add(
                h.to_multiset(),
            ).count(x) by {
            assert(a.add(hands[k].to_multiset()).count(x) == b.add(h.to_multiset()).count(x));
        }
    }
}

/// Law: a player's hit moves the top card of the deck into that player's
/// hand; the cards in the hands and the deck together stay the same.
pub proof fn law_hit_keeps_table_cards(hands: Seq<Seq<Card>>, k: int, deck: Seq<Card>)
    requires
        0 <= k < hands.len(),
        deck.len() > 0,
    ensures
        hands_cards(hands.update(k, hands[k].push(deck.last()))).add(deck.drop_last().to_multiset())
            =~= hands_cards(hands).add(deck.to_multiset()),
{
    broadcast use vstd::multiset::group_multiset_axioms;
    broadcast use vstd::seq_lib::group_to_multiset_ensures;

    let c = deck.last();
    lemma_hands_cards_update(hands, k, hands[k].push(c));
    assert(deck.drop_last().push(c) =~= deck);
    assert(hands[k].push(c).to_multiset() =~= hands[k].to_multiset().insert(c));
    assert(deck.to_multiset() =~= deck.drop_last().to_multiset().insert(c));
    let u = hands_cards(hands.update(k, hands[k].push(c)));
    let hk = hands[k].to_multiset();
    let rest = deck.drop_last().to_multiset();
    assert forall|x: Card|
        #[trigger] u.add(rest).count(x) == hands_cards(hands).add(deck.to_multiset()).count(x) by {
        assert(u.add(hk).count(x) == hands_cards(hands).add(hk.insert(c)).count(x));
    }
}

/// The opening hands of the first `k` seats.
pub open spec fn opening_hands(deck: Seq<Card>, k: nat) -> Seq<Seq<Card>> {
    Seq::new(k, |j: int| opening_hand(deck, j))
}

proof fn lemma_openings_keep_cards(deck: Seq<Card>, k: nat)
    requires
        deck.len() >= 2 * k,
    ensures
        hands_cards(opening_hands(deck, k)).add(deck.subrange(0, deck.len() - 2 * k).to_multiset())
            =~= deck.to_multiset(),
    decreases k,
{
    broadcast use vstd::multiset::group_multiset_axioms;

    if k == 0 {
        assert(deck.subrange(0, deck.len() as int) =~= deck);
        assert(hands_cards(opening_hands(deck, 0)) =~= Multiset::empty());
    } else {
        let j = (k - 1) as nat;
        lemma_openings_keep_cards(deck, j);
        let d = deck.subrange(0, deck.len() - 2 * j);
        assert(opening_hands(deck, k).drop_last() =~= opening_hands(deck, j));
        assert(opening_hand(deck, j as int) =~= opening_hand(d, 0));
        assert(d.subrange(0, d.len() - 2) =~= deck.subrange(0, deck.len() - 2 * k));
        crate::player::law_opening_keeps_cards(d);
        vstd::seq_lib::lemma_multiset_commutative(opening_hand(d, 0), d.subrange(0, d.len() - 2));
    }
}

/// Law: seating `n` players and the dealer deals their opening hands from
/// the top of the deck; the hands and what is left of the deck hold exactly
/// the cards the deck held.
pub proof fn law_seating_keeps_cards(deck: Seq<Card>, n: nat)
    requires
        deck.len() >= 2 * n + 2,
    ensures
        hands_cards(opening_hands(deck, n)).add(opening_hand(deck, n as int).to_multiset()).add(
            deck.subrange(0, deck.len() - 2 * n - 2).to_multiset(),
        ) =~= deck.to_multiset(),
{
    broadcast use vstd::multiset::group_multiset_axioms;

    lemma_openings_keep_cards(deck, n + 1);
    assert(opening_hands(deck, n + 1).drop_last() =~= opening_hands(deck, n));
    assert(deck.len() - 2 * (n + 1) == deck.len() - 2 * n - 2);
}

/// The hand and deck after the dealer's turn: the dealer takes the top card
/// while the hand scores under 17.
pub open spec fn dealer_draws(hand: Seq<Card>, deck: Seq<Card>) -> (Seq<Card>, Seq<Card>)
    decreases deck.len(),
{
    if hand_score(hand) < 17 && deck.len() > 0 {
        dealer_draws(hand.push(deck.last()), deck.drop_last())
    } else {
        (hand, deck)
    }
}

/// Law: the dealer's turn only moves cards from the deck to the dealer's
/// hand; and it ends with 17 or more points unless the deck runs out.
pub proof fn law_dealer_draws_keep_cards(hand: Seq<Card>, deck: Seq<Card>)
    ensures
        (dealer_draws(hand, deck).0 + dealer_draws(hand, deck).1).to_multiset() == (hand
            + deck).to_multiset(),
        dealer_draws(hand, deck).1.len() > 0 ==> hand_score(dealer_draws(hand, deck).0) >= 17,
    decreases deck.len(),
{
    if hand_score(hand) < 17 && deck.len() > 0 {
        crate::player::law_hit_keeps_cards(hand, deck);
        law_dealer_draws_keep_cards(hand.push(deck.last()), deck.drop_last());
    }
}

/// Whether the dealer takes another card: not bust and under 17.
pub fn dealer_should_hit(dealer: &Player) -> (hit: bool)
    requires
        dealer.score_fits(),
    ensures
        hit == (hand_score(dealer.hand_view()) < 17),
{
    !dealer.bust() && dealer.get_score() < 17
}

/// Whether the deck lasts through the dealer's turn: it is never empty while
/// the hand scores under 17.
pub open spec fn deck_lasts(hand: Seq<Card>, deck: Seq<Card>) -> bool
    decreases deck.len(),
{
    if hand_score(hand) < 17 {
        if deck.len() > 0 {
            deck_lasts(hand.push(deck.last()), deck.drop_last())
        } else {
            false
        }
    } else {
        true
    }
}

/// A deck lasts through the dealer's turn if, with the hand, it holds 17
/// cards: the dealer stops by 17 cards at the latest.
pub proof fn lemma_deck_lasts(hand: Seq<Card>, deck: Seq<Card>)
    requires
        hand.len() + deck.len() >= 17,
    ensures
        deck_lasts(hand, deck),
    decreases deck.len(),
{
    if hand_score(hand) < 17 {
        crate::player::lemma_score_at_least_len(hand);
        lemma_deck_lasts(hand.push(deck.last()), deck.drop_last());
    }
}

/// The dealer's turn: takes cards until the hand scores 17 or more.
pub fn dealer_turn(dealer: &mut Player, deck: &mut Deck)
    requires
        old(dealer).score_fits(),
        deck_lasts(old(dealer).hand_view(), old(deck)@),
    ensures
        (final(dealer).hand_view(), final(deck)@) == dealer_draws(
            old(dealer).hand_view(),
            old(deck)@,
        ),
        hand_score(final(dealer).hand_view()) >= 17,
        old(dealer).hand_view().len() <= 17 ==> final(dealer).hand_view().len() <= 17,
        final(dealer).name_view() == old(dealer).name_view(),
{
    while dealer_should_hit(dealer)
        invariant
            deck_lasts(dealer.hand_view(), deck@),
            dealer.hand_view().len() <= 17 || dealer.hand_view() == old(dealer).hand_view(),
            raw_total_fits(dealer.hand_view()),
            dealer.name_view() == old(dealer).name_view(),
            dealer_draws(dealer.hand_view(), deck@) == dealer_draws(
                old(dealer).hand_view(),
                old(deck)@,
            ),
        decreases deck@.len(),
    {
        proof {
            crate::player::lemma_score_at_least_len(dealer.hand_view());
        }
        dealer.hit(deck);
        proof {
            crate::player::lemma_raw_total_bound(dealer.hand_view());
        }
    }
}

/// Whether the raw total of a hand fits a `u32`.
pub open spec fn raw_total_fits(hand: Seq<Card>) -> bool {
    crate::player::raw_total(hand) <= u32::MAX
}

/// How a player's game ended against the dealer.
#[derive(Clone, Copy, Debug, PartialEq, Eq, Structural)]
pub enum Outcome {
    Won,
    Lost,
    Tied,
}

/// One line of the end-of-game report: a player (by position) and an outcome.
#[derive(Clone, Copy, Debug, PartialEq, Eq, Structural)]
pub struct Verdict {
    pub player: usize,
    pub outcome: Outcome,
}

/// The report lines for the player at position `i`.
///
/// If the dealer is bust, a player who is not bust is told they won and then
/// that they lost, and a bust player that they lost. If the dealer has a
/// blackjack, a player with one is told they tied and then that they lost,
/// any other player that they lost. Otherwise, if a player had a blackjack
/// during the round, players with a blackjack won and the others lost; and
/// if nobody had one, points decide: more than the dealer wins unless bust,
/// fewer loses, the same ties.
pub open spec fn player_lines(i: nat, hand: Seq<Card>, dealer: Seq<Card>, blackjack_on_game: bool) -> Seq<Verdict> {
    let ps = hand_score(hand);
    let ds = hand_score(dealer);
    let p_bj = ps == 21 && hand.len() == 2;
    let d_bj = ds == 21 && dealer.len() == 2;
    let won = Verdict { player: i as usize, outcome: Outcome::Won };
    let lost = Verdict { player: i as usize, outcome: Outcome::Lost };
    let tied = Verdict { player: i as usize, outcome: Outcome::Tied };
    if ds > 21 {
        if ps <= 21 {
            seq![won, lost]
        } else {
            seq![lost]
        }
    } else if d_bj {
        if p_bj {
            seq![tied, lost]
        } else {
            seq![lost]
        }
    } else if blackjack_on_game {
        if p_bj {
            seq![won]
        } else {
            seq![lost]
        }
    } else if ps > ds {
        if ps > 21 {
            seq![lost]
        } else {
            seq![won]
        }
    } else if ps < ds {
        seq![lost]
    } else {
        seq![tied]
    }
}

/// The end-of-game report: the lines of each player in seat order.
pub open spec fn game_report(players: Seq<Player>, dealer: Seq<Card>, blackjack_on_game: bool) -> Seq<Verdict>
    decreases players.len(),
{
    if players.len() == 0 {
        Seq::empty()
    } else {
        game_report(players.drop_last(), dealer, blackjack_on_game) + player_lines(
            (players.len() - 1) as nat,
            players.last().hand_view(),
            dealer,
            blackjack_on_game,
        )
    }
}

/// Whether every player's raw total fits a `u32`.
pub open spec fn all_scores_fit(players: Seq<Player>) -> bool {
    forall|i: int| 0 <= i < players.len() ==> (#[trigger] players[i]).score_fits()
}

/// Decides who won, lost or tied at the end of the game, in the order the
/// lines are announced.
pub fn end_game(players: &Vec<Player>, dealer: &Player, blackjack_on_game: bool) -> (report: Vec<Verdict>)
    requires
        all_scores_fit(players@),
        dealer.score_fits(),
    ensures
        report@ == game_report(players@, dealer.hand_view(), blackjack_on_game),
{
    let mut report: Vec<Verdict> = Vec::new();
    let dealer_bust = dealer.bust();
    let dealer_bj = dealer.has_black_jack();
    let dealer_points = dealer.get_score();
    let n = players.len();
    let mut i: usize = 0;
    while i < n
        invariant
            i <= n,
            n == players@.len(),
            all_scores_fit(players@),
            dealer.score_fits(),
            dealer_bust == (hand_score(dealer.hand_view()) > 21),
            dealer_bj == (hand_score(dealer.hand_view()) == 21 && dealer.hand_view().len() == 2),
            dealer_points == hand_score(dealer.hand_view()),
            report@ == game_report(players@.take(i as int), dealer.hand_view(), blackjack_on_game),
        decreases n - i,
    {
        let player = &players[i];
        assert(players@[i as int].score_fits());
        let ghost before = report@;
        if dealer_bust {
            if !player.bust() {
                report.push(Verdict { player: i, outcome: Outcome::Won });
            }
            report.push(Verdict { player: i, outcome: Outcome::Lost });
        } else if dealer_bj {
            if player.has_black_jack() {
                report.push(Verdict { player: i, outcome: Outcome::Tied });
            }
            report.push(Verdict { player: i, outcome: Outcome::Lost });
        } else if blackjack_on_game {
            if player.has_black_jack() {
                report.push(Verdict { player: i, outcome: Outcome::Won });
            } else {
                report.push(Verdict { player: i, outcome: Outcome::Lost });
            }
        } else {
            let player_points = player.get_score();
            if player_points > dealer_points {
                if player.bust() {
                    report.push(Verdict { player: i, outcome: Outcome::Lost });
                } else {
                    report.push(Verdict { player: i, outcome: Outcome::Won });
                }
            } else if player_points < dealer_points {
                report.push(Verdict { player: i, outcome: Outcome::Lost });
            } else {
                report.push(Verdict { player: i, outcome: Outcome::Tied });
            }
        }
        assert(players@.take(i + 1).drop_last() =~= players@.take(i as int));
        assert(report@ =~= before + player_lines(
            i as nat,
            players@[i as int].hand_view(),
            dealer.hand_view(),
            blackjack_on_game,
        ));
        i = i + 1;
    }
    assert(players@.take(n as int) =~= players@);
    report
}

/// The opening hand dealt at step `k` from a deck that had `deck` as its
/// cards before the first step: two cards per step, from the top down.
pub open spec fn opening_hand(deck: Seq<Card>, k: int) -> Seq<Card> {
    seq![deck[deck.len() - 1 - 2 * k], deck[deck.len() - 2 - 2 * k]]
}

/// Seats the players with the given names (trimmed) at the end of the table
/// and deals seat by seat: at step `i` the player in seat `i` is dealt an
/// opening hand.
pub fn ask_set_player_attributes(names: &Vec<String>, players: &mut Vec<Player>, deck: &mut Deck)
    requires
        old(deck)@.len() >= 2 * names@.len(),
    ensures
        final(players)@.len() == old(players)@.len() + names@.len(),
        final(deck)@ == old(deck)@.subrange(0, old(deck)@.len() - 2 * names@.len()),
        forall|j: int|
            0 <= j < final(players)@.len() ==> (#[trigger] final(players)@[j]).name_view() == (
            if j < old(players)@.len() {
                old(players)@[j].name_view()
            } else {
                trimmed(names@[j - old(players)@.len()]@)
            }),
        forall|j: int|
            0 <= j < final(players)@.len() ==> (#[trigger] final(players)@[j]).hand_view() == (
            if j < names@.len() {
                opening_hand(old(deck)@, j)
            } else if j < old(players)@.len() {
                old(players)@[j].hand_view()
            } else {
                Seq::<Card>::empty()
            }),
{
    let player_n = names.len();
    let ghost p0 = players@;
    let ghost d0 = deck@;
    let mut i: usize = 0;
    while i < player_n
        invariant
            i <= player_n,
            player_n == names@.len(),
            d0.len() >= 2 * player_n,
            deck@ == d0.subrange(0, d0.len() - 2 * i),
            players@.len() == p0.len() + i,
            forall|j: int|
                0 <= j < players@.len() ==> (#[trigger] players@[j]).name_view() == (if j
                    < p0.len() {
                    p0[j].name_view()
                } else {
                    trimmed(names@[j - p0.len()]@)
                }),
            forall|j: int|
                0 <= j < players@.len() ==> (#[trigger] players@[j]).hand_view() == (if j < i {
                    opening_hand(d0, j)
                } else if j < p0.len() {
                    p0[j].hand_view()
                } else {
                    Seq::<Card>::empty()
                }),
        decreases player_n - i,
    {
        let name = trim_text(names[i].as_str());
        players.push(Player::new(String::from_str(name)));
        let mut player = players.remove(i);
        let ghost before = players@;
        player.initial_r(deck);
        players.insert(i, player);
        assert forall|j: int| 0 <= j < players@.len() implies (#[trigger] players@[j]).hand_view()
            == (if j < i + 1 {
            opening_hand(d0, j)
        } else if j < p0.len() {
            p0[j].hand_view()
        } else {
            Seq::<Card>::empty()
        }) by {
            if j < i {
                assert(players@[j] == before[j]);
            } else if j > i {
                assert(players@[j] == before[j - 1]);
            }
        }
        i = i + 1;
    }
}

/// Deals the dealer's opening hand.
pub fn set_dealer(dealer: &mut Player, deck: &mut Deck)
    requires
        old(deck)@.len() >= 2,
    ensures
        final(dealer).name_view() == old(dealer).name_view(),
        final(dealer).hand_view() == opening_hand(old(deck)@, 0),
        final(deck)@ == old(deck)@.subrange(0, old(deck)@.len() - 2),
{
    dealer.initial_r(deck);
}

/// A game of Blackjack played at the command line: the players, the deck
/// and the dealer.
#[derive(Clone, Debug)]
pub struct BlackJackRunner {
    pub players: Vec<Player>,
    pub deck: Deck,
    pub dealer: Player,
}

impl Default for BlackJackRunner {
    /// A table with no players, an empty deck and a dealer with an empty
    /// name and no cards.
    fn default() -> (runner: BlackJackRunner)
        ensures
            runner.players@ == Seq::<Player>::empty(),
            runner.deck@ == Seq::<Card>::empty(),
            runner.dealer.name_view() == Seq::<char>::empty(),
            runner.dealer.hand_view() == Seq::<Card>::empty(),
    {
        BlackJackRunner { players: Vec::new(), deck: Deck::default(), dealer: Player::default() }
    }
}

impl BlackJackRunner {
    /// A table with no players, an empty deck and a dealer named "Dealer".
    pub fn new() -> (runner: BlackJackRunner)
        ensures
            runner.players@ == Seq::<Player>::empty(),
            runner.deck@ == Seq::<Card>::empty(),
            runner.dealer.name_view() == "Dealer"@,
            runner.dealer.hand_view() == Seq::<Card>::empty(),
    {
        BlackJackRunner {
            players: Vec::new(),
            deck: Deck::default(),
            dealer: Player::new(String::from_str("Dealer")),
        }
    }

    /// Puts `deck_n` fresh decks on the table and shuffles them.
    pub fn prepare_deck(&mut self, deck_n: usize)
        requires
            deck_n * 52 <= usize::MAX,
        ensures
            final(self).deck@.len() == 52 * deck_n,
            final(self).deck@.to_multiset() == fresh_decks(deck_n as nat).to_multiset(),
            final(self).players == old(self).players,
            final(self).dealer == old(self).dealer,
    {
        self.deck = Deck::new(deck_n);
        self.deck.shuffle();
    }

    /// Seats the named players, deals them their opening hands in seat
    /// order, then deals the dealer's.
    pub fn seat_players(&mut self, names: &Vec<String>)
        requires
            old(self).deck@.len() >= 2 * names@.len() + 2,
        ensures
            final(self).players@.len() == old(self).players@.len() + names@.len(),
            final(self).deck@ == old(self).deck@.subrange(
                0,
                old(self).deck@.len() - 2 * names@.len() - 2,
            ),
            forall|j: int|
                0 <= j < final(self).players@.len() ==> (
                #[trigger] final(self).players@[j]).name_view() == (if j < old(
                    self,
                ).players@.len() {
                    old(self).players@[j].name_view()
                } else {
                    trimmed(names@[j - old(self).players@.len()]@)
                }),
            forall|j: int|
                0 <= j < final(self).players@.len() ==> (
                #[trigger] final(self).players@[j]).hand_view() == (if j < names@.len() {
                    opening_hand(old(self).deck@, j)
                } else if j < old(self).players@.len() {
                    old(self).players@[j].hand_view()
                } else {
                    Seq::<Card>::empty()
                }),
            final(self).dealer.name_view() == old(self).dealer.name_view(),
            final(self).dealer.hand_view() == opening_hand(old(self).deck@, names@.len() as int),
    {
        let ghost d0 = self.deck@;
        ask_set_player_attributes(names, &mut self.players, &mut self.deck);
        let ghost d1 = self.deck@;
        set_dealer(&mut self.dealer, &mut self.deck);
        assert(self.deck@ =~= d0.subrange(0, d0.len() - 2 * names@.len() - 2));
    }
}

/// A new command-line game, ready to be run.
pub fn game() -> (runner: BlackJackRunner)
    ensures
        runner.players@ == Seq::<Player>::empty(),
        runner.deck@ == Seq::<Card>::empty(),
        runner.dealer.name_view() == "Dealer"@,
        runner.dealer.hand_view() == Seq::<Card>::empty(),
{
    BlackJackRunner::new()
}

/// The hands and deck after the players take cards from the top of the
/// deck, one card per entry of `seats`, in that order, to the seat it names.
pub open spec fn hit_seats(hands: Seq<Seq<Card>>, deck: Seq<Card>, seats: Seq<int>) -> (
    Seq<Seq<Card>>,
    Seq<Card>,
)
    decreases seats.len(),
{
    if seats.len() == 0 {
        (hands, deck)
    } else {
        let before = hit_seats(hands, deck, seats.drop_last());
        let k = seats.last();
        if before.1.len() > 0 {
            (before.0.update(k, before.0[k].push(before.1.last())), before.1.drop_last())
        } else {
            before
        }
    }
}

/// The first seat whose hand is a blackjack, or the number of seats if none
/// is.
pub open spec fn first_blackjack(hands: Seq<Seq<Card>>) -> nat
    decreases hands.len(),
{
    if hands.len() == 0 {
        0
    } else if crate::web::is_blackjack(hands[0]) {
        0
    } else {
        1 + first_blackjack(hands.drop_first())
    }
}

/// The seat that plays after seat `i` (see `next_turn`).
pub open spec fn next_seat(hands: Seq<Seq<Card>>, i: int) -> Option<usize> {
    if crate::web::is_blackjack(hands[i]) || i + 1 >= hands.len() {
        None
    } else {
        Some((i + 1) as usize)
    }
}

proof fn lemma_first_blackjack(hands: Seq<Seq<Card>>)
    ensures
        first_blackjack(hands) <= hands.len(),
        forall|j: int| 0 <= j < first_blackjack(hands) ==> !crate::web::is_blackjack(#[trigger] hands[j]),
        first_blackjack(hands) < hands.len() ==> crate::web::is_blackjack(
            hands[first_blackjack(hands) as int],
        ),
    decreases hands.len(),
{
    if hands.len() > 0 && !crate::web::is_blackjack(hands[0]) {
        lemma_first_blackjack(hands.drop_first());
        assert forall|j: int| 0 <= j < first_blackjack(hands) implies !crate::web::is_blackjack(
            #[trigger] hands[j],
        ) by {
            if j > 0 {
                assert(hands[j] == hands.drop_first()[j - 1]);
            }
        }
    }
}

/// The cards in a row of hands, counted.
proof fn lemma_hands_cards_len(hands: Seq<Seq<Card>>)
    ensures
        hands_cards(hands).len() == crate::web::total_cards(hands),
    decreases hands.len(),
{
    broadcast use vstd::multiset::group_multiset_axioms;
    broadcast use vstd::seq_lib::group_to_multiset_ensures;

    if hands.len() > 0 {
        lemma_hands_cards_len(hands.drop_last());
    }
}

/// What the players' hits do: every card stays on the table, the seats are
/// the same, and a seat that no entry names keeps its hand.
proof fn lemma_hit_seats(hands: Seq<Seq<Card>>, deck: Seq<Card>, seats: Seq<int>)
    requires
        forall|i: int| 0 <= i < seats.len() ==> 0 <= #[trigger] seats[i] < hands.len(),
    ensures
        hit_seats(hands, deck, seats).0.len() == hands.len(),
        hands_cards(hit_seats(hands, deck, seats).0).add(hit_seats(hands, deck, seats).1.to_multiset())
            =~= hands_cards(hands).add(deck.to_multiset()),
        forall|j: int|
            0 <= j < hands.len() && (forall|i: int| 0 <= i < seats.len() ==> seats[i] != j) ==> (
            #[trigger] hit_seats(hands, deck, seats).0[j]) == hands[j],
        forall|j: int|
            0 <= j < hands.len() ==> (#[trigger] hit_seats(hands, deck, seats).0[j]).len()
                >= hands[j].len(),
        forall|j: int|
            0 <= j < hands.len() && (#[trigger] hit_seats(hands, deck, seats).0[j]).len()
                == hands[j].len() ==> hit_seats(hands, deck, seats).0[j] == hands[j],
    decreases seats.len(),
{
    if seats.len() > 0 {
        let rest = seats.drop_last();
        assert forall|i: int| 0 <= i < rest.len() implies 0 <= #[trigger] rest[i] < hands.len() by {
            assert(rest[i] == seats[i]);
        }
        lemma_hit_seats(hands, deck, rest);
        let before = hit_seats(hands, deck, rest);
        let k = seats.last();
        assert(0 <= k < hands.len());
        if before.1.len() > 0 {
            law_hit_keeps_table_cards(before.0, k, before.1);
        }
        assert forall|j: int|
            0 <= j < hands.len() && (forall|i: int| 0 <= i < seats.len() ==> seats[i] != j) implies (
            #[trigger] hit_seats(hands, deck, seats).0[j]) == hands[j] by {
            assert(seats[seats.len() - 1] != j);
            assert forall|i: int| 0 <= i < rest.len() implies rest[i] != j by {
                assert(rest[i] == seats[i]);
            }
        }
    }
}

/// Law: a whole round at the terminal keeps every card. The table is set
/// with the `v` shuffled decks `deck`; `n` players and the dealer are dealt
/// their opening hands; the players take cards one at a time, to the seats
/// named by `seats` in that order, none at or after the first seat with a
/// blackjack; then the dealer draws to 17. Then:
/// - the hands, the dealer's hand and what is left of the deck hold each
///   card of the `v` decks exactly as often as the decks did, `52 * v` cards
///   in all;
/// - the dealer ends with 17 or more whenever the deck lasts through the
///   dealer's turn (it does if 15 cards are left for it);
/// - the turns go from seat 0 in order and stop after the first seat with a
///   blackjack or the last seat; the seats from the first blackjack on keep
///   their two opening cards.
pub proof fn law_round_keeps_cards(v: nat, deck: Seq<Card>, n: nat, seats: Seq<int>)
    requires
        deck.to_multiset() == fresh_decks(v).to_multiset(),
        deck.len() >= 2 * n + 2,
        forall|i: int|
            0 <= i < seats.len() ==> 0 <= #[trigger] seats[i] < first_blackjack(
                opening_hands(deck, n),
            ),
    ensures
        ({
            let opened = opening_hands(deck, n);
            let played = hit_seats(opened, deck.subrange(0, deck.len() - 2 * n - 2), seats);
            let dealt = dealer_draws(opening_hand(deck, n as int), played.1);
            &&& hands_cards(played.0).add(dealt.0.to_multiset()).add(dealt.1.to_multiset())
                == fresh_decks(v).to_multiset()
            &&& crate::web::total_cards(played.0) + dealt.0.len() + dealt.1.len() == 52 * v
            &&& deck_lasts(opening_hand(deck, n as int), played.1) ==> hand_score(dealt.0) >= 17
            &&& played.1.len() >= 15 ==> hand_score(dealt.0) >= 17
            &&& played.0.len() == n
            &&& forall|i: int|
                0 <= i < n && i <= first_blackjack(opened) ==> #[trigger] next_seat(played.0, i) == (
                if i == first_blackjack(opened) || i + 1 >= n {
                    None::<usize>
                } else {
                    Some((i + 1) as usize)
                })
            &&& forall|j: int|
                first_blackjack(opened) <= j < n ==> #[trigger] played.0[j] == opening_hand(
                    deck,
                    j,
                )
        }),
{
    broadcast use vstd::multiset::group_multiset_axioms;
    broadcast use vstd::seq_lib::group_to_multiset_ensures;

    let opened = opening_hands(deck, n);
    let start = deck.subrange(0, deck.len() - 2 * n - 2);
    let played = hit_seats(opened, start, seats);
    let dealer = opening_hand(deck, n as int);
    let dealt = dealer_draws(dealer, played.1);
    let fb = first_blackjack(opened);
    lemma_first_blackjack(opened);
    assert forall|i: int| 0 <= i < seats.len() implies 0 <= #[trigger] seats[i] < opened.len() by {}
    lemma_hit_seats(opened, start, seats);
    law_seating_keeps_cards(deck, n);
    law_dealer_draws_keep_cards(dealer, played.1);
    vstd::seq_lib::lemma_multiset_commutative(dealt.0, dealt.1);
    vstd::seq_lib::lemma_multiset_commutative(dealer, played.1);
    lemma_fresh_decks_len(v);
    let hp = hands_cards(played.0);
    let ho = hands_cards(opened);
    assert forall|x: Card|
        #[trigger] hp.add(dealt.0.to_multiset()).add(dealt.1.to_multiset()).count(x) == ho.add(
            dealer.to_multiset(),
        ).add(start.to_multiset()).count(x) by {
        assert((dealt.0 + dealt.1).to_multiset().count(x) == (dealer + played.1).to_multiset().count(
            x,
        ));
        assert(hp.add(played.1.to_multiset()).count(x) == ho.add(start.to_multiset()).count(x));
    }
    assert(hp.add(dealt.0.to_multiset()).add(dealt.1.to_multiset()) =~= ho.add(
        dealer.to_multiset(),
    ).add(start.to_multiset()));
    lemma_hands_cards_len(played.0);
    assert(deck.to_multiset().len() == deck.len());
    assert(fresh_decks(v).to_multiset().len() == 52 * v);
    lemma_dealer_reaches_17(dealer, played.1);
    if played.1.len() >= 15 {
        lemma_deck_lasts(dealer, played.1);
    }
    assert forall|j: int| fb <= j < n implies #[trigger] played.0[j] == opening_hand(deck, j) by {
        assert forall|i: int| 0 <= i < seats.len() implies seats[i] != j by {}
    }
    assert forall|i: int| 0 <= i < n && i <= fb implies #[trigger] next_seat(played.0, i) == (if i
        == fb || i + 1 >= n {
        None::<usize>
    } else {
        Some((i + 1) as usize)
    }) by {
        if i < fb {
            assert(!crate::web::is_blackjack(opened[i]));
            if played.0[i].len() != opened[i].len() {
                assert(played.0[i].len() > 2);
            }
        }
    }
}

/// The length of `n` fresh decks.
proof fn lemma_fresh_decks_len(v: nat)
    ensures
        fresh_decks(v).len() == 52 * v,
{
}

/// The dealer stops at 17 or more whenever the deck lasts.
proof fn lemma_dealer_reaches_17(hand: Seq<Card>, deck: Seq<Card>)
    ensures
        deck_lasts(hand, deck) ==> hand_score(dealer_draws(hand, deck).0) >= 17,
    decreases deck.len(),
{
    if hand_score(hand) < 17 && deck.len() > 0 {
        lemma_dealer_reaches_17(hand.push(deck.last()), deck.drop_last());
    }
}

/// The score of a hand is a blackjack's 21 on two cards.
pub open spec fn two_card_21(hand: Seq<Card>) -> bool {
    hand_score(hand) == 21 && hand.len() == 2
}

/// Law: when the dealer is neither bust nor holding a blackjack and nobody
/// had a blackjack during the round, points decide: every player gets
/// exactly one line, in seat order; it says Won exactly when the player is
/// not over 21 and has more points than the dealer, Tied exactly when the
/// points are the same, and Lost exactly when the player is over 21 or has
/// fewer points than the dealer.
pub proof fn law_report_by_points(players: Seq<Player>, dealer: Seq<Card>)
    requires
        hand_score(dealer) <= 21,
        !two_card_21(dealer),
        players.len() <= usize::MAX,
    ensures
        game_report(players, dealer, false).len() == players.len(),
        forall|j: int|
            0 <= j < players.len() ==> {
                let v = #[trigger] game_report(players, dealer, false)[j];
                let ps = hand_score(players[j].hand_view());
                let ds = hand_score(dealer);
                &&& v.player == j
                &&& (v.outcome == Outcome::Won <==> ps <= 21 && ps > ds)
                &&& (v.outcome == Outcome::Tied <==> ps == ds)
                &&& (v.outcome == Outcome::Lost <==> ps > 21 || ps < ds)
            },
    decreases players.len(),
{
    if players.len() > 0 {
        let rest = players.drop_last();
        law_report_by_points(rest, dealer);
        assert forall|j: int| 0 <= j < rest.len() implies #[trigger] rest[j] == players[j] by {}
    }
}

/// Law: when the dealer is neither bust nor holding a blackjack but a player
/// had a blackjack during the round, every player gets exactly one line, in
/// seat order: Won exactly for a blackjack, Lost for everyone else.
pub proof fn law_report_after_blackjack(players: Seq<Player>, dealer: Seq<Card>)
    requires
        hand_score(dealer) <= 21,
        !two_card_21(dealer),
        players.len() <= usize::MAX,
    ensures
        game_report(players, dealer, true).len() == players.len(),
        forall|j: int|
            0 <= j < players.len() ==> {
                let v = #[trigger] game_report(players, dealer, true)[j];
                &&& v.player == j
                &&& (v.outcome == Outcome::Won <==> two_card_21(players[j].hand_view()))
                &&& (v.outcome == Outcome::Lost <==> !two_card_21(players[j].hand_view()))
            },
    decreases players.len(),
{
    if players.len() > 0 {
        let rest = players.drop_last();
        law_report_after_blackjack(rest, dealer);
        assert forall|j: int| 0 <= j < rest.len() implies #[trigger] rest[j] == players[j] by {}
    }
}

/// Every line of the report is one of the lines of the player it names.
proof fn lemma_report_member(players: Seq<Player>, dealer: Seq<Card>, bj: bool)
    requires
        players.len() <= usize::MAX,
    ensures
        forall|k: int|
            0 <= k < game_report(players, dealer, bj).len() ==> {
                let v = #[trigger] game_report(players, dealer, bj)[k];
                &&& 0 <= v.player < players.len()
                &&& player_lines(
                    v.player as nat,
                    players[v.player as int].hand_view(),
                    dealer,
                    bj,
                ).contains(v)
            },
    decreases players.len(),
{
    if players.len() > 0 {
        let rest = players.drop_last();
        lemma_report_member(rest, dealer, bj);
        let r = game_report(players, dealer, bj);
        let r0 = game_report(rest, dealer, bj);
        let last = player_lines(
            (players.len() - 1) as nat,
            players.last().hand_view(),
            dealer,
            bj,
        );
        assert forall|k: int| 0 <= k < r.len() implies {
            let v = #[trigger] r[k];
            &&& 0 <= v.player < players.len()
            &&& player_lines(v.player as nat, players[v.player as int].hand_view(), dealer, bj).contains(
                v,
            )
        } by {
            if k < r0.len() {
                assert(r[k] == r0[k]);
                assert(rest[r0[k].player as int] == players[r0[k].player as int]);
            } else {
                assert(r[k] == last[k - r0.len()]);
            }
        }
    }
}

/// Law: when the dealer is bust, no player ties; a line that says Won is for
/// a player who is not over 21, and a player over 21 is only ever told they
/// lost. When the dealer has a blackjack (and is not bust), no player wins,
/// and only a player with a blackjack is told they tied.
pub proof fn law_report_dealer_bust_or_blackjack(
    players: Seq<Player>,
    dealer: Seq<Card>,
    bj: bool,
    k: int,
)
    requires
        players.len() <= usize::MAX,
        0 <= k < game_report(players, dealer, bj).len(),
    ensures
        ({
            let v = game_report(players, dealer, bj)[k];
            let ps = hand_score(players[v.player as int].hand_view());
            let ds = hand_score(dealer);
            &&& 0 <= v.player < players.len()
            &&& ds > 21 ==> v.outcome != Outcome::Tied
            &&& ds > 21 && v.outcome == Outcome::Won ==> ps <= 21
            &&& ds > 21 && ps > 21 ==> v.outcome == Outcome::Lost
            &&& ds <= 21 && two_card_21(dealer) ==> v.outcome != Outcome::Won
            &&& ds <= 21 && two_card_21(dealer) && v.outcome == Outcome::Tied ==> two_card_21(
                players[v.player as int].hand_view(),
            )
        }),
{
    lemma_report_member(players, dealer, bj);
    let v = game_report(players, dealer, bj)[k];
    let lines = player_lines(v.player as nat, players[v.player as int].hand_view(), dealer, bj);
    assert(lines.contains(v));
    let i = choose|i: int| 0 <= i < lines.len() && lines[i] == v;
}

} // verus!
