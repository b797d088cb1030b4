use vstd::prelude::*;

use crate::card::Card;
use crate::deck::{fresh_decks, Deck};
use crate::player::{hand_score, raw_total, Player};
use crate::runner::{command_for, command_of, dealer_draws, dealer_turn, opening_hand, Command};
use crate::text::{
    lowercased, parse_usize, parses_as_usize, str_eq, to_lower, trim_text, trimmed, usize_value,
};

verus! {

/// A chat message: the room, who wrote it, and what they wrote.
#[derive(Clone, Debug)]
pub struct Message {
    pub room: String,
    pub username: String,
    pub message: String,
}

/// A message from the game's bot to the lobby.
pub fn bot(text: &str) -> (msg: Message)
    ensures
        msg.room@ == "lobby"@,
        msg.username@ == "bot"@,
        msg.message@ == text@,
{
    Message {
        room: String::from_str("lobby"),
        username: String::from_str("bot"),
        message: String::from_str(text),
    }
}

/// The chat game as data: where the conversation stands (`state`), which
/// reply is due (`respond`), whose turn it is (`iterator`), how many players
/// there are (`n_player`), the names and hands at the table (seat 0 is the
/// dealer) and the decks in play (only the first is dealt from).
pub struct TableView {
    pub state: u32,
    pub respond: u32,
    pub iterator: usize,
    pub n_player: usize,
    pub names: Seq<Seq<char>>,
    pub hands: Seq<Seq<Card>>,
    pub decks: Seq<Seq<Card>>,
}

/// The number of cards in all the hands.
pub open spec fn total_cards(hands: Seq<Seq<Card>>) -> nat
    decreases hands.len(),
{
    if hands.len() == 0 {
        0
    } else {
        total_cards(hands.drop_last()) + hands.last().len()
    }
}

/// Fewer cards than this in the deck and the hands together would mean the
/// table was set with fewer than six decks.
pub open spec fn six_decks() -> nat {
    312
}

impl TableView {
    /// The table as it is when the game is first opened or after a reset.
    pub open spec fn fresh(self) -> bool {
        &&& self.names.len() == 1
        &&& self.hands.len() == 1
        &&& self.hands[0].len() == 0
        &&& self.decks.len() == 0
        &&& self.iterator == 0
        &&& self.n_player == 0
    }

    /// A table with one deck in play, 1 to 7 players, hands of at most 21
    /// cards, and enough cards in deck and hands together for six decks.
    pub open spec fn table_ok(self) -> bool {
        &&& self.decks.len() == 1
        &&& 1 <= self.n_player <= 7
        &&& 1 <= self.hands.len() <= self.n_player + 1
        &&& self.names.len() == self.hands.len()
        &&& forall|j: int| 0 <= j < self.hands.len() ==> (#[trigger] self.hands[j]).len() <= 21
        &&& self.decks[0].len() + total_cards(self.hands) >= six_decks()
    }

    /// What holds in every state that the chat game can reach: it is what
    /// keeps every seat that the game looks at occupied and the deck from
    /// running out.
    pub open spec fn wf(self) -> bool {
        &&& self.names.len() == self.hands.len()
        &&& 1 <= self.hands.len() <= 8
        &&& self.iterator <= self.n_player <= 7
        &&& forall|j: int| 0 <= j < self.hands.len() ==> (#[trigger] self.hands[j]).len() <= 21
        &&& self.respond == 0 ==> self.fresh()
        &&& (self.state == 0 || self.state == 1 || self.state == 2) ==> self.fresh()
        &&& (self.state == 3 || self.state == 4) ==> {
            &&& self.hands.len() == 1
            &&& self.hands[0].len() == 0
            &&& self.decks.len() == 1
            &&& self.decks[0].len() >= six_decks()
            &&& self.iterator == 0
            &&& self.n_player == 0
        }
        &&& self.state == 5 ==> {
            &&& self.table_ok()
            &&& self.iterator < self.n_player
            &&& self.hands.len() == self.iterator + 1
            &&& self.hands[0].len() == 0
            &&& forall|j: int| 1 <= j < self.hands.len() ==> (#[trigger] self.hands[j]).len() == 2
        }
        &&& (self.state == 6 || self.state == 7) ==> {
            &&& self.table_ok()
            &&& self.iterator <= self.n_player
            &&& self.hands.len() == self.n_player + 1
            &&& self.hands[0].len() == 2
            &&& forall|j: int|
                self.iterator + 1 < j <= self.n_player ==> (#[trigger] self.hands[j]).len() == 2
        }
        &&& self.state == 6 ==> (self.iterator < self.n_player ==> self.hands[self.iterator + 1].len()
            == 2)
        &&& self.state == 7 ==> {
            &&& self.iterator < self.n_player
            &&& hand_score(self.hands[self.iterator + 1]) < 21
        }
        &&& self.state == 9 ==> {
            &&& self.table_ok()
            &&& self.hands.len() == self.n_player + 1
            &&& self.hands[0].len() == 2
        }
    }

    /// The same table with another state and reply.
    pub open spec fn status(self, state: u32, respond: u32) -> TableView {
        TableView { state, respond, ..self }
    }

    /// The deck that is dealt from.
    pub open spec fn deck(self) -> Seq<Card> {
        self.decks[0]
    }

    /// The seat `k` is dealt an opening hand from the top of the deck; the
    /// cards it held are gone.
    pub open spec fn deal_opening(self, k: int) -> TableView {
        TableView {
            hands: self.hands.update(k, opening_hand(self.deck(), 0)),
            decks: self.decks.update(0, self.deck().subrange(0, self.deck().len() - 2)),
            ..self
        }
    }

    /// The seat `k` takes the top card of the deck.
    pub open spec fn hit_seat(self, k: int) -> TableView {
        TableView {
            hands: self.hands.update(k, self.hands[k].push(self.deck().last())),
            decks: self.decks.update(0, self.deck().drop_last()),
            ..self
        }
    }

    /// The table as the game opens it, or resets it: the dealer alone, with
    /// no cards and no deck.
    pub open spec fn reset() -> TableView {
        TableView {
            state: 0,
            respond: 0,
            iterator: 0,
            n_player: 0,
            names: seq!["Dealer"@],
            hands: seq![Seq::<Card>::empty()],
            decks: Seq::empty(),
        }
    }
}

/// Whether a hand is a blackjack.
pub open spec fn is_blackjack(hand: Seq<Card>) -> bool {
    hand_score(hand) == 21 && hand.len() == 2
}

/// One step of the chat game on the text `input`, in the state the table is
/// in. `shuffled` stands for the order that shuffling gave the decks, which
/// only the step that sets up the decks uses.
///
/// 1: welcome, then ask for decks. 2: read 6 to 8 decks (200 if out of
/// range, 210 if not a number) and put them in play, shuffled. 3: game
/// started, ask for players. 4: read 1 to 7 players (220, 210). 5: seat the
/// next player under the trimmed name and deal them two cards; when all are
/// seated, deal the dealer two cards. 6: a player with a blackjack is
/// announced and passed; otherwise they play (7); after the last player the
/// dealer plays (9). 7: "h"/"hit" (in any case) takes a card: under 21 they
/// go on (8), at 21 (110) or over (120) the next player comes; "s"/"stand"
/// passes (130); anything else is refused (230). 9: the dealer draws to 17
/// and the outcome is announced (100 blackjack, 150 bust, 140 otherwise).
/// 10, 11: game finished, results. 100: reset. Any other state: 404.
pub open spec fn state_step(t: TableView, input: Seq<char>, shuffled: Seq<Card>) -> TableView {
    if t.state == 1 {
        t.status(2, 2)
    } else if t.state == 2 {
        if parses_as_usize(input) {
            let v = usize_value(input);
            if 6 <= v <= 8 {
                TableView { decks: t.decks.push(fresh_decks(v)).update(0, shuffled), ..t.status(3, 3) }
            } else {
                t.status(2, 200)
            }
        } else {
            t.status(2, 210)
        }
    } else if t.state == 3 {
        t.status(4, 4)
    } else if t.state == 4 {
        if parses_as_usize(input) {
            let v = usize_value(input);
            if 1 <= v <= 7 {
                TableView { n_player: v as usize, ..t.status(5, 5) }
            } else {
                t.status(4, 220)
            }
        } else {
            t.status(4, 210)
        }
    } else if t.state == 5 {
        let t1 = if t.iterator < t.n_player {
            let seated = TableView {
                names: t.names.push(trimmed(input)),
                hands: t.hands.push(Seq::empty()),
                ..t
            };
            TableView { iterator: (t.iterator + 1) as usize, ..seated.deal_opening(t.iterator + 1) }
        } else {
            t
        };
        if t1.iterator >= t1.n_player {
            TableView { iterator: 0, ..t1.deal_opening(0).status(6, 6) }
        } else {
            t1
        }
    } else if t.state == 6 {
        let t1 = if t.iterator < t.n_player {
            if is_blackjack(t.hands[t.iterator + 1]) {
                TableView { iterator: (t.iterator + 1) as usize, ..t.status(6, 100) }
            } else {
                t.status(7, 7)
            }
        } else {
            t
        };
        if t1.iterator >= t1.n_player {
            t1.status(9, 9)
        } else {
            t1
        }
    } else if t.state == 7 {
        let cmd = command_for(lowercased(input));
        if cmd == Command::Hit {
            let t1 = t.hit_seat(t.iterator + 1);
            let score = hand_score(t1.hands[t.iterator + 1]);
            if score < 21 {
                t1.status(7, 8)
            } else if score == 21 {
                TableView { iterator: (t.iterator + 1) as usize, ..t1.status(6, 110) }
            } else {
                TableView { iterator: (t.iterator + 1) as usize, ..t1.status(6, 120) }
            }
        } else if cmd == Command::Stand {
            TableView { iterator: (t.iterator + 1) as usize, ..t.status(6, 130) }
        } else {
            t.status(7, 230)
        }
    } else if t.state == 9 {
        let drawn = dealer_draws(t.hands[0], t.deck());
        let hand = drawn.0;
        let reply: u32 = if is_blackjack(hand) {
            100
        } else if hand_score(hand) == 21 {
            140
        } else if hand_score(hand) > 21 {
            150
        } else {
            140
        };
        TableView {
            hands: t.hands.update(0, hand),
            decks: t.decks.update(0, drawn.1),
            ..t.status(10, reply)
        }
    } else if t.state == 10 {
        t.status(11, 11)
    } else if t.state == 11 {
        t.status(100, 12)
    } else if t.state == 100 {
        TableView::reset()
    } else {
        t.status(t.state, 404)
    }
}

/// Whether the step in state 2 on `input` sets up the decks.
pub open spec fn sets_up_decks(t: TableView, input: Seq<char>) -> bool {
    t.state == 2 && parses_as_usize(input) && 6 <= usize_value(input) <= 8
}

/// The chat game's data as the program holds it.
pub struct WebState {
    pub state: u32,
    pub respond: u32,
    pub iterator: usize,
    pub n_player: usize,
    pub players: Vec<Player>,
    pub decks: Vec<Deck>,
}

impl View for WebState {
    type V = TableView;

    open spec fn view(&self) -> TableView {
        TableView {
            state: self.state,
            respond: self.respond,
            iterator: self.iterator,
            n_player: self.n_player,
            names: self.players@.map_values(|p: Player| p.name_view()),
            hands: self.players@.map_values(|p: Player| p.hand_view()),
            decks: self.decks@.map_values(|d: Deck| d@),
        }
    }
}

/// Replacing one hand changes the card count by the difference.
proof fn lemma_total_update(hands: Seq<Seq<Card>>, k: int, h: Seq<Card>)
    requires
        0 <= k < hands.len(),
    ensures
        total_cards(hands.update(k, h)) + hands[k].len() == total_cards(hands) + h.len(),
    decreases hands.len(),
{
    let u = hands.update(k, h);
    if k == hands.len() - 1 {
        assert(u.drop_last() =~= hands.drop_last());
    } else {
        assert(u.drop_last() =~= hands.drop_last().update(k, h));
        lemma_total_update(hands.drop_last(), k, h);
    }
}

/// Adding a hand adds its cards to the count.
proof fn lemma_total_push(hands: Seq<Seq<Card>>, h: Seq<Card>)
    ensures
        total_cards(hands.push(h)) == total_cards(hands) + h.len(),
{
    assert(hands.push(h).drop_last() =~= hands);
}

/// Hands of at most 21 cards hold at most 21 cards each.
proof fn lemma_total_bound(hands: Seq<Seq<Card>>)
    requires
        forall|j: int| 0 <= j < hands.len() ==> (#[trigger] hands[j]).len() <= 21,
    ensures
        total_cards(hands) <= 21 * hands.len(),
    decreases hands.len(),
{
    if hands.len() > 0 {
        assert forall|j: int| 0 <= j < hands.drop_last().len() implies (
        #[trigger] hands.drop_last()[j]).len() <= 21 by {
            assert(hands.drop_last()[j] == hands[j]);
        }
        lemma_total_bound(hands.drop_last());
    }
}

/// Two cards never score over 21: two aces count 12.
proof fn lemma_two_cards_at_most_21(hand: Seq<Card>)
    requires
        hand.len() == 2,
    ensures
        hand_score(hand) <= 21,
{
    let rest = hand.drop_first();
    assert(rest.drop_first().len() == 0);
    assert(rest.first() == hand[1]);
    assert(raw_total(rest.drop_first()) == 0);
    assert(crate::player::ace_count(rest.drop_first()) == 0);
    let p0 = crate::card::rank_points(hand[0].rank);
    let p1 = crate::card::rank_points(hand[1].rank);
    assert(raw_total(rest) == p1);
    assert(raw_total(hand) == p0 + p1);
    let raw = raw_total(hand) as int;
    let aces = crate::player::ace_count(hand);
    if raw > 21 {
        assert(hand[0].rank == crate::card::Rank::Ace);
        assert(hand[1].rank == crate::card::Rank::Ace);
        assert(crate::player::ace_count(rest) == 1);
        assert(aces == 2);
        assert(raw == 22);
        assert(crate::player::lowered(12, 1) == 12);
        assert(crate::player::lowered(22, 2) == crate::player::lowered(12, 1));
    }
}

/// The dealer's turn moves cards from the deck to the hand, and stops with
/// at most 17 cards in hand if it started with at most 17.
proof fn lemma_dealer_draws(hand: Seq<Card>, deck: Seq<Card>)
    requires
        hand.len() <= 17,
    ensures
        dealer_draws(hand, deck).0.len() + dealer_draws(hand, deck).1.len() == hand.len() + deck.len(),
        dealer_draws(hand, deck).0.len() <= 17,
    decreases deck.len(),
{
    if hand_score(hand) < 17 && deck.len() > 0 {
        crate::player::lemma_score_at_least_len(hand);
        lemma_dealer_draws(hand.push(deck.last()), deck.drop_last());
    }
}

/// The deck is never dealt from empty when the table is sound.
proof fn lemma_deck_has_cards(t: TableView)
    requires
        t.table_ok(),
    ensures
        t.deck().len() >= six_decks() - 21 * 8,
{
    lemma_total_bound(t.hands);
}

/// Setting up the decks and seating the players keep the game sound.
proof fn lemma_setup_steps_keep_wf(t: TableView, input: Seq<char>, shuffled: Seq<Card>)
    requires
        t.wf(),
        t.state <= 5,
        sets_up_decks(t, input) ==> shuffled.len() == 52 * usize_value(input),
    ensures
        state_step(t, input, shuffled).wf(),
{
    let n = state_step(t, input, shuffled);
    if t.state == 2 && sets_up_decks(t, input) {
        assert(n.decks =~= seq![shuffled]);
    } else if t.state == 4 && parses_as_usize(input) && 1 <= usize_value(input) <= 7 {
        assert(t.hands.drop_last().len() == 0);
        assert(total_cards(t.hands.drop_last()) == 0);
        assert(total_cards(t.hands) == 0);
    } else if t.state == 5 {
        lemma_deck_has_cards(t);
        let seated_hands = t.hands.push(Seq::<Card>::empty());
        lemma_total_push(t.hands, Seq::<Card>::empty());
        lemma_total_update(seated_hands, t.iterator + 1, opening_hand(t.deck(), 0));
        let h1 = seated_hands.update(t.iterator + 1, opening_hand(t.deck(), 0));
        let d1 = t.deck().subrange(0, t.deck().len() - 2);
        if t.iterator + 1 >= t.n_player {
            lemma_total_update(h1, 0, opening_hand(d1, 0));
            assert(n.hands =~= h1.update(0, opening_hand(d1, 0)));
        } else {
            assert(n.hands =~= h1);
        }
    }
}

/// The players' and the dealer's turns keep the game sound.
proof fn lemma_play_steps_keep_wf(t: TableView, input: Seq<char>, shuffled: Seq<Card>)
    requires
        t.wf(),
        t.state > 5,
    ensures
        state_step(t, input, shuffled).wf(),
{
    let n = state_step(t, input, shuffled);
    if t.state == 6 {
        if t.iterator < t.n_player {
            lemma_two_cards_at_most_21(t.hands[t.iterator + 1]);
        }
    } else if t.state == 7 {
        let k = t.iterator + 1;
        let cmd = command_for(lowercased(input));
        if cmd == Command::Hit {
            lemma_deck_has_cards(t);
            crate::player::lemma_score_at_least_len(t.hands[k]);
            lemma_total_update(t.hands, k, t.hands[k].push(t.deck().last()));
            let h1 = t.hands.update(k, t.hands[k].push(t.deck().last()));
            assert forall|j: int| 0 <= j < h1.len() implies (#[trigger] h1[j]).len() <= 21 by {
                if j != k {
                    assert(h1[j] == t.hands[j]);
                }
            }
        }
    } else if t.state == 9 {
        lemma_dealer_draws(t.hands[0], t.deck());
        let drawn = dealer_draws(t.hands[0], t.deck());
        lemma_total_update(t.hands, 0, drawn.0);
        let h1 = t.hands.update(0, drawn.0);
        assert forall|j: int| 0 <= j < h1.len() implies (#[trigger] h1[j]).len() <= 21 by {
            if j != 0 {
                assert(h1[j] == t.hands[j]);
            }
        }
    }
}

/// Law: every step of the chat game keeps it sound (see `TableView::wf`):
/// a seat that the game looks at is always occupied and the deck never runs
/// out, whatever the players type. The decks shuffled in state 2 need only
/// have the right number of cards.
pub proof fn law_state_step_keeps_wf(t: TableView, input: Seq<char>, shuffled: Seq<Card>)
    requires
        t.wf(),
        sets_up_decks(t, input) ==> shuffled.len() == 52 * usize_value(input),
    ensures
        state_step(t, input, shuffled).wf(),
{
    if t.state <= 5 {
        lemma_setup_steps_keep_wf(t, input, shuffled);
    } else {
        lemma_play_steps_keep_wf(t, input, shuffled);
    }
}

/// The first deck of a table, which is where a shuffle shows.
pub open spec fn shuffled_of(t: TableView) -> Seq<Card> {
    if t.decks.len() > 0 {
        t.decks[0]
    } else {
        Seq::empty()
    }
}

impl WebState {
    /// The table as the game opens it: the dealer alone.
    pub fn new() -> (st: WebState)
        ensures
            st@ == TableView::reset(),
    {
        let mut players: Vec<Player> = Vec::new();
        players.push(Player::new(String::from_str("Dealer")));
        let st = WebState {
            state: 0,
            respond: 0,
            iterator: 0,
            n_player: 0,
            players,
            decks: Vec::new(),
        };
        assert(st@.names =~= seq!["Dealer"@]);
        assert(st@.hands =~= seq![Seq::<Card>::empty()]);
        assert(st@.decks =~= Seq::<Seq<Card>>::empty());
        st
    }

    /// Deals seat `k` an opening hand from the first deck.
    fn deal_opening_to(&mut self, k: usize)
        requires
            k < old(self).players@.len(),
            old(self).decks@.len() >= 1,
            old(self).decks@[0]@.len() >= 2,
        ensures
            final(self)@ == old(self)@.deal_opening(k as int),
    {
        let ghost t = self@;
        let mut deck = self.decks.remove(0);
        let mut p = self.players.remove(k);
        p.initial_r(&mut deck);
        self.players.insert(k, p);
        self.decks.insert(0, deck);
        assert(self@.names =~= t.names);
        assert(self@.hands =~= t.deal_opening(k as int).hands);
        assert(self@.decks =~= t.deal_opening(k as int).decks);
    }

    /// Seat `k` takes the top card of the first deck.
    fn hit_seat(&mut self, k: usize)
        requires
            k < old(self).players@.len(),
            old(self).decks@.len() >= 1,
            old(self).decks@[0]@.len() >= 1,
        ensures
            final(self)@ == old(self)@.hit_seat(k as int),
    {
        let ghost t = self@;
        let mut deck = self.decks.remove(0);
        let mut p = self.players.remove(k);
        p.hit(&mut deck);
        self.players.insert(k, p);
        self.decks.insert(0, deck);
        assert(self@.names =~= t.names);
        assert(self@.hands =~= t.hit_seat(k as int).hands);
        assert(self@.decks =~= t.hit_seat(k as int).decks);
    }

    /// The steps that set the game up (states 1 to 5).
    fn setup_step(&mut self, input: &str)
        requires
            old(self)@.wf(),
            1 <= old(self).state <= 5,
        ensures
            final(self)@ == state_step(old(self)@, input@, shuffled_of(final(self)@)),
            sets_up_decks(old(self)@, input@) ==> {
                &&& final(self)@.decks[0].len() == 52 * usize_value(input@)
                &&& final(self)@.decks[0].to_multiset() == fresh_decks(
                    usize_value(input@),
                ).to_multiset()
            },
    {
        let ghost t = self@;
        if self.state == 1 {
            self.state = 2;
            self.respond = 2;
        } else if self.state == 2 {
            match parse_usize(input) {
                Some(val) => {
                    if val >= 6 && val <= 8 {
                        self.state = 3;
                        self.respond = 3;
                        self.decks.push(Deck::new(val));
                        let mut deck = self.decks.remove(0);
                        deck.shuffle();
                        self.decks.insert(0, deck);
                        assert(self@.decks =~= t.decks.push(fresh_decks(val as nat)).update(
                            0,
                            shuffled_of(self@),
                        ));
                    } else {
                        self.respond = 200;
                    }
                },
                None => {
                    self.respond = 210;
                },
            }
        } else if self.state == 3 {
            self.state = 4;
            self.respond = 4;
        } else if self.state == 4 {
            match parse_usize(input) {
                Some(val) => {
                    if val >= 1 && val <= 7 {
                        self.state = 5;
                        self.respond = 5;
                        self.n_player = val;
                    } else {
                        self.respond = 220;
                    }
                },
                None => {
                    self.respond = 210;
                },
            }
        } else {
            proof {
                lemma_deck_has_cards(t);
            }
            if self.iterator < self.n_player {
                let name = trim_text(input);
                self.players.push(Player::new(String::from_str(name)));
                let ghost seated = TableView {
                    names: t.names.push(trimmed(input@)),
                    hands: t.hands.push(Seq::empty()),
                    ..t
                };
                assert(self@.names =~= seated.names);
                assert(self@.hands =~= seated.hands);
                self.deal_opening_to(self.iterator + 1);
                self.iterator = self.iterator + 1;
            }
            assert(self@.decks.len() == self.decks@.len());
            assert(self@.decks[0] == self.decks@[0]@);
            assert(self@.hands.len() == self.players@.len());
            if self.iterator >= self.n_player {
                self.deal_opening_to(0);
                self.state = 6;
                self.respond = 6;
                self.iterator = 0;
            }
        }
    }

    /// The steps that play the game (states 6 to 9).
    fn play_step(&mut self, input: &str)
        requires
            old(self)@.wf(),
            old(self).state == 6 || old(self).state == 7 || old(self).state == 9,
        ensures
            final(self)@ == state_step(old(self)@, input@, shuffled_of(final(self)@)),
    {
        let ghost t = self@;
        proof {
            lemma_deck_has_cards(t);
        }
        if self.state == 6 {
            if self.iterator < self.n_player {
                let k = self.iterator + 1;
                proof {
                    crate::player::lemma_raw_total_bound(t.hands[k as int]);
                }
                if self.players[k].has_black_jack() {
                    self.respond = 100;
                    self.iterator = self.iterator + 1;
                } else {
                    self.state = 7;
                    self.respond = 7;
                }
            }
            if self.iterator >= self.n_player {
                self.state = 9;
                self.respond = 9;
            }
        } else if self.state == 7 {
            let lower = to_lower(input);
            let cmd = command_of(lower.as_str());
            let k = self.iterator + 1;
            match cmd {
                Command::Hit => {
                    proof {
                        crate::player::lemma_score_at_least_len(t.hands[k as int]);
                    }
                    self.hit_seat(k);
                    proof {
                        crate::player::lemma_raw_total_bound(self@.hands[k as int]);
                    }
                    let score = self.players[k].get_score();
                    if score < 21 {
                        self.respond = 8;
                    } else if score == 21 {
                        self.state = 6;
                        self.respond = 110;
                        self.iterator = self.iterator + 1;
                    } else {
                        self.state = 6;
                        self.respond = 120;
                        self.iterator = self.iterator + 1;
                    }
                },
                Command::Stand => {
                    self.state = 6;
                    self.respond = 130;
                    self.iterator = self.iterator + 1;
                },
                Command::Invalid => {
                    self.respond = 230;
                },
            }
        } else {
            proof {
                crate::runner::lemma_deck_lasts(t.hands[0], t.deck());
                crate::player::lemma_raw_total_bound(t.hands[0]);
            }
            let mut deck = self.decks.remove(0);
            let mut dealer = self.players.remove(0);
            dealer_turn(&mut dealer, &mut deck);
            self.players.insert(0, dealer);
            self.decks.insert(0, deck);
            let ghost drawn = dealer_draws(t.hands[0], t.deck());
            assert(self@.names =~= t.names);
            assert(self@.hands =~= t.hands.update(0, drawn.0));
            assert(self@.decks =~= t.decks.update(0, drawn.1));
            proof {
                crate::player::lemma_raw_total_bound(drawn.0);
            }
            self.state = 10;
            if self.players[0].has_black_jack() {
                self.respond = 100;
            } else if self.players[0].get_score() == 21 {
                self.respond = 140;
            } else if self.players[0].get_score() > 21 {
                self.respond = 150;
            } else {
                self.respond = 140;
            }
        }
    }

    /// One step of the chat game on the text the player sent (see
    /// `state_step`).
    pub fn state(&mut self, input: &str)
        requires
            old(self)@.wf(),
        ensures
            final(self)@ == state_step(old(self)@, input@, shuffled_of(final(self)@)),
            final(self)@.wf(),
            sets_up_decks(old(self)@, input@) ==> {
                &&& final(self)@.decks[0].len() == 52 * usize_value(input@)
                &&& final(self)@.decks[0].to_multiset() == fresh_decks(
                    usize_value(input@),
                ).to_multiset()
            },
    {
        let ghost t = self@;
        if self.state >= 1 && self.state <= 5 {
            self.setup_step(input);
        } else if self.state == 6 || self.state == 7 || self.state == 9 {
            self.play_step(input);
        } else if self.state == 10 {
            self.state = 11;
            self.respond = 11;
        } else if self.state == 11 {
            self.state = 100;
            self.respond = 12;
        } else if self.state == 100 {
            *self = WebState::new();
        } else {
            self.respond = 404;
        }
        proof {
            law_state_step_keeps_wf(t, input@, shuffled_of(self@));
        }
    }
}

/// The chat game after a message is posted: the step of the game is taken
/// on it unless the game is idle (state 0); then "Dealer" sets the reply to
/// 15, "State" to 404, and "Rest" sends the game to its reset (state 100).
pub open spec fn post_step(t: TableView, msg: Seq<char>, shuffled: Seq<Card>) -> TableView {
    let t1 = if t.state != 0 {
        state_step(t, msg, shuffled)
    } else {
        t
    };
    if msg == "Dealer"@ {
        t1.status(t1.state, 15)
    } else if msg == "State"@ {
        t1.status(t1.state, 404)
    } else if msg == "Rest"@ {
        t1.status(100, t1.respond)
    } else {
        t1
    }
}

/// The chat game after a message reaches the event stream, and the reply it
/// sends after echoing the message: "blackjack" (in any case) starts the game
/// when no reply is due; when one is due, "quit" aborts the game (reply 0)
/// and anything else gets the reply that is due.
pub open spec fn event_step(t: TableView, msg: Seq<char>) -> (TableView, Option<u32>) {
    if t.respond == 0 && lowercased(msg) == "blackjack"@ {
        (t.status(1, t.respond), Some(1u32))
    } else if t.respond != 0 {
        if msg == "quit"@ {
            (t.status(100, t.respond), Some(0u32))
        } else {
            (t, Some(t.respond))
        }
    } else {
        (t, None)
    }
}

/// Law: posting a message keeps the chat game sound.
pub proof fn law_post_step_keeps_wf(t: TableView, msg: Seq<char>, shuffled: Seq<Card>)
    requires
        t.wf(),
        t.state != 0 && sets_up_decks(t, msg) ==> shuffled.len() == 52 * usize_value(msg),
    ensures
        post_step(t, msg, shuffled).wf(),
{
    if t.state != 0 {
        law_state_step_keeps_wf(t, msg, shuffled);
    }
}

/// Law: the event stream keeps the chat game sound.
pub proof fn law_event_step_keeps_wf(t: TableView, msg: Seq<char>)
    requires
        t.wf(),
    ensures
        event_step(t, msg).0.wf(),
{
}

/// Cards shown in a row: "A of Hearts, 10 of Spades".
pub open spec fn cards_text(hand: Seq<Card>) -> Seq<char>
    decreases hand.len(),
{
    if hand.len() <= 1 {
        if hand.len() == 1 {
            crate::card::card_text(hand[0])
        } else {
            Seq::empty()
        }
    } else {
        cards_text(hand.drop_last()) + ", "@ + crate::card::card_text(hand.last())
    }
}

/// Shows a player's cards in a row.
pub fn show_cards(player: &Player) -> (text: String)
    requires
        player.hand_view().len() >= 1,
    ensures
        text@ == cards_text(player.hand_view()),
{
    let hand = player.get_hand();
    let mut text = hand[0].to_text();
    let mut i: usize = 1;
    assert(hand@.take(1).drop_last().len() == 0);
    assert(cards_text(hand@.take(1)) == crate::card::card_text(hand@[0]));
    while i < hand.len()
        invariant
            1 <= i <= hand@.len(),
            text@ == cards_text(hand@.take(i as int)),
        decreases hand@.len() - i,
    {
        text.append(", ");
        let card = hand[i].to_text();
        text.append(card.as_str());
        assert(hand@.take(i + 1).drop_last() =~= hand@.take(i as int));
        i = i + 1;
    }
    assert(hand@.take(hand@.len() as int) =~= hand@);
    text
}

/// How a seated player did against the dealer in the chat game. A dealer
/// blackjack ties with a player blackjack and beats everything else; a bust
/// dealer loses to every player who is not bust and ties with those who are;
/// otherwise a player not bust with more points wins, the same points tie,
/// and anything else loses.
pub open spec fn web_outcome(hand: Seq<Card>, dealer: Seq<Card>) -> crate::runner::Outcome {
    if is_blackjack(dealer) {
        if is_blackjack(hand) {
            crate::runner::Outcome::Tied
        } else {
            crate::runner::Outcome::Lost
        }
    } else if hand_score(dealer) > 21 {
        if hand_score(hand) <= 21 {
            crate::runner::Outcome::Won
        } else {
            crate::runner::Outcome::Tied
        }
    } else if hand_score(hand) <= 21 && hand_score(hand) > hand_score(dealer) {
        crate::runner::Outcome::Won
    } else if hand_score(hand) == hand_score(dealer) {
        crate::runner::Outcome::Tied
    } else {
        crate::runner::Outcome::Lost
    }
}

/// The names of the seated players among seats 1 to `k - 1` whose outcome is
/// `o`, in seat order.
pub open spec fn outcome_names(
    names: Seq<Seq<char>>,
    hands: Seq<Seq<Card>>,
    o: crate::runner::Outcome,
    k: int,
) -> Seq<Seq<char>>
    decreases k,
{
    if k <= 1 {
        Seq::empty()
    } else {
        outcome_names(names, hands, o, k - 1) + (if web_outcome(hands[k - 1], hands[0]) == o {
            seq![names[k - 1]]
        } else {
            Seq::empty()
        })
    }
}

/// Law: at the end of the chat game every seated player is announced in
/// exactly one of the winners, the ties and the losers.
pub proof fn law_results_partition_players(names: Seq<Seq<char>>, hands: Seq<Seq<Card>>, k: int)
    requires
        k >= 1,
    ensures
        outcome_names(names, hands, crate::runner::Outcome::Won, k).len() + outcome_names(
            names,
            hands,
            crate::runner::Outcome::Tied,
            k,
        ).len() + outcome_names(names, hands, crate::runner::Outcome::Lost, k).len() == k - 1,
    decreases k,
{
    if k > 1 {
        law_results_partition_players(names, hands, k - 1);
    }
}

/// What follows the `i`-th of `n` names in a list: ", and " before the last,
/// ", " between the others, nothing after the last. Positions are compared as
/// 8-bit signed numbers, so lists of 128 names or more are punctuated as
/// their wrapped positions say.
pub open spec fn separator(i: int, n: int) -> Seq<char> {
    if (i as i8) as int == (n as i8) as int - 2 {
        ", and "@
    } else if i != n - 1 {
        ", "@
    } else {
        Seq::empty()
    }
}

/// The first `k` of the names, each with what follows it.
pub open spec fn list_prefix(names: Seq<Seq<char>>, k: int) -> Seq<char>
    decreases k,
{
    if k <= 0 {
        Seq::empty()
    } else {
        list_prefix(names, k - 1) + names[k - 1] + separator(k - 1, names.len() as int)
    }
}

/// Names in a list: "Ann, Bob, and Cid".
pub open spec fn list_text(names: Seq<Seq<char>>) -> Seq<char> {
    list_prefix(names, names.len() as int)
}

/// Writes names in a list (see `list_text`).
pub fn join_names(names: &Vec<String>) -> (text: String)
    requires
        (names@.len() as i8) >= -126,
    ensures
        text@ == list_text(names@.map_values(|s: String| s@)),
{
    let ghost ns = names@.map_values(|s: String| s@);
    let n = names.len();
    let n8 = n as i8;
    let mut text = String::new();
    let mut i: usize = 0;
    while i < n
        invariant
            i <= n,
            n == names@.len(),
            n8 == n as i8,
            n8 >= -126,
            ns == names@.map_values(|s: String| s@),
            text@ == list_prefix(ns, i as int),
        decreases n - i,
    {
        text.append(names[i].as_str());
        if (i as i8) == n8 - 2 {
            text.append(", and ");
        } else if i != n - 1 {
            text.append(", ");
        }
        i = i + 1;
    }
    text
}

/// The announcement of the results: who won, who tied with the dealer, who
/// lost.
pub open spec fn results_text(t: TableView) -> Seq<char> {
    let n = t.hands.len() as int;
    let w = outcome_names(t.names, t.hands, crate::runner::Outcome::Won, n);
    let d = outcome_names(t.names, t.hands, crate::runner::Outcome::Tied, n);
    let l = outcome_names(t.names, t.hands, crate::runner::Outcome::Lost, n);
    list_text(w) + (if w.len() != 0 {
        " won!\t:)\t"@
    } else {
        Seq::empty()
    }) + list_text(d) + (if d.len() != 0 {
        " tied with Dealer!\t:|\t"@
    } else {
        Seq::empty()
    }) + list_text(l) + (if l.len() != 0 {
        " lost!\t:("@
    } else {
        Seq::empty()
    })
}

/// The points of a hand as text.
pub open spec fn score_text(hand: Seq<Card>) -> Seq<char> {
    crate::text::decimal_text(hand_score(hand) as nat)
}

/// Whether reply `code` can be written for the table: every seat and card
/// that it shows is there.
pub open spec fn respond_ok(t: TableView, code: u32) -> bool {
    let k = t.iterator + 1;
    if code == 6 || code == 140 || code == 150 {
        t.hands[0].len() >= 1
    } else if code == 7 || code == 100 {
        k < t.hands.len() && t.hands[k].len() >= 2 && (code == 100 ==> t.iterator < t.hands.len())
    } else if code == 8 {
        k < t.hands.len() && t.hands[k].len() >= 1
    } else if code == 110 || code == 120 {
        t.iterator < t.hands.len() && t.hands[t.iterator as int].len() >= 1
    } else if code == 130 {
        t.iterator < t.hands.len()
    } else {
        true
    }
}

/// The text of reply `code` for the table.
pub open spec fn reply_text(t: TableView, code: u32) -> Seq<char> {
    let k = t.iterator + 1;
    let it = t.iterator as int;
    let card = |c: Card| crate::card::card_text(c);
    if code == 5 {
        "Player "@ + crate::text::decimal_text(k as nat) + ", please, enter your name."@
    } else if code == 6 {
        "The first card of the dealer is "@ + card(t.hands[0][0]) + "\t(Type anything to continue)"@
    } else if code == 7 {
        t.names[k] + "'s cards are:\n"@ + card(t.hands[k][0]) + " and "@ + card(t.hands[k][1])
            + " ("@ + score_text(t.hands[k]) + " points)"@ + "\tWhat do you want to do?\t(h)it, (s)tand"@
    } else if code == 8 {
        "Now, your cards are: "@ + cards_text(t.hands[k]) + " ("@ + score_text(t.hands[k])
            + " points)"@ + "\tWhat do you want to do?\t(h)it, (s)tand"@
    } else if code == 12 {
        results_text(t)
    } else if code == 100 {
        t.names[it] + "'s cards are:\n"@ + card(t.hands[k][0]) + " and "@ + card(t.hands[k][1])
            + " ("@ + score_text(t.hands[k]) + " points)"@ + "\tBLACKJACK!\t(Type anything to continue)"@
    } else if code == 110 {
        "Now, "@ + t.names[it] + "'s cards are: "@ + cards_text(t.hands[it]) + " ("@ + score_text(
            t.hands[it],
        ) + " points)"@ + "\tYOU GOT 21 POINTS!\t(Type anything to continue)"@
    } else if code == 120 {
        "Now, "@ + t.names[it] + "'s cards are: "@ + cards_text(t.hands[it]) + " ("@ + score_text(
            t.hands[it],
        ) + " points)"@ + "\tBUST :( "@ + t.names[it] + " lost!\t\t(Type anything to continue)"@
    } else if code == 130 {
        t.names[it] + " stood\t(Type anything to continue)"@
    } else if code == 140 {
        "Dealer's cards are: "@ + cards_text(t.hands[0]) + " ("@ + score_text(t.hands[0])
            + " points)"@ + "\tDealer stood\t(Type anything to continue)"@
    } else if code == 150 {
        "Dealer's cards are: "@ + cards_text(t.hands[0]) + " ("@ + score_text(t.hands[0])
            + " points)"@ + "\tBUST :(\t\t(Type anything to continue)"@
    } else if code == 0 {
        "Game aborted."@
    } else if code == 1 {
        "Welcome to BlackJack! Enter \"quit\" to leave the game\t(Type anything to continue)"@
    } else if code == 2 {
        "How many decks do you wanna use? (6-8)"@
    } else if code == 3 {
        "####### Game Started! #######\t(Type anything to continue)"@
    } else if code == 4 {
        "How many players are playing? (1-7)"@
    } else if code == 9 {
        "Dealer's turn...\t(Type anything to continue)"@
    } else if code == 11 {
        "####### Game Finished #######\t(Type anything to continue)"@
    } else if code == 200 {
        "The number of decks must be between 6 and 8\t(Enter \"quit\" to leave the game)"@
    } else if code == 210 {
        "Expect integer input\t(Enter \"quit\" to leave the game)"@
    } else if code == 220 {
        "The number of players must be between 1 and 7\t(Enter \"quit\" to leave the game)"@
    } else if code == 230 {
        "Invalid command!\tAvailable Commands: (h)it, (s)tand\t(Enter \"quit\" to leave the game)"@
    } else {
        "Error! STATE: "@ + crate::text::decimal_text(t.state as nat) + "\tRESPOND: "@
            + crate::text::decimal_text(t.respond as nat) + "\t Please restart program."@
    }
}

/// Adds a name to a list of names.
fn push_name(list: &mut Vec<String>, name: &str)
    ensures
        final(list)@.len() == old(list)@.len() + 1,
        final(list)@.map_values(|s: String| s@) == old(list)@.map_values(|s: String| s@).push(name@),
{
    list.push(String::from_str(name));
    assert(final(list)@.map_values(|s: String| s@) =~= old(list)@.map_values(|s: String| s@).push(
        name@,
    ));
}

/// Appends a hand's score to a text.
fn append_score(text: &mut String, player: &Player)
    requires
        player.score_fits(),
    ensures
        final(text)@ == old(text)@ + score_text(player.hand_view()),
{
    let score = player.get_score();
    let digits = crate::text::decimal(score as u64);
    text.append(digits.as_str());
}

impl WebState {
    /// The announcement of the results (see `results_text`).
    pub fn results(&self) -> (text: String)
        requires
            self@.wf(),
        ensures
            text@ == results_text(self@),
    {
        let ghost t = self@;
        let n = self.players.len();
        let mut winner: Vec<String> = Vec::new();
        let mut tie: Vec<String> = Vec::new();
        let mut lost: Vec<String> = Vec::new();
        let dealer = &self.players[0];
        proof {
            crate::player::lemma_raw_total_bound(t.hands[0]);
        }
        let d_bj = dealer.has_black_jack();
        let d_bust = dealer.bust();
        let d_score = dealer.get_score();
        let mut i: usize = 1;
        while i < n
            invariant
                1 <= i <= n,
                n == self.players@.len(),
                n == t.hands.len(),
                t == self@,
                t.wf(),
                d_bj == is_blackjack(t.hands[0]),
                d_bust == (hand_score(t.hands[0]) > 21),
                d_score == hand_score(t.hands[0]),
                winner@.map_values(|s: String| s@) == outcome_names(
                    t.names,
                    t.hands,
                    crate::runner::Outcome::Won,
                    i as int,
                ),
                tie@.map_values(|s: String| s@) == outcome_names(
                    t.names,
                    t.hands,
                    crate::runner::Outcome::Tied,
                    i as int,
                ),
                lost@.map_values(|s: String| s@) == outcome_names(
                    t.names,
                    t.hands,
                    crate::runner::Outcome::Lost,
                    i as int,
                ),
                winner@.len() < i,
                tie@.len() < i,
                lost@.len() < i,
            decreases n - i,
        {
            let p = &self.players[i];
            proof {
                crate::player::lemma_raw_total_bound(t.hands[i as int]);
            }
            let name = p.get_name();
            if d_bj {
                if p.has_black_jack() {
                    push_name(&mut tie, name);
                } else {
                    push_name(&mut lost, name);
                }
            } else if d_bust {
                if !p.bust() {
                    push_name(&mut winner, name);
                } else {
                    push_name(&mut tie, name);
                }
            } else {
                if !p.bust() && p.get_score() > d_score {
                    push_name(&mut winner, name);
                } else if p.get_score() == d_score {
                    push_name(&mut tie, name);
                } else {
                    push_name(&mut lost, name);
                }
            }
            i = i + 1;
        }
        let mut end = join_names(&winner);
        if winner.len() != 0 {
            end.append(" won!\t:)\t");
        }
        let ties = join_names(&tie);
        end.append(ties.as_str());
        if tie.len() != 0 {
            end.append(" tied with Dealer!\t:|\t");
        }
        let losers = join_names(&lost);
        end.append(losers.as_str());
        if lost.len() != 0 {
            end.append(" lost!\t:(");
        }
        end
    }

    /// The text of reply `code` (see `reply_text`).
    pub fn reply(&self, code: u32) -> (text: String)
        requires
            self@.wf(),
            respond_ok(self@, code),
        ensures
            text@ == reply_text(self@, code),
    {
        let ghost t = self@;
        let k = self.iterator + 1;
        let it = self.iterator;
        if code == 5 {
            let mut text = String::from_str("Player ");
            let num = crate::text::decimal(k as u64);
            text.append(num.as_str());
            text.append(", please, enter your name.");
            text
        } else if code == 6 {
            let mut text = String::from_str("The first card of the dealer is ");
            let card = self.players[0].get_hand()[0].to_text();
            text.append(card.as_str());
            text.append("\t(Type anything to continue)");
            text
        } else if code == 7 || code == 100 {
            proof {
                crate::player::lemma_raw_total_bound(t.hands[k as int]);
            }
            let p = &self.players[k];
            let hand = p.get_hand();
            let mut text = if code == 7 {
                String::from_str(p.get_name())
            } else {
                String::from_str(self.players[it].get_name())
            };
            text.append("'s cards are:\n");
            let first = hand[0].to_text();
            text.append(first.as_str());
            text.append(" and ");
            let second = hand[1].to_text();
            text.append(second.as_str());
            text.append(" (");
            append_score(&mut text, p);
            if code == 7 {
                text.append(" points)");
                text.append("\tWhat do you want to do?\t(h)it, (s)tand");
            } else {
                text.append(" points)");
                text.append("\tBLACKJACK!\t(Type anything to continue)");
            }
            text
        } else if code == 8 {
            proof {
                crate::player::lemma_raw_total_bound(t.hands[k as int]);
            }
            let p = &self.players[k];
            let mut text = String::from_str("Now, your cards are: ");
            let cards = show_cards(p);
            text.append(cards.as_str());
            text.append(" (");
            append_score(&mut text, p);
            text.append(" points)");
            text.append("\tWhat do you want to do?\t(h)it, (s)tand");
            text
        } else if code == 12 {
            self.results()
        } else if code == 110 || code == 120 {
            proof {
                crate::player::lemma_raw_total_bound(t.hands[it as int]);
            }
            let p = &self.players[it];
            let mut text = String::from_str("Now, ");
            text.append(p.get_name());
            text.append("'s cards are: ");
            let cards = show_cards(p);
            text.append(cards.as_str());
            text.append(" (");
            append_score(&mut text, p);
            if code == 110 {
                text.append(" points)");
                text.append("\tYOU GOT 21 POINTS!\t(Type anything to continue)");
            } else {
                text.append(" points)");
                text.append("\tBUST :( ");
                text.append(p.get_name());
                text.append(" lost!\t\t(Type anything to continue)");
            }
            text
        } else if code == 130 {
            let mut text = String::from_str(self.players[it].get_name());
            text.append(" stood\t(Type anything to continue)");
            text
        } else if code == 140 || code == 150 {
            proof {
                crate::player::lemma_raw_total_bound(t.hands[0]);
            }
            let p = &self.players[0];
            let mut text = String::from_str("Dealer's cards are: ");
            let cards = show_cards(p);
            text.append(cards.as_str());
            text.append(" (");
            append_score(&mut text, p);
            if code == 140 {
                text.append(" points)");
                text.append("\tDealer stood\t(Type anything to continue)");
            } else {
                text.append(" points)");
                text.append("\tBUST :(\t\t(Type anything to continue)");
            }
            text
        } else if code == 0 {
            String::from_str("Game aborted.")
        } else if code == 1 {
            String::from_str("Welcome to BlackJack! Enter \"quit\" to leave the game\t(Type anything to continue)")
        } else if code == 2 {
            String::from_str("How many decks do you wanna use? (6-8)")
        } else if code == 3 {
            String::from_str("####### Game Started! #######\t(Type anything to continue)")
        } else if code == 4 {
            String::from_str("How many players are playing? (1-7)")
        } else if code == 9 {
            String::from_str("Dealer's turn...\t(Type anything to continue)")
        } else if code == 11 {
            String::from_str("####### Game Finished #######\t(Type anything to continue)")
        } else if code == 200 {
            String::from_str("The number of decks must be between 6 and 8\t(Enter \"quit\" to leave the game)")
        } else if code == 210 {
            String::from_str("Expect integer input\t(Enter \"quit\" to leave the game)")
        } else if code == 220 {
            String::from_str("The number of players must be between 1 and 7\t(Enter \"quit\" to leave the game)")
        } else if code == 230 {
            String::from_str("Invalid command!\tAvailable Commands: (h)it, (s)tand\t(Enter \"quit\" to leave the game)")
        } else {
            let mut text = String::from_str("Error! STATE: ");
            let st = crate::text::decimal(self.state as u64);
            text.append(st.as_str());
            text.append("\tRESPOND: ");
            let rs = crate::text::decimal(self.respond as u64);
            text.append(rs.as_str());
            text.append("\t Please restart program.");
            text
        }
    }
}

/// The chat game, kept sound at all times (see `TableView::wf`).
pub struct WebGame {
    table: WebState,
}

impl WebGame {
    #[verifier::type_invariant]
    spec fn sound(self) -> bool {
        self.table@.wf()
    }

    /// The game's data.
    pub closed spec fn view_table(self) -> TableView {
        self.table@
    }

    /// The game as it opens: the dealer alone, nothing due.
    pub fn new() -> (game: WebGame)
        ensures
            game.view_table() == TableView::reset(),
    {
        WebGame { table: WebState::new() }
    }

    /// The game's data, to read.
    pub fn table(&self) -> (table: &WebState)
        ensures
            table@ == self.view_table(),
            table@.wf(),
    {
        proof {
            use_type_invariant(self);
        }
        &self.table
    }

    /// One step of the game on the text a player sent (see `state_step`).
    pub fn state(&mut self, input: &str)
        ensures
            final(self).view_table() == state_step(
                old(self).view_table(),
                input@,
                shuffled_of(final(self).view_table()),
            ),
            sets_up_decks(old(self).view_table(), input@) ==> {
                &&& final(self).view_table().decks[0].len() == 52 * usize_value(input@)
                &&& final(self).view_table().decks[0].to_multiset() == fresh_decks(
                    usize_value(input@),
                ).to_multiset()
            },
    {
        proof {
            use_type_invariant(&*self);
        }
        let mut table = WebState::new();
        std::mem::swap(&mut table, &mut self.table);
        table.state(input);
        self.table = table;
    }

    /// A message was posted to the chat (see `post_step`).
    pub fn post(&mut self, message: &str)
        ensures
            final(self).view_table() == post_step(
                old(self).view_table(),
                message@,
                shuffled_of(final(self).view_table()),
            ),
            old(self).view_table().state != 0 && sets_up_decks(old(self).view_table(), message@)
                ==> {
                &&& final(self).view_table().decks[0].len() == 52 * usize_value(message@)
                &&& final(self).view_table().decks[0].to_multiset() == fresh_decks(
                    usize_value(message@),
                ).to_multiset()
            },
    {
        proof {
            use_type_invariant(&*self);
        }
        let mut table = WebState::new();
        std::mem::swap(&mut table, &mut self.table);
        if table.state != 0 {
            table.state(message);
        }
        if str_eq(message, "Dealer") {
            table.respond = 15;
        } else if str_eq(message, "State") {
            table.respond = 404;
        } else if str_eq(message, "Rest") {
            table.state = 100;
        }
        self.table = table;
    }

    /// A message reached the event stream; returns the reply to send after
    /// echoing it, if any (see `event_step`).
    pub fn event(&mut self, message: &str) -> (reply: Option<u32>)
        ensures
            (final(self).view_table(), reply) == event_step(old(self).view_table(), message@),
    {
        proof {
            use_type_invariant(&*self);
        }
        let lower = to_lower(message);
        let mut table = WebState::new();
        std::mem::swap(&mut table, &mut self.table);
        let mut reply: Option<u32> = None;
        if table.respond == 0 && str_eq(lower.as_str(), "blackjack") {
            table.state = 1;
            reply = Some(1);
        }
        if table.respond != 0 {
            if str_eq(message, "quit") {
                table.state = 100;
                reply = Some(0);
            } else {
                reply = Some(table.respond);
            }
        }
        self.table = table;
        reply
    }

    /// Whether reply `code` can be written now (see `respond_ok`).
    pub fn respond_defined(&self, code: u32) -> (ok: bool)
        ensures
            ok == respond_ok(self.view_table(), code),
    {
        proof {
            use_type_invariant(self);
        }
        let t = &self.table;
        let n = t.players.len();
        let k = t.iterator + 1;
        if code == 6 || code == 140 || code == 150 {
            t.players[0].get_hand().len() >= 1
        } else if code == 7 || code == 100 {
            k < n && t.players[k].get_hand().len() >= 2 && (code != 100 || t.iterator < n)
        } else if code == 8 {
            k < n && t.players[k].get_hand().len() >= 1
        } else if code == 110 || code == 120 {
            t.iterator < n && t.players[t.iterator].get_hand().len() >= 1
        } else if code == 130 {
            t.iterator < n
        } else {
            true
        }
    }

    /// The bot's message for reply `code` (see `reply_text`).
    pub fn respond(&self, code: u32) -> (msg: Message)
        requires
            respond_ok(self.view_table(), code),
        ensures
            msg.room@ == "lobby"@,
            msg.username@ == "bot"@,
            msg.message@ == reply_text(self.view_table(), code),
    {
        proof {
            use_type_invariant(self);
        }
        let text = self.table.reply(code);
        bot(text.as_str())
    }
}

/// Law: how a seated player of the chat game did against the dealer, in
/// points. A dealer with a blackjack ties exactly with the players who have
/// one and beats the rest. A bust dealer loses exactly to the players who
/// are not bust and ties with the others. Otherwise a player wins exactly
/// when not bust and ahead of the dealer, ties exactly on the same points,
/// and loses exactly when bust or behind.
pub proof fn law_web_outcome(hand: Seq<Card>, dealer: Seq<Card>)
    ensures
        is_blackjack(dealer) ==> (web_outcome(hand, dealer) == crate::runner::Outcome::Tied
            <==> is_blackjack(hand)),
        is_blackjack(dealer) ==> web_outcome(hand, dealer) != crate::runner::Outcome::Won,
        !is_blackjack(dealer) && hand_score(dealer) > 21 ==> (web_outcome(hand, dealer)
            == crate::runner::Outcome::Won <==> hand_score(hand) <= 21),
        !is_blackjack(dealer) && hand_score(dealer) > 21 ==> web_outcome(hand, dealer)
            != crate::runner::Outcome::Lost,
        !is_blackjack(dealer) && hand_score(dealer) <= 21 ==> {
            &&& (web_outcome(hand, dealer) == crate::runner::Outcome::Won <==> hand_score(hand) <= 21
                && hand_score(hand) > hand_score(dealer))
            &&& (web_outcome(hand, dealer) == crate::runner::Outcome::Tied <==> hand_score(hand)
                == hand_score(dealer))
            &&& (web_outcome(hand, dealer) == crate::runner::Outcome::Lost <==> hand_score(hand) > 21
                || hand_score(hand) < hand_score(dealer))
        },
{
}

/// Law: every seated player's name is in the list of the results that
/// matches how they did (see `law_web_outcome`), at the place of their seat
/// among the players listed there.
pub proof fn law_results_list_player(names: Seq<Seq<char>>, hands: Seq<Seq<Card>>, j: int, k: int)
    requires
        1 <= j < k <= hands.len(),
        names.len() == hands.len(),
    ensures
        outcome_names(names, hands, web_outcome(hands[j], hands[0]), k).contains(names[j]),
    decreases k,
{
    let o = web_outcome(hands[j], hands[0]);
    if j == k - 1 {
        let prev = outcome_names(names, hands, o, k - 1);
        assert(outcome_names(names, hands, o, k)[prev.len() as int] == names[j]);
    } else {
        law_results_list_player(names, hands, j, k - 1);
        let prev = outcome_names(names, hands, o, k - 1);
        let i = choose|i: int| 0 <= i < prev.len() && prev[i] == names[j];
        assert(outcome_names(names, hands, o, k)[i] == names[j]);
    }
}

/// Law: a hit on a player's turn of the chat game gives the player the top
/// card; then the reply is 8 (the turn goes on) exactly when the hand scores
/// under 21, 110 exactly when it scores 21, and 120 exactly when it is over
/// 21, and in the last two cases the next player comes.
pub proof fn law_hit_reply(t: TableView, input: Seq<char>, shuffled: Seq<Card>)
    requires
        t.wf(),
        t.state == 7,
        command_for(lowercased(input)) == Command::Hit,
    ensures
        ({
            let k = t.iterator + 1;
            let hand = t.hands[k].push(t.deck().last());
            let n = state_step(t, input, shuffled);
            &&& n.hands[k] == hand
            &&& n.deck() == t.deck().drop_last()
            &&& (n.respond == 8 <==> hand_score(hand) < 21)
            &&& (n.respond == 110 <==> hand_score(hand) == 21)
            &&& (n.respond == 120 <==> hand_score(hand) > 21)
            &&& (n.state == 7 <==> hand_score(hand) < 21)
            &&& n.iterator == (if hand_score(hand) < 21 {
                t.iterator
            } else {
                (t.iterator + 1) as usize
            })
        }),
{
}

/// The seat whose points reply `code` shows: the player whose turn it is for
/// 7, 8 and 100, the player who just finished for 110 and 120, the dealer
/// otherwise.
pub open spec fn points_seat(t: TableView, code: u32) -> int {
    if code == 7 || code == 8 || code == 100 {
        t.iterator + 1
    } else if code == 110 || code == 120 {
        t.iterator as int
    } else {
        0
    }
}

/// How points are shown in a reply: " (", the number in decimal, " points)".
pub open spec fn points_text(n: int) -> Seq<char> {
    " ("@ + crate::text::decimal_text(n as nat) + " points)"@
}

/// Law: the number shown in a reply for a hand's points is its score, aces
/// lowered as needed (not its raw total), written in decimal.
pub proof fn law_reply_shows_score(t: TableView, code: u32)
    requires
        code == 7 || code == 8 || code == 100 || code == 110 || code == 120 || code == 140 || code
            == 150,
    ensures
        exists|before: Seq<char>, after: Seq<char>|
            #![trigger before + points_text(hand_score(t.hands[points_seat(t, code)])) + after]
            reply_text(t, code) == before + points_text(hand_score(t.hands[points_seat(t, code)]))
                + after,
{
    let seat = points_seat(t, code);
    let shown = points_text(hand_score(t.hands[seat]));
    let k = t.iterator + 1;
    let it = t.iterator as int;
    let card = |c: Card| crate::card::card_text(c);
    if code == 7 {
        let before = t.names[k] + "'s cards are:\n"@ + card(t.hands[k][0]) + " and "@ + card(
            t.hands[k][1],
        );
        let after = "\tWhat do you want to do?\t(h)it, (s)tand"@;
        assert(reply_text(t, code) =~= before + shown + after);
    } else if code == 8 {
        let before = "Now, your cards are: "@ + cards_text(t.hands[k]);
        let after = "\tWhat do you want to do?\t(h)it, (s)tand"@;
        assert(reply_text(t, code) =~= before + shown + after);
    } else if code == 100 {
        let before = t.names[it] + "'s cards are:\n"@ + card(t.hands[k][0]) + " and "@ + card(
            t.hands[k][1],
        );
        let after = "\tBLACKJACK!\t(Type anything to continue)"@;
        assert(reply_text(t, code) =~= before + shown + after);
    } else if code == 110 {
        let before = "Now, "@ + t.names[it] + "'s cards are: "@ + cards_text(t.hands[it]);
        let after = "\tYOU GOT 21 POINTS!\t(Type anything to continue)"@;
        assert(reply_text(t, code) =~= before + shown + after);
    } else if code == 120 {
        let before = "Now, "@ + t.names[it] + "'s cards are: "@ + cards_text(t.hands[it]);
        let after = "\tBUST :( "@ + t.names[it] + " lost!\t\t(Type anything to continue)"@;
        assert(reply_text(t, code) =~= before + shown + after);
    } else if code == 140 {
        let before = "Dealer's cards are: "@ + cards_text(t.hands[0]);
        let after = "\tDealer stood\t(Type anything to continue)"@;
        assert(reply_text(t, code) =~= before + shown + after);
    } else {
        let before = "Dealer's cards are: "@ + cards_text(t.hands[0]);
        let after = "\tBUST :(\t\t(Type anything to continue)"@;
        assert(reply_text(t, code) =~= before + shown + after);
    }
}

} // verus!
