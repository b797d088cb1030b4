//! A game of Blackjack: cards, decks, players, the command-line round and
//! the chat-driven round, with the rules of the game proved in Verus.

pub mod card;
pub mod deck;
pub mod player;
pub mod runner;
pub mod text;
pub mod web;

pub use card::{Card, Rank, Suit};
pub use deck::Deck;
pub use player::{Dealer, Person, Player};
pub use runner::{
    ask_set_player_attributes, dealer_turn, end_game, game, set_dealer, win_or_lose,
    BlackJackRunner, Command, CountError, Outcome, TurnState, Verdict,
};
pub use web::{bot, show_cards, Message, WebGame, WebState};
