# black_jack

Blackjack with its rules proved in Verus.

- `src/card.rs`: suits, ranks, cards and what each card counts.
- `src/deck.rs`: fresh decks in order, shuffling, dealing from the top;
  `n` fresh decks hold every card exactly `n` times.
- `src/player.rs`: players and the dealer; the score of a hand counts each
  ace as 11 or 1, whichever gives the best total.
- `src/runner.rs`: the round at the terminal: reading counts and moves,
  seating and dealing, each move of a player's turn, the order of turns,
  the dealer drawing to 17, and who won; every card dealt stays on the
  table. The prompts and printing are in `app/`.
- `src/web.rs`: the round played through a chat room, as a state machine
  whose steps are proved never to deal from an empty deck or look at an
  empty seat, and the bot's replies. One reply can still point past the
  table: the blackjack announcement after the dealer draws a blackjack shows
  the seat after the last player; `respond_ok` is false for it, and the
  server stops there.
- `src/text.rs`: reading numbers and words typed by players (parsing and
  trimming as Rust's `str::parse` and `str::trim` do), writing numbers.
- `app/`: the web server (Rocket) and the terminal prompts.
