use black_jack::web::bot;
use black_jack::WebGame;

/// Posts a message and runs it through the event stream, as the server
/// does; returns the bot's reply, if any.
fn say(game: &mut WebGame, text: &str) -> Option<String> {
    game.post(text);
    match game.event(text) {
        Some(code) => {
            assert!(game.respond_defined(code));
            Some(game.respond(code).message)
        }
        None => None,
    }
}

#[test]
fn bot_writes_to_the_lobby() {
    let m = bot("hello");
    assert_eq!(m.room, "lobby");
    assert_eq!(m.username, "bot");
    assert_eq!(m.message, "hello");
}

#[test]
fn nothing_happens_before_blackjack() {
    let mut g = WebGame::new();
    assert_eq!(say(&mut g, "hi"), None);
    assert_eq!(g.table().state, 0);
}

#[test]
fn setting_up_a_game() {
    let mut g = WebGame::new();
    assert_eq!(
        say(&mut g, "BlackJack").unwrap(),
        "Welcome to BlackJack! Enter \"quit\" to leave the game\t(Type anything to continue)"
    );
    assert_eq!(say(&mut g, "ok").unwrap(), "How many decks do you wanna use? (6-8)");
    assert_eq!(
        say(&mut g, "5").unwrap(),
        "The number of decks must be between 6 and 8\t(Enter \"quit\" to leave the game)"
    );
    assert_eq!(
        say(&mut g, "many").unwrap(),
        "Expect integer input\t(Enter \"quit\" to leave the game)"
    );
    assert_eq!(
        say(&mut g, "6").unwrap(),
        "####### Game Started! #######\t(Type anything to continue)"
    );
    assert_eq!(g.table().decks[0].cards.len(), 312);
    assert_eq!(say(&mut g, "ok").unwrap(), "How many players are playing? (1-7)");
    assert_eq!(
        say(&mut g, "9").unwrap(),
        "The number of players must be between 1 and 7\t(Enter \"quit\" to leave the game)"
    );
    assert_eq!(say(&mut g, "2").unwrap(), "Player 1, please, enter your name.");
    assert_eq!(say(&mut g, " Ann ").unwrap(), "Player 2, please, enter your name.");
    let reply = say(&mut g, "Bob").unwrap();
    assert!(reply.starts_with("The first card of the dealer is "));
    let t = g.table();
    assert_eq!(t.players.len(), 3);
    assert_eq!(t.players[1].get_name(), "Ann");
    assert_eq!(t.players[2].get_name(), "Bob");
    for p in t.players.iter() {
        assert_eq!(p.get_hand().len(), 2);
    }
    assert_eq!(t.decks[0].cards.len(), 306);
    assert_eq!(t.state, 6);
}

#[test]
fn playing_a_game_to_the_end() {
    let mut g = WebGame::new();
    for m in ["blackjack", "ok", "8", "ok", "1", "Ann"] {
        say(&mut g, m);
    }
    assert_eq!(g.table().state, 6);
    let blackjack = g.table().players[1].has_black_jack();
    let reply = say(&mut g, "go").unwrap();
    if blackjack {
        assert!(reply.starts_with("Dealer's turn"));
    } else {
        assert!(reply.starts_with("Ann's cards are:\n"));
        assert!(reply.ends_with("What do you want to do?\t(h)it, (s)tand"));
        assert_eq!(
            say(&mut g, "fold").unwrap(),
            "Invalid command!\tAvailable Commands: (h)it, (s)tand\t(Enter \"quit\" to leave the game)"
        );
        assert_eq!(say(&mut g, "STAND").unwrap(), "Ann stood\t(Type anything to continue)");
        assert_eq!(
            say(&mut g, "ok").unwrap(),
            "Dealer's turn...\t(Type anything to continue)"
        );
    }
    g.post("ok");
    let code = g.event("ok").unwrap();
    assert!(g.table().players[0].get_score() >= 17);
    assert_eq!(g.table().state, 10);
    let dealer = &g.table().players[0];
    if dealer.has_black_jack() {
        // The blackjack announcement reads a seat past the last player.
        assert_eq!(code, 100);
        assert!(!g.respond_defined(100));
    } else {
        assert!(g.respond(code).message.starts_with("Dealer's cards are: "));
        assert_eq!(
            say(&mut g, "ok").unwrap(),
            "####### Game Finished #######\t(Type anything to continue)"
        );
        let results = say(&mut g, "ok").unwrap();
        assert!(results.starts_with("Ann "));
        assert_eq!(g.table().state, 100);
        assert_eq!(say(&mut g, "again"), None);
        assert_eq!(g.table().state, 0);
        assert_eq!(g.table().players.len(), 1);
    }
}

#[test]
fn quit_aborts_and_rest_resets() {
    let mut g = WebGame::new();
    say(&mut g, "blackjack");
    say(&mut g, "ok");
    assert_eq!(say(&mut g, "quit").unwrap(), "Game aborted.");
    assert_eq!(g.table().state, 100);
    assert_eq!(say(&mut g, "anything"), None);
    assert_eq!(g.table().state, 0);
    assert_eq!(g.table().respond, 0);
    say(&mut g, "blackjack");
    say(&mut g, "ok");
    say(&mut g, "Rest");
    assert_eq!(g.table().state, 100);
}

#[test]
fn debug_messages_set_the_reply() {
    let mut g = WebGame::new();
    say(&mut g, "blackjack");
    let reply = say(&mut g, "Dealer").unwrap();
    assert_eq!(reply, "Error! STATE: 2\tRESPOND: 15\t Please restart program.");
    let reply = say(&mut g, "State").unwrap();
    assert_eq!(reply, "Error! STATE: 2\tRESPOND: 404\t Please restart program.");
}

#[test]
fn results_name_every_player_once() {
    let mut g = WebGame::new();
    for m in ["blackjack", "ok", "7", "ok", "3", "Ann", "Bob", "Cid", "ok"] {
        say(&mut g, m);
    }
    // Everyone stands (or is passed with a blackjack) until the dealer plays.
    let mut guard = 0;
    while g.table().state != 9 {
        say(&mut g, "s");
        guard += 1;
        assert!(guard < 10);
    }
    g.post("ok");
    let code = g.event("ok").unwrap();
    if code != 100 {
        say(&mut g, "ok");
        let results = say(&mut g, "ok").unwrap();
        for name in ["Ann", "Bob", "Cid"] {
            assert_eq!(results.matches(name).count(), 1, "{}", results);
        }
        assert!(!results.contains("Dealer,"));
    }
}

#[test]
fn any_chatter_keeps_the_game_sound() {
    let script = [
        "blackjack", "x", "6", "x", "7", "A", "B", "C", "D", "E", "F", "G", "x", "h", "H", "hit",
        "s", "h", "h", "stand", "h", "h", "h", "h", "s", "x", "x", "x", "x", "Dealer", "State",
        "Rest", "x", "BLACKJACK", "x", "8", "x", "1", "Z", "x", "h", "h", "h", "h", "h", "x", "x",
        "x", "x", "quit", "x",
    ];
    for round in 0..20 {
        let mut g = WebGame::new();
        for (i, m) in script.iter().enumerate() {
            let text = if (i + round) % 7 == 0 { "h" } else { *m };
            g.post(text);
            if let Some(code) = g.event(text) {
                if g.respond_defined(code) {
                    let _ = g.respond(code);
                } else {
                    // Only the dealer's blackjack announcement can miss a seat.
                    assert_eq!(code, 100);
                    break;
                }
            }
            let t = g.table();
            assert!(t.players.len() >= 1 && t.players.len() <= 8);
            for p in t.players.iter() {
                assert!(p.get_hand().len() <= 21);
            }
        }
    }
}
