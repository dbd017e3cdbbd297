use deet::hangman::{pick_a_random_word, word_at, Hangman, HIDDEN, NUM_INCORRECT_GUESSES};

fn shown(chars: &Vec<char>) -> String {
    chars.iter().collect()
}

#[test]
fn a_new_game_hides_every_letter() {
    let game = Hangman::new("lobster");
    assert_eq!(shown(game.word_so_far()), "-------");
    assert_eq!(shown(game.guessed_letters()), "");
    assert_eq!(game.guesses_left(), 5);
    assert_eq!(NUM_INCORRECT_GUESSES, 5);
    assert_eq!(HIDDEN, '-');
    assert!(!game.is_lost());
    assert!(!game.is_won());
}

#[test]
fn a_right_guess_uncovers_one_place() {
    let mut game = Hangman::new("lobster");
    assert!(!game.guess('o'));
    assert_eq!(shown(game.word_so_far()), "-o-----");
    assert_eq!(game.guesses_left(), 5);
    assert!(!game.guess('r'));
    assert_eq!(shown(game.word_so_far()), "-o----r");
    assert_eq!(shown(game.guessed_letters()), "or");
}

#[test]
fn a_wrong_guess_costs_one() {
    let mut game = Hangman::new("lobster");
    assert!(!game.guess('z'));
    assert_eq!(shown(game.word_so_far()), "-------");
    assert_eq!(game.guesses_left(), 4);
    assert_eq!(shown(game.guessed_letters()), "z");
}

#[test]
fn a_letter_that_occurs_twice_takes_two_guesses() {
    let mut game = Hangman::new("little");
    assert!(!game.guess('t'));
    assert_eq!(shown(game.word_so_far()), "--t---");
    assert!(!game.guess('t'));
    assert_eq!(shown(game.word_so_far()), "--tt--");
    assert_eq!(game.guesses_left(), 5);
    assert!(!game.guess('t'));
    assert_eq!(shown(game.word_so_far()), "--tt--");
    assert_eq!(game.guesses_left(), 4);
    assert!(!game.guess('l'));
    assert_eq!(shown(game.word_so_far()), "l-tt--");
    assert!(!game.guess('l'));
    assert_eq!(shown(game.word_so_far()), "l-ttl-");
    assert_eq!(shown(game.guessed_letters()), "tttll");
}

#[test]
fn the_game_is_won_with_the_last_letter() {
    let mut game = Hangman::new("abba");
    assert!(!game.guess('a'));
    assert!(!game.guess('b'));
    assert!(!game.guess('x'));
    assert!(!game.guess('b'));
    assert!(!game.is_won());
    assert!(game.guess('a'));
    assert!(game.is_won());
    assert_eq!(shown(game.word_so_far()), "abba");
    assert_eq!(game.guesses_left(), 4);
    assert!(!game.is_lost());
}

#[test]
fn the_game_is_lost_after_five_wrong_guesses() {
    let mut game = Hangman::new("rust");
    for (n, letter) in ['a', 'b', 'c', 'd', 'e'].iter().enumerate() {
        assert!(!game.is_lost());
        assert!(!game.guess(*letter));
        assert_eq!(game.guesses_left(), 4 - n as u32);
    }
    assert!(game.is_lost());
    assert!(!game.is_won());
    assert_eq!(shown(game.word_so_far()), "----");
    assert_eq!(shown(game.guessed_letters()), "abcde");
}

#[test]
fn letters_are_told_apart_by_case() {
    let mut game = Hangman::new("Aa");
    assert!(!game.guess('a'));
    assert_eq!(shown(game.word_so_far()), "-a");
    assert!(game.guess('A'));
    assert_eq!(shown(game.word_so_far()), "Aa");
}

#[test]
fn word_at_gives_the_line_without_white_space() {
    let list = "apple\n  pear \r\nfig\n";
    assert_eq!(word_at(list, 0), "apple");
    assert_eq!(word_at(list, 1), "pear");
    assert_eq!(word_at(list, 2), "fig");
    assert_eq!(word_at(list, 3), "");
    assert_eq!(word_at("only", 0), "only");
    assert_eq!(word_at("", 0), "");
}

#[test]
fn a_random_word_is_one_of_the_list() {
    let list = "apple\npear\nfig\nplum";
    let words = ["apple", "pear", "fig", "plum"];
    let mut seen = [false; 4];
    for _ in 0..400 {
        let word = pick_a_random_word(list);
        let place = words.iter().position(|known| *known == word);
        assert!(place.is_some());
        seen[place.unwrap()] = true;
    }
    assert_eq!(seen, [true; 4]);
}

#[test]
fn a_list_of_one_word_always_gives_that_word() {
    for _ in 0..20 {
        assert_eq!(pick_a_random_word(" lobster\t"), "lobster");
    }
    assert_eq!(pick_a_random_word(""), "");
}
