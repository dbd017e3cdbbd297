//! The word-guessing game: a secret word, a player who names one letter at a
//! time, and a fixed number of wrong guesses.

use crate::text::{chars_of, line_bounds, lines, trim_bounds, trimmed};
use rand::Rng;
use std::collections::HashMap;
use vstd::prelude::*;
use vstd::string::StrSliceExecFns;

verus! {

broadcast use vstd::std_specs::hash::group_hash_axioms;

/// The number of wrong guesses that a player may make.
pub const NUM_INCORRECT_GUESSES: u32 = 5;

/// The sign that stands for a letter not yet found.
pub const HIDDEN: char = '-';

/// Calls `rand::thread_rng` and, on the generator it gives, `Rng::gen_range`
/// with the bounds 0 and `bound`. The number is random; all that is claimed is
/// that it lies below `bound`, as `gen_range` documents for a range that is
/// not empty. An empty range makes it panic and is left out.
#[verifier::external_body]
fn random_index(bound: usize) -> (index: usize)
    requires
        bound > 0,
    ensures
        index < bound,
{
    rand::thread_rng().gen_range(0, bound)
}

/// The word on line `index` of a list of words, one to a line, without the
/// white space around it.
pub fn word_at(file_string: &str, index: usize) -> (word: String)
    requires
        index < lines(file_string@).len(),
    ensures
        word@ == trimmed(lines(file_string@)[index as int]),
{
    let chars = chars_of(file_string);
    let bounds = line_bounds(&chars);
    let (low, high) = bounds[index];
    let (start, end) = trim_bounds(&chars, low, high);
    file_string.substring_char(start, end).to_owned()
}

/// Picks one word at random from a list of words, one to a line. Every line
/// can be picked, also an empty one.
pub fn pick_a_random_word(file_string: &str) -> (word: String)
    ensures
        exists|k: int|
            0 <= k < lines(file_string@).len() && word@ == trimmed(
                #[trigger] lines(file_string@)[k],
            ),
{
    let chars = chars_of(file_string);
    let count = line_bounds(&chars).len();
    let index = random_index(count);
    word_at(file_string, index)
}

/// The first place at or after `from` where `word` holds `letter`.
pub open spec fn next_place(word: Seq<char>, letter: char, from: int) -> Option<int>
    decreases word.len() - from,
{
    if from < 0 || from >= word.len() {
        None
    } else if word[from] == letter {
        Some(from)
    } else {
        next_place(word, letter, from + 1)
    }
}

/// A place found by the search lies in the word, at or after the start of the
/// search, and holds the letter.
pub proof fn lemma_next_place(word: Seq<char>, letter: char, from: int)
    ensures
        next_place(word, letter, from) matches Some(place) ==> from <= place < word.len()
            && word[place] == letter,
    decreases word.len() - from,
{
    if 0 <= from < word.len() && word[from] != letter {
        lemma_next_place(word, letter, from + 1);
    }
}

/// A game as contracts see it.
pub struct Round {
    /// The word to be guessed.
    pub secret: Seq<char>,
    /// The word as the player knows it: a letter where one was found, the
    /// sign for a hidden letter elsewhere.
    pub so_far: Seq<char>,
    /// Every letter named, in the order of the guesses.
    pub guessed: Seq<char>,
    /// For each letter that was found, the place where it was found last.
    pub found_at: Map<char, usize>,
    /// The wrong guesses that are left.
    pub guesses_left: u32,
}

impl Round {
    /// Where the search for `letter` starts: behind the place where it was
    /// found last, at the beginning if it was never found.
    pub open spec fn search_from(self, letter: char) -> int {
        if self.found_at.contains_key(letter) {
            self.found_at[letter] + 1
        } else {
            0
        }
    }

    /// The game after `letter` was named. A letter that occurs behind the
    /// place where it was found last is uncovered at the first such place; any
    /// other letter costs one of the wrong guesses.
    pub open spec fn after_guess(self, letter: char) -> Round
        recommends
            self.guesses_left > 0,
    {
        match next_place(self.secret, letter, self.search_from(letter)) {
            Some(place) => Round {
                so_far: self.so_far.update(place, letter),
                guessed: self.guessed.push(letter),
                found_at: self.found_at.insert(letter, place as usize),
                ..self
            },
            None => Round {
                guessed: self.guessed.push(letter),
                guesses_left: (self.guesses_left - 1) as u32,
                ..self
            },
        }
    }

    /// Whether every letter is uncovered.
    pub open spec fn won(self) -> bool {
        self.so_far == self.secret
    }

    /// Whether no wrong guess is left.
    pub open spec fn lost(self) -> bool {
        self.guesses_left == 0
    }
}

/// A game of hangman in progress.
pub struct Hangman {
    secret_word_chars: Vec<char>,
    guess_word: Vec<char>,
    guess_letters: Vec<char>,
    letter_map: HashMap<u32, usize>,
    guess_time: u32,
}

impl View for Hangman {
    type V = Round;

    closed spec fn view(&self) -> Round {
        Round {
            secret: self.secret_word_chars@,
            so_far: self.guess_word@,
            guessed: self.guess_letters@,
            found_at: Map::new(
                |letter: char| self.letter_map@.contains_key(letter as u32),
                |letter: char| self.letter_map@[letter as u32],
            ),
            guesses_left: self.guess_time,
        }
    }
}

impl Hangman {
    #[verifier::type_invariant]
    spec fn consistent(self) -> bool {
        &&& self.guess_word@.len() == self.secret_word_chars@.len()
        &&& forall|code: u32| #[trigger]
            self.letter_map@.contains_key(code) ==> self.letter_map@[code]
                < self.secret_word_chars@.len()
    }

    /// A new game on `secret_word`: nothing uncovered, nothing guessed, all
    /// wrong guesses left.
    pub fn new(secret_word: &str) -> (game: Hangman)
        ensures
            game@ == (Round {
                secret: secret_word@,
                so_far: Seq::new(secret_word@.len(), |i: int| HIDDEN),
                guessed: Seq::empty(),
                found_at: Map::empty(),
                guesses_left: NUM_INCORRECT_GUESSES,
            }),
    {
        let secret_word_chars = chars_of(secret_word);
        let mut guess_word: Vec<char> = Vec::new();
        let mut n: usize = 0;
        while n < secret_word_chars.len()
            invariant
                n <= secret_word_chars.len(),
                guess_word@.len() == n,
                forall|i: int| 0 <= i < n ==> guess_word@[i] == HIDDEN,
            decreases secret_word_chars.len() - n,
        {
            guess_word.push(HIDDEN);
            n += 1;
        }
        let game = Hangman {
            secret_word_chars,
            guess_word,
            guess_letters: Vec::new(),
            letter_map: HashMap::new(),
            guess_time: NUM_INCORRECT_GUESSES,
        };
        assert(game@.so_far =~= Seq::new(secret_word@.len(), |i: int| HIDDEN));
        assert(game@.found_at =~= Map::<char, usize>::empty());
        game
    }

    /// The word as the player knows it.
    pub fn word_so_far(&self) -> (word: &Vec<char>)
        ensures
            word@ == self@.so_far,
    {
        &self.guess_word
    }

    /// The letters named so far.
    pub fn guessed_letters(&self) -> (letters: &Vec<char>)
        ensures
            letters@ == self@.guessed,
    {
        &self.guess_letters
    }

    /// The wrong guesses that are left.
    pub fn guesses_left(&self) -> (left: u32)
        ensures
            left == self@.guesses_left,
    {
        self.guess_time
    }

    /// Whether the game is lost: no wrong guess is left.
    pub fn is_lost(&self) -> (lost: bool)
        ensures
            lost == self@.lost(),
    {
        self.guess_time == 0
    }

    /// Whether the game is won: every letter is uncovered.
    pub fn is_won(&self) -> (won: bool)
        ensures
            won == self@.won(),
    {
        proof {
            use_type_invariant(self);
        }
        let mut n: usize = 0;
        while n < self.guess_word.len()
            invariant
                n <= self.guess_word@.len(),
                self.guess_word@.len() == self.secret_word_chars@.len(),
                forall|i: int| 0 <= i < n ==> self.guess_word@[i] == self.secret_word_chars@[i],
            decreases self.guess_word.len() - n,
        {
            if self.guess_word[n] != self.secret_word_chars[n] {
                return false;
            }
            n += 1;
        }
        assert(self.guess_word@ =~= self.secret_word_chars@);
        true
    }

    /// Takes one guess. Returns whether the game is won with it.
    pub fn guess(&mut self, char_guess: char) -> (won: bool)
        requires
            old(self)@.guesses_left > 0,
        ensures
            final(self)@ == old(self)@.after_guess(char_guess),
            won == final(self)@.won(),
    {
        let ghost before = self@;
        let mut taken = Hangman::new("");
        core::mem::swap(self, &mut taken);
        proof {
            use_type_invariant(&taken);
        }
        let ghost places = taken.letter_map@;
        let Hangman {
            secret_word_chars,
            mut guess_word,
            mut guess_letters,
            mut letter_map,
            mut guess_time,
        } = taken;
        let length: usize = secret_word_chars.len();
        let code: u32 = char_guess as u32;
        assert(places.contains_key(code) ==> places[code] < length);
        let start_idx: usize = match letter_map.get(&code) {
            Some(place) => *place + 1,
            None => 0,
        };
        assert(start_idx == before.search_from(char_guess));
        proof {
            lemma_next_place(secret_word_chars@, char_guess, start_idx as int);
        }
        let mut at: usize = start_idx;
        let mut found: Option<usize> = None;
        while at < length
            invariant_except_break
                length == secret_word_chars@.len(),
                start_idx <= at <= secret_word_chars@.len(),
                found is None,
                next_place(secret_word_chars@, char_guess, start_idx as int) == next_place(
                    secret_word_chars@,
                    char_guess,
                    at as int,
                ),
            ensures
                found == match next_place(secret_word_chars@, char_guess, start_idx as int) {
                    Some(place) => Some(place as usize),
                    None => None,
                },
                found is Some ==> found->0 < secret_word_chars@.len(),
            decreases length - at,
        {
            if secret_word_chars[at] == char_guess {
                found = Some(at);
                break ;
            }
            at += 1;
        }
        match found {
            Some(place) => {
                guess_word.set(place, char_guess);
                letter_map.insert(code, place);
            },
            None => {
                guess_time = guess_time - 1;
            },
        }
        guess_letters.push(char_guess);
        *self = Hangman { secret_word_chars, guess_word, guess_letters, letter_map, guess_time };
        proof {
            let after = before.after_guess(char_guess);
            assert forall|letter: char| #[trigger]
                self@.found_at.contains_key(letter) == after.found_at.contains_key(letter) by {
                vstd::utf8::char_u32_cast(letter, letter as u32);
                vstd::utf8::char_u32_cast(char_guess, code);
            }
            assert forall|letter: char| #[trigger]
                self@.found_at.contains_key(letter) implies self@.found_at[letter]
                == after.found_at[letter] by {
                vstd::utf8::char_u32_cast(letter, letter as u32);
                vstd::utf8::char_u32_cast(char_guess, code);
            }
            assert(self@.found_at =~= after.found_at);
            assert(self@.so_far =~= after.so_far);
            assert(self@.guessed =~= after.guessed);
        }
        self.is_won()
    }
}

} // verus!
