//! Counting the words, lines and characters of a text.

use crate::text::{chars_of, is_whitespace, texts, white_space};
use vstd::prelude::*;

verus! {

/// The three numbers of a count.
#[derive(Clone, Copy, Debug, PartialEq, Eq, Structural)]
pub struct Counts {
    /// Words: longest runs of characters that are no white space.
    pub words: usize,
    /// Lines.
    pub lines: usize,
    /// Characters that belong to words.
    pub chars: usize,
}

/// The number of words in a line: the places where a character that is no
/// white space stands first in the line or behind white space.
pub open spec fn words_in(line: Seq<char>) -> nat
    decreases line.len(),
{
    if line.len() == 0 {
        0
    } else {
        let begins: nat = if !white_space(line.last()) && (line.len() == 1 || white_space(
            line[line.len() - 2],
        )) {
            1
        } else {
            0
        };
        words_in(line.drop_last()) + begins
    }
}

/// The number of characters of a line that are no white space.
pub open spec fn letters_in(line: Seq<char>) -> nat
    decreases line.len(),
{
    if line.len() == 0 {
        0
    } else {
        let counts: nat = if white_space(line.last()) {
            0
        } else {
            1
        };
        letters_in(line.drop_last()) + counts
    }
}

/// The words of all the lines together.
pub open spec fn total_words(lines: Seq<Seq<char>>) -> nat
    decreases lines.len(),
{
    if lines.len() == 0 {
        0
    } else {
        total_words(lines.drop_last()) + words_in(lines.last())
    }
}

/// The characters of all the words of all the lines together.
pub open spec fn total_letters(lines: Seq<Seq<char>>) -> nat
    decreases lines.len(),
{
    if lines.len() == 0 {
        0
    } else {
        total_letters(lines.drop_last()) + letters_in(lines.last())
    }
}

/// A line has no more words than characters in words, and no more of those
/// than characters.
pub proof fn lemma_line_counts(line: Seq<char>)
    ensures
        words_in(line) <= letters_in(line) <= line.len(),
    decreases line.len(),
{
    if line.len() > 0 {
        lemma_line_counts(line.drop_last());
    }
}

/// A text has no more words than characters in words, and the counts of its
/// first lines are no larger than those of all its lines.
pub proof fn lemma_total_counts(lines: Seq<Seq<char>>, k: int)
    requires
        0 <= k <= lines.len(),
    ensures
        total_words(lines) <= total_letters(lines),
        total_letters(lines.take(k)) <= total_letters(lines),
        total_words(lines.take(k)) <= total_letters(lines.take(k)),
    decreases lines.len(),
{
    if lines.len() == 0 {
        assert(lines.take(k) =~= lines);
    } else {
        lemma_line_counts(lines.last());
        if k == lines.len() {
            assert(lines.take(k) =~= lines);
            lemma_total_counts(lines.drop_last(), k - 1);
        } else {
            assert(lines.drop_last().take(k) =~= lines.take(k));
            lemma_total_counts(lines.drop_last(), k);
        }
    }
}

/// Counts the words of one line and the characters in them.
pub fn count_line(line: &str) -> (counts: (usize, usize))
    ensures
        counts.0 == words_in(line@),
        counts.1 == letters_in(line@),
{
    let chars = chars_of(line);
    let mut words: usize = 0;
    let mut letters: usize = 0;
    let mut after_space: bool = true;
    let mut n: usize = 0;
    assert(chars@.take(0) =~= Seq::<char>::empty());
    while n < chars.len()
        invariant
            n <= chars.len(),
            chars@ == line@,
            words == words_in(chars@.take(n as int)),
            letters == letters_in(chars@.take(n as int)),
            after_space == (n == 0 || white_space(chars@[n - 1])),
            words <= letters <= n,
        decreases chars.len() - n,
    {
        let ghost longer = chars@.take(n + 1);
        assert(longer.drop_last() =~= chars@.take(n as int));
        assert(longer.last() == chars@[n as int]);
        assert(n > 0 ==> longer[longer.len() - 2] == chars@[n - 1]);
        let white = is_whitespace(chars[n]);
        if !white {
            letters += 1;
            if after_space {
                words += 1;
            }
        }
        after_space = white;
        n += 1;
    }
    assert(chars@.take(n as int) =~= chars@);
    (words, letters)
}

/// Counts the words, the lines and the characters in words of a text that is
/// given line by line.
pub fn count(lines: &Vec<String>) -> (counts: Counts)
    requires
        total_letters(texts(lines@)) <= usize::MAX,
    ensures
        counts.lines == lines@.len(),
        counts.words == total_words(texts(lines@)),
        counts.chars == total_letters(texts(lines@)),
{
    let ghost all = texts(lines@);
    let mut word_num: usize = 0;
    let mut char_num: usize = 0;
    let mut n: usize = 0;
    assert(all.take(0) =~= Seq::<Seq<char>>::empty());
    while n < lines.len()
        invariant
            n <= lines.len(),
            all == texts(lines@),
            total_letters(all) <= usize::MAX,
            word_num == total_words(all.take(n as int)),
            char_num == total_letters(all.take(n as int)),
        decreases lines.len() - n,
    {
        let (words, letters) = count_line(lines[n].as_str());
        proof {
            let longer = all.take(n + 1);
            assert(longer.drop_last() =~= all.take(n as int));
            assert(longer.last() == lines@[n as int]@);
            lemma_total_counts(all, n + 1);
        }
        word_num += words;
        char_num += letters;
        n += 1;
    }
    assert(all.take(n as int) =~= all);
    Counts { words: word_num, lines: lines.len(), chars: char_num }
}

} // verus!
