use deet::rwc::{count, count_line, Counts};

fn lines_of(lines: &[&str]) -> Vec<String> {
    lines.iter().map(|s| s.to_string()).collect()
}

#[test]
fn an_empty_text_counts_nothing() {
    assert_eq!(count(&vec![]), Counts { words: 0, lines: 0, chars: 0 });
    assert_eq!(count(&lines_of(&[""])), Counts { words: 0, lines: 1, chars: 0 });
    assert_eq!(count(&lines_of(&["", "  ", "\t"])), Counts { words: 0, lines: 3, chars: 0 });
}

#[test]
fn words_are_runs_between_white_space() {
    assert_eq!(count_line("hello world"), (2, 10));
    assert_eq!(count_line("  hello   world  "), (2, 10));
    assert_eq!(count_line("one"), (1, 3));
    assert_eq!(count_line("a b c d"), (4, 4));
    assert_eq!(count_line("tab\tseparated\u{a0}words"), (3, 17));
    assert_eq!(count_line(""), (0, 0));
    assert_eq!(count_line("   "), (0, 0));
}

#[test]
fn characters_are_counted_not_bytes() {
    assert_eq!(count_line("héllo wörld"), (2, 10));
    assert_eq!(count_line("日本語"), (1, 3));
}

#[test]
fn counts_add_up_over_the_lines() {
    let lines = lines_of(&["the quick brown fox", "", "jumps over", "  the lazy dog  "]);
    assert_eq!(count(&lines), Counts { words: 9, lines: 4, chars: 35 });
}

#[test]
fn count_agrees_with_std() {
    let lines = lines_of(&["a  bb ccc", "dddd", " e f ", "", "ggggg\thh"]);
    let words: usize = lines.iter().map(|line| line.split_whitespace().count()).sum();
    let chars: usize = lines
        .iter()
        .map(|line| line.split_whitespace().map(|word| word.chars().count()).sum::<usize>())
        .sum();
    assert_eq!(count(&lines), Counts { words, lines: lines.len(), chars });
}
