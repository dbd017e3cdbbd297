//! Strings as sequences of characters.

use vstd::prelude::*;
use vstd::std_specs::iter::IteratorSpec;
use vstd::string::spec_iter;

verus! {

broadcast use vstd::string::group_string_axioms;

/// The characters of a string, in order.
pub fn chars_of(s: &str) -> (chars: Vec<char>)
    ensures
        chars@ == s@,
{
    let mut chars: Vec<char> = Vec::new();
    let ghost all: Seq<char> = spec_iter(s).remaining();
    for c in it: s.chars()
        invariant
            chars@ == it.seq().take(it.index()),
            all == it.seq(),
            all == s@,
    {
        chars.push(c);
    }
    assert(chars@ =~= all);
    chars
}

/// Whether two strings hold the same characters.
pub fn same_text(a: &str, b: &str) -> (same: bool)
    ensures
        same == (a@ == b@),
{
    let left = chars_of(a);
    let right = chars_of(b);
    if left.len() != right.len() {
        return false;
    }
    let mut n: usize = 0;
    while n < left.len()
        invariant
            n <= left.len(),
            left.len() == right.len(),
            left@ == a@,
            right@ == b@,
            forall|i: int| 0 <= i < n ==> left@[i] == right@[i],
        decreases left.len() - n,
    {
        if left[n] != right[n] {
            return false;
        }
        n += 1;
    }
    assert(a@ =~= b@);
    true
}

/// The views of a list of owned strings.
pub open spec fn texts(items: Seq<String>) -> Seq<Seq<char>> {
    items.map_values(|s: String| s@)
}

/// The views of a list of string slices.
pub open spec fn slice_texts(items: Seq<&str>) -> Seq<Seq<char>> {
    items.map_values(|s: &str| s@)
}

/// Whether a character is white space: one of the code points that Unicode
/// gives the property `White_Space`. They are the controls from tab to
/// carriage return, the blank, the next-line control, the no-break blank, the
/// Ogham space mark, the blanks of fixed width, the two separators of lines
/// and paragraphs, the narrow no-break blank, the mathematical blank and the
/// ideographic blank.
pub open spec fn white_space(c: char) -> bool {
    let code = c as u32;
    ||| 0x09 <= code <= 0x0d
    ||| code == 0x20
    ||| code == 0x85
    ||| code == 0xa0
    ||| code == 0x1680
    ||| 0x2000 <= code <= 0x200a
    ||| code == 0x2028
    ||| code == 0x2029
    ||| code == 0x202f
    ||| code == 0x205f
    ||| code == 0x3000
}

/// Whether a character is white space.
pub fn is_whitespace(c: char) -> (white: bool)
    ensures
        white == white_space(c),
{
    let code: u32 = c as u32;
    (0x09 <= code && code <= 0x0d) || code == 0x20 || code == 0x85 || code == 0xa0 || code
        == 0x1680 || (0x2000 <= code && code <= 0x200a) || code == 0x2028 || code == 0x2029
        || code == 0x202f || code == 0x205f || code == 0x3000
}

/// The text without the white space at its beginning.
pub open spec fn trim_start(s: Seq<char>) -> Seq<char>
    decreases s.len(),
{
    if s.len() > 0 && white_space(s[0]) {
        trim_start(s.skip(1))
    } else {
        s
    }
}

/// The text without the white space at its end.
pub open spec fn trim_end(s: Seq<char>) -> Seq<char>
    decreases s.len(),
{
    if s.len() > 0 && white_space(s.last()) {
        trim_end(s.drop_last())
    } else {
        s
    }
}

/// The text without the white space at its two ends.
pub open spec fn trimmed(s: Seq<char>) -> Seq<char> {
    trim_end(trim_start(s))
}

/// Where the line that begins at `from` ends: at the first line feed at or
/// after `from`, or at the end of the text.
pub open spec fn line_end(s: Seq<char>, from: int) -> int
    decreases s.len() - from,
{
    if from >= s.len() {
        s.len() as int
    } else if s[from] == '\n' {
        from
    } else {
        line_end(s, from + 1)
    }
}

/// The lines of the text from `from` on: the pieces between line feeds. A
/// text that ends in a line feed has an empty last line.
pub open spec fn lines_from(s: Seq<char>, from: int) -> Seq<Seq<char>>
    decreases s.len() - from,
{
    let end = line_end(s, from);
    if from > s.len() {
        Seq::empty()
    } else if end >= s.len() {
        seq![s.subrange(from, s.len() as int)]
    } else if end >= from {
        seq![s.subrange(from, end)] + lines_from(s, end + 1)
    } else {
        Seq::empty()
    }
}

/// The lines of a text; there is always at least one.
pub open spec fn lines(s: Seq<char>) -> Seq<Seq<char>> {
    lines_from(s, 0)
}

/// The two ends of the part of `chars` between `low` and `high` that is left
/// when the white space at both ends is taken off.
pub fn trim_bounds(chars: &Vec<char>, low: usize, high: usize) -> (ends: (usize, usize))
    requires
        low <= high <= chars@.len(),
    ensures
        low <= ends.0 <= ends.1 <= high,
        chars@.subrange(ends.0 as int, ends.1 as int) == trimmed(
            chars@.subrange(low as int, high as int),
        ),
{
    let mut start: usize = low;
    while start < high && is_whitespace(chars[start])
        invariant
            low <= start <= high <= chars@.len(),
            trim_start(chars@.subrange(low as int, high as int)) == trim_start(
                chars@.subrange(start as int, high as int),
            ),
        decreases high - start,
    {
        assert(chars@.subrange(start as int, high as int).skip(1) =~= chars@.subrange(
            start + 1,
            high as int,
        ));
        start += 1;
    }
    let mut end: usize = high;
    while start < end && is_whitespace(chars[end - 1])
        invariant
            start <= end <= high <= chars@.len(),
            trim_end(chars@.subrange(start as int, high as int)) == trim_end(
                chars@.subrange(start as int, end as int),
            ),
        decreases end - start,
    {
        assert(chars@.subrange(start as int, end as int).drop_last() =~= chars@.subrange(
            start as int,
            end - 1,
        ));
        end -= 1;
    }
    (start, end)
}

/// Where each line of `chars` begins and ends.
pub fn line_bounds(chars: &Vec<char>) -> (bounds: Vec<(usize, usize)>)
    ensures
        bounds@.len() == lines(chars@).len(),
        bounds@.len() >= 1,
        forall|k: int|
            0 <= k < bounds@.len() ==> (#[trigger] bounds@[k]).0 <= bounds@[k].1 <= chars@.len()
                && lines(chars@)[k] == chars@.subrange(bounds@[k].0 as int, bounds@[k].1 as int),
{
    let mut bounds: Vec<(usize, usize)> = Vec::new();
    let mut from: usize = 0;
    let mut at: usize = 0;
    loop
        invariant_except_break
            from <= at <= chars@.len(),
            line_end(chars@, from as int) == line_end(chars@, at as int),
            lines(chars@) == Seq::new(
                bounds@.len(),
                |k: int| chars@.subrange(bounds@[k].0 as int, bounds@[k].1 as int),
            ) + lines_from(chars@, from as int),
            forall|k: int|
                0 <= k < bounds@.len() ==> (#[trigger] bounds@[k]).0 <= bounds@[k].1
                    <= chars@.len(),
        ensures
            bounds@.len() >= 1,
            lines(chars@) == Seq::new(
                bounds@.len(),
                |k: int| chars@.subrange(bounds@[k].0 as int, bounds@[k].1 as int),
            ),
            forall|k: int|
                0 <= k < bounds@.len() ==> (#[trigger] bounds@[k]).0 <= bounds@[k].1
                    <= chars@.len(),
        decreases chars@.len() - at,
    {
        let ghost listed = Seq::new(
            bounds@.len(),
            |k: int| chars@.subrange(bounds@[k].0 as int, bounds@[k].1 as int),
        );
        if at == chars.len() {
            bounds.push((from, at));
            assert(lines(chars@) =~= Seq::new(
                bounds@.len(),
                |k: int| chars@.subrange(bounds@[k].0 as int, bounds@[k].1 as int),
            )) by {
                assert(lines_from(chars@, from as int) =~= seq![
                    chars@.subrange(from as int, chars@.len() as int),
                ]);
            }
            break ;
        }
        if chars[at] == '\n' {
            bounds.push((from, at));
            assert(lines(chars@) =~= Seq::new(
                bounds@.len(),
                |k: int| chars@.subrange(bounds@[k].0 as int, bounds@[k].1 as int),
            ) + lines_from(chars@, at + 1)) by {
                assert(lines_from(chars@, from as int) =~= seq![
                    chars@.subrange(from as int, at as int),
                ] + lines_from(chars@, at + 1));
            }
            from = at + 1;
            at = from;
        } else {
            at += 1;
        }
    }
    bounds
}

} // verus!
