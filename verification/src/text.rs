//! Character sequences: the mathematical side of every string in the crate.

use vstd::prelude::*;
use vstd::std_specs::iter::IteratorSpec;

verus! {

broadcast use vstd::string::group_string_axioms;

/// The pieces of a text between its separators. A text without a
/// separator is one piece, the empty text too.
pub open spec fn split(text: Seq<char>, separator: char) -> Seq<Seq<char>>
    decreases text.len(),
{
    if text.len() == 0 {
        seq![Seq::empty()]
    } else {
        let front = split(text.drop_last(), separator);
        if text.last() == separator {
            front.push(Seq::empty())
        } else {
            front.drop_last().push(front.last().push(text.last()))
        }
    }
}

/// The lines of a text: the pieces between its newlines.
pub open spec fn lines(text: Seq<char>) -> Seq<Seq<char>> {
    split(text, '\n')
}

/// The pieces one after the other, with one newline between each two.
pub open spec fn join_lines(pieces: Seq<Seq<char>>) -> Seq<char>
    decreases pieces.len(),
{
    if pieces.len() == 0 {
        Seq::empty()
    } else if pieces.len() == 1 {
        pieces[0]
    } else {
        join_lines(pieces.drop_last()) + seq!['\n'] + pieces.last()
    }
}

/// Whether no character of `text` is `c`.
pub open spec fn free_of(text: Seq<char>, c: char) -> bool {
    forall|i: int| 0 <= i < text.len() ==> text[i] != c
}

/// Whether no character of `text` is a newline.
pub open spec fn newline_free(text: Seq<char>) -> bool {
    free_of(text, '\n')
}

/// A text has at least one piece, and no piece holds the separator.
pub proof fn lemma_split_shape(text: Seq<char>, separator: char)
    ensures
        split(text, separator).len() >= 1,
        forall|i: int|
            0 <= i < split(text, separator).len() ==> free_of(
                #[trigger] split(text, separator)[i],
                separator,
            ),
    decreases text.len(),
{
    if text.len() > 0 {
        lemma_split_shape(text.drop_last(), separator);
    }
}

/// A text has at least one line, and no line holds a newline.
pub proof fn lemma_lines_shape(text: Seq<char>)
    ensures
        lines(text).len() >= 1,
        forall|i: int| 0 <= i < lines(text).len() ==> newline_free(#[trigger] lines(text)[i]),
{
    lemma_split_shape(text, '\n');
}

/// Joining one more piece appends a newline and the piece, unless it is
/// the first.
pub proof fn lemma_join_lines_push(pieces: Seq<Seq<char>>, piece: Seq<char>)
    ensures
        join_lines(pieces.push(piece)) == if pieces.len() == 0 {
            piece
        } else {
            join_lines(pieces) + seq!['\n'] + piece
        },
{
    assert(pieces.push(piece).drop_last() =~= pieces);
}

/// Appending a character to the last piece appends it to the joined text.
pub proof fn lemma_join_lines_extend_last(pieces: Seq<Seq<char>>, c: char)
    requires
        pieces.len() >= 1,
    ensures
        join_lines(pieces.drop_last().push(pieces.last().push(c))) == join_lines(pieces).push(c),
{
    let extended = pieces.drop_last().push(pieces.last().push(c));
    assert(extended.drop_last() =~= pieces.drop_last());
}

/// Joining the lines of a text gives the text back.
pub proof fn lemma_join_lines_of_lines(text: Seq<char>)
    ensures
        join_lines(lines(text)) == text,
    decreases text.len(),
{
    if text.len() > 0 {
        let front = text.drop_last();
        lemma_join_lines_of_lines(front);
        lemma_lines_shape(front);
        if text.last() == '\n' {
            lemma_join_lines_push(lines(front), Seq::empty());
        } else {
            lemma_join_lines_extend_last(lines(front), text.last());
        }
    }
}

/// The lines of a text followed by a newline-free text: the second text
/// continues the last line of the first.
pub proof fn lemma_lines_append_newline_free(text: Seq<char>, tail: Seq<char>)
    requires
        newline_free(tail),
    ensures
        lines(text + tail) == lines(text).drop_last().push(lines(text).last() + tail),
    decreases tail.len(),
{
    lemma_lines_shape(text);
    if tail.len() > 0 {
        let front = tail.drop_last();
        lemma_lines_append_newline_free(text, front);
        assert((text + tail).drop_last() =~= text + front);
        assert(lines(text + front).last().push(tail.last()) =~= lines(text).last() + tail);
    }
}

/// Splitting a joined text gives the pieces back, where there is at least
/// one piece and no piece holds a newline.
pub proof fn lemma_lines_of_join_lines(pieces: Seq<Seq<char>>)
    requires
        pieces.len() >= 1,
        forall|i: int| 0 <= i < pieces.len() ==> newline_free(#[trigger] pieces[i]),
    ensures
        lines(join_lines(pieces)) == pieces,
    decreases pieces.len(),
{
    if pieces.len() == 1 {
        lemma_lines_append_newline_free(Seq::empty(), pieces[0]);
    } else {
        let front = pieces.drop_last();
        assert(forall|i: int| 0 <= i < front.len() ==> newline_free(#[trigger] front[i]));
        lemma_lines_of_join_lines(front);
        let head = join_lines(front) + seq!['\n'];
        assert(head.drop_last() =~= join_lines(front));
        lemma_lines_append_newline_free(head, pieces.last());
    }
}

/// The pieces of two texts with a separator between them are the pieces
/// of the first and then the pieces of the second.
pub proof fn lemma_split_around_separator(first: Seq<char>, second: Seq<char>, separator: char)
    ensures
        split(first + seq![separator] + second, separator) == split(first, separator) + split(
            second,
            separator,
        ),
    decreases second.len(),
{
    let head = first + seq![separator];
    lemma_split_shape(second, separator);
    if second.len() == 0 {
        assert(head.drop_last() =~= first);
    } else {
        let front = second.drop_last();
        lemma_split_around_separator(first, front, separator);
        lemma_split_shape(front, separator);
        assert((head + second).drop_last() =~= head + front);
    }
}

/// The lines of two texts with a newline between them are the lines of
/// the first and then the lines of the second.
pub proof fn lemma_lines_around_newline(first: Seq<char>, second: Seq<char>)
    ensures
        lines(first + seq!['\n'] + second) == lines(first) + lines(second),
{
    lemma_split_around_separator(first, second, '\n');
}

/// Whether `pattern` stands in `text` from position `at` on.
pub open spec fn occurs_at(text: Seq<char>, pattern: Seq<char>, at: int) -> bool {
    0 <= at && at + pattern.len() <= text.len() && text.subrange(at, at + pattern.len())
        == pattern
}

/// Whether `pattern` stands somewhere in `text`.
pub open spec fn contains_text(text: Seq<char>, pattern: Seq<char>) -> bool {
    exists|at: int| occurs_at(text, pattern, at)
}

/// Whether `text` begins with `prefix`.
pub open spec fn starts_with(text: Seq<char>, prefix: Seq<char>) -> bool {
    occurs_at(text, prefix, 0)
}

/// The character that stands for the digit `d`.
pub open spec fn digit_char(d: int) -> char {
    seq!['0', '1', '2', '3', '4', '5', '6', '7', '8', '9'][d]
}

/// The decimal numeral of `n`, without leading zeros.
pub open spec fn decimal(n: nat) -> Seq<char>
    decreases n,
{
    if n < 10 {
        seq![digit_char(n as int)]
    } else {
        decimal(n / 10).push(digit_char((n % 10) as int))
    }
}

/// Appends one character to a string.
///
/// Stands for `String::push`, which appends the given character to the end
/// of the string and changes nothing else.
#[verifier::external_body]
pub(crate) fn push_char(s: &mut String, c: char)
    ensures
        final(s)@ == old(s)@.push(c),
{
    s.push(c);
}

/// Whether two texts hold the same characters.
pub fn same_text(a: &str, b: &str) -> (same: bool)
    ensures
        same == (a@ == b@),
{
    let mut others = b.chars();
    let chars = a.chars();
    for ch in it: chars
        invariant
            it.seq() == a@,
            it.index() <= b@.len(),
            others.remaining() == b@.skip(it.index()),
            a@.take(it.index()) == b@.take(it.index()),
    {
        assert(ch == a@[it.index()]);
        match others.next() {
            Some(other) => {
                assert(other == b@[it.index()]);
                if other != ch {
                    return false;
                }
                assert(b@.skip(it.index()).drop_first() =~= b@.skip(it.index() + 1));
                assert(a@.take(it.index() + 1) =~= a@.take(it.index()).push(ch));
                assert(b@.take(it.index() + 1) =~= b@.take(it.index()).push(other));
            },
            None => {
                return false;
            },
        }
    }
    assert(a@.take(a@.len() as int) =~= a@);
    match others.next() {
        Some(_) => false,
        None => {
            assert(b@.take(b@.len() as int) =~= b@);
            true
        },
    }
}

fn digit(d: u64) -> (c: char)
    requires
        d < 10,
    ensures
        c == digit_char(d as int),
{
    match d {
        0 => '0',
        1 => '1',
        2 => '2',
        3 => '3',
        4 => '4',
        5 => '5',
        6 => '6',
        7 => '7',
        8 => '8',
        _ => '9',
    }
}

/// Appends the decimal numeral of `n` to `out`.
pub fn push_decimal(out: &mut String, n: u64)
    ensures
        final(out)@ == old(out)@ + decimal(n as nat),
    decreases n,
{
    if n >= 10 {
        push_decimal(out, n / 10);
    }
    push_char(out, digit(n % 10));
}

} // verus!
