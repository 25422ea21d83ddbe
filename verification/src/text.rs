//! Text: decoding it from bytes and cutting it into pieces.

use vstd::prelude::*;
use vstd::utf8::{decode_utf8, valid_utf8};

verus! {

/// Bytes that are not UTF-8, as std reports them.
#[verifier::external_type_specification]
#[verifier::external_body]
pub struct ExFromUtf8Error(std::string::FromUtf8Error);

/// `String::from_utf8`: the text that the bytes encode, or an error if they are not UTF-8.
pub assume_specification[ String::from_utf8 ](vec: Vec<u8>) -> (result: Result<
    String,
    std::string::FromUtf8Error,
>)
    ensures
        result is Ok <==> valid_utf8(vec@),
        result matches Ok(text) ==> text@ == decode_utf8(vec@),
;

/// The pieces of `text` between the separators: read from the front, every separator begins a new
/// piece, and every other character joins the last one.
pub open spec fn pieces(text: Seq<char>, separator: char) -> Seq<Seq<char>>
    decreases text.len(),
{
    if text.len() == 0 {
        seq![Seq::empty()]
    } else {
        let front = pieces(text.drop_last(), separator);
        if text.last() == separator {
            front.push(Seq::empty())
        } else {
            front.drop_last().push(front.last().push(text.last()))
        }
    }
}

/// The mathematical content of a list of strings.
pub open spec fn texts(strings: Seq<String>) -> Seq<Seq<char>> {
    strings.map_values(|string: String| string@)
}

/// Cuts `text` at every `separator`.
pub fn split(text: &str, separator: char) -> (strings: Vec<String>)
    ensures
        texts(strings@) == pieces(text@, separator),
{
    let len = text.unicode_len();
    let mut strings: Vec<String> = Vec::new();
    let mut start: usize = 0;
    let mut i: usize = 0;
    proof {
        assert(text@.take(0) =~= Seq::empty());
        assert(pieces(text@.take(0), separator) =~= texts(strings@).push(text@.subrange(0, 0)));
    }
    for c in chars: text.chars()
        invariant
            len == text@.len(),
            i == chars.index(),
            chars.seq() == text@,
            start <= i <= len,
            pieces(text@.take(i as int), separator) == texts(strings@).push(
                text@.subrange(start as int, i as int),
            ),
    {
        let ghost begun = text@.subrange(start as int, i as int);
        let ghost complete = texts(strings@);
        assert(text@.take(i + 1).drop_last() =~= text@.take(i as int));
        if c == separator {
            let piece = text.substring_char(start, i).to_owned();
            strings.push(piece);
            start = i + 1;
            assert(texts(strings@) =~= complete.push(begun));
            assert(text@.subrange(start as int, i + 1) =~= Seq::empty());
        } else {
            assert(complete.push(begun).drop_last() =~= complete);
            assert(text@.subrange(start as int, i + 1) =~= begun.push(c));
        }
        i = i + 1;
    }
    let last = text.substring_char(start, len).to_owned();
    let ghost complete = texts(strings@);
    strings.push(last);
    proof {
        assert(text@.take(len as int) =~= text@);
        assert(texts(strings@) =~= complete.push(last@));
    }
    strings
}

/// There is always a piece.
proof fn pieces_are_some(text: Seq<char>, separator: char)
    ensures
        pieces(text, separator).len() >= 1,
    decreases text.len(),
{
    if text.len() > 0 {
        pieces_are_some(text.drop_last(), separator);
    }
}

/// A text without a separator is its own and only piece.
pub proof fn text_without_separators_is_one_piece(text: Seq<char>, separator: char)
    requires
        !text.contains(separator),
    ensures
        pieces(text, separator) == seq![text],
    decreases text.len(),
{
    if text.len() > 0 {
        let front = text.drop_last();
        assert forall|i: int| 0 <= i < front.len() implies front[i] != separator by {
            assert(text[i] == front[i]);
        }
        text_without_separators_is_one_piece(front, separator);
        assert(text[text.len() - 1] == text.last());
        assert(front.push(text.last()) =~= text);
        assert(pieces(text, separator) =~= seq![text]);
    } else {
        assert(text =~= Seq::empty());
    }
}

/// The first separator ends the first piece, and the pieces of what is behind it follow.
pub proof fn first_separator_ends_the_first_piece(
    first: Seq<char>,
    separator: char,
    rest: Seq<char>,
)
    requires
        !first.contains(separator),
    ensures
        pieces(first + seq![separator] + rest, separator) == seq![first] + pieces(rest, separator),
    decreases rest.len(),
{
    let text = first + seq![separator] + rest;
    if rest.len() == 0 {
        text_without_separators_is_one_piece(first, separator);
        assert(text.drop_last() =~= first);
        assert(text.last() == separator);
        assert(pieces(text, separator) =~= seq![first] + pieces(rest, separator));
    } else {
        let front = rest.drop_last();
        first_separator_ends_the_first_piece(first, separator, front);
        pieces_are_some(front, separator);
        assert(text.drop_last() =~= first + seq![separator] + front);
        assert(text.last() == rest.last());
        let before = seq![first] + pieces(front, separator);
        assert(before.last() == pieces(front, separator).last());
        assert(before.drop_last() =~= seq![first] + pieces(front, separator).drop_last());
        assert(pieces(text, separator) =~= seq![first] + pieces(rest, separator));
    }
}

/// Where the first piece of `text` ends.
pub proof fn first_piece_end(text: Seq<char>, separator: char) -> (end: int)
    ensures
        0 <= end <= text.len(),
        !text.take(end).contains(separator),
        end < text.len() ==> text[end] == separator,
        end < text.len() ==> text == text.take(end) + seq![separator] + text.skip(end + 1),
        end == text.len() ==> text.take(end) == text,
    decreases text.len(),
{
    if text.len() == 0 {
        0
    } else {
        let front = text.drop_last();
        let end = first_piece_end(front, separator);
        if end < front.len() {
            assert(text.take(end) =~= front.take(end));
            assert(text[end] == front[end]);
            assert(text =~= text.take(end) + seq![separator] + text.skip(end + 1));
            end
        } else if text.last() == separator {
            assert(text.take(end) =~= front);
            assert(text =~= text.take(end) + seq![separator] + text.skip(end + 1));
            end
        } else {
            assert(text.take(text.len() as int) =~= text);
            assert forall|i: int| 0 <= i < text.len() implies text[i] != separator by {
                if i < front.len() {
                    assert(front[i] == text[i]);
                    assert(front.contains(front[i]));
                }
            }
            text.len() as int
        }
    }
}

} // verus!
