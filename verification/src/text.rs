//! Text building: decimal numbers, and pieces of a source text cut out by byte
//! offsets.
use vstd::prelude::*;
use vstd::string::*;
use vstd::utf8::*;

verus! {

/// The character that writes the decimal digit `d`.
pub open spec fn digit_char(d: nat) -> char {
    if d == 0 {
        '0'
    } else if d == 1 {
        '1'
    } else if d == 2 {
        '2'
    } else if d == 3 {
        '3'
    } else if d == 4 {
        '4'
    } else if d == 5 {
        '5'
    } else if d == 6 {
        '6'
    } else if d == 7 {
        '7'
    } else if d == 8 {
        '8'
    } else {
        '9'
    }
}

/// The decimal notation of `n`, without leading zeros.
pub open spec fn decimal(n: nat) -> Seq<char>
    decreases n,
{
    if n < 10 {
        seq![digit_char(n)]
    } else {
        decimal(n / 10).push(digit_char(n % 10))
    }
}

/// The decimal digit `d`, as text.
fn digit_str(d: usize) -> (s: &'static str)
    requires
        d < 10,
    ensures
        s@ == seq![digit_char(d as nat)],
{
    proof {
        reveal_strlit("0");
        reveal_strlit("1");
        reveal_strlit("2");
        reveal_strlit("3");
        reveal_strlit("4");
        reveal_strlit("5");
        reveal_strlit("6");
        reveal_strlit("7");
        reveal_strlit("8");
        reveal_strlit("9");
    }
    let s = if d == 0 {
        "0"
    } else if d == 1 {
        "1"
    } else if d == 2 {
        "2"
    } else if d == 3 {
        "3"
    } else if d == 4 {
        "4"
    } else if d == 5 {
        "5"
    } else if d == 6 {
        "6"
    } else if d == 7 {
        "7"
    } else if d == 8 {
        "8"
    } else {
        "9"
    };
    assert(s@ =~= seq![digit_char(d as nat)]);
    s
}

/// Appends the decimal notation of `n` to `out`.
pub fn push_decimal(out: &mut String, n: usize)
    ensures
        final(out)@ == old(out)@ + decimal(n as nat),
    decreases n,
{
    if n >= 10 {
        push_decimal(out, n / 10);
    }
    out.append(digit_str(n % 10));
}

/// The byte offsets `start` and `end` cut a piece of text out of the UTF-8
/// bytes `source`: they are in order, inside the text and on character
/// boundaries.
pub open spec fn is_span(source: Seq<u8>, start: int, end: int) -> bool {
    &&& 0 <= start <= end <= source.len()
    &&& is_char_boundary(source, start)
    &&& is_char_boundary(source, end)
}

/// The text between the byte offsets `start` and `end` of `source`; nothing
/// where the two do not cut out a piece of text.
pub open spec fn span_text(source: Seq<u8>, start: int, end: int) -> Seq<char> {
    if is_span(source, start, end) {
        decode_utf8(source.subrange(start, end))
    } else {
        Seq::empty()
    }
}

/// An offset inside the tail of a text lies on a character boundary of the
/// tail exactly if it does in the whole text.
pub proof fn lemma_boundary_in_tail(source: Seq<u8>, from: int, offset: int)
    requires
        valid_utf8(source),
        0 <= from <= source.len(),
        is_char_boundary(source, from),
        0 <= offset <= source.len() - from,
    ensures
        valid_utf8(source.subrange(from, source.len() as int)),
        is_char_boundary(source.subrange(from, source.len() as int), offset) <==> is_char_boundary(
            source,
            from + offset,
        ),
{
    let tail = source.subrange(from, source.len() as int);
    valid_utf8_split(source, from);
    if offset < tail.len() {
        is_char_boundary_iff_not_is_continuation_byte(tail, offset);
        is_char_boundary_iff_not_is_continuation_byte(source, from + offset);
    } else {
        is_char_boundary_start_end_of_seq(tail);
        is_char_boundary_start_end_of_seq(source);
    }
}

/// An offset inside the head of a text lies on a character boundary of the
/// head exactly if it does in the whole text.
pub proof fn lemma_boundary_in_head(source: Seq<u8>, to: int, offset: int)
    requires
        valid_utf8(source),
        0 <= to <= source.len(),
        is_char_boundary(source, to),
        0 <= offset <= to,
    ensures
        valid_utf8(source.subrange(0, to)),
        is_char_boundary(source.subrange(0, to), offset) <==> is_char_boundary(source, offset),
{
    let head = source.subrange(0, to);
    valid_utf8_split(source, to);
    if offset < to {
        is_char_boundary_iff_not_is_continuation_byte(head, offset);
        is_char_boundary_iff_not_is_continuation_byte(source, offset);
    } else {
        is_char_boundary_start_end_of_seq(head);
    }
}

/// The piece of `source` between the byte offsets `start` and `end`; the empty
/// text where the two do not cut out a piece of text.
pub fn slice<'s>(source: &'s str, start: usize, end: usize) -> (piece: &'s str)
    ensures
        piece@ == span_text(source.spec_bytes(), start as int, end as int),
{
    if start <= end && source.is_char_boundary(start) && source.is_char_boundary(end) {
        proof {
            encode_utf8_valid_utf8(source@);
            lemma_boundary_in_head(source.spec_bytes(), end as int, start as int);
        }
        let (head, _) = source.split_at(end);
        let (_, piece) = head.split_at(start);
        proof {
            assert(piece.spec_bytes() =~= source.spec_bytes().subrange(start as int, end as int));
            encode_utf8_decode_utf8(piece@);
        }
        piece
    } else {
        proof {
            reveal_strlit("");
        }
        ""
    }
}

} // verus!
