//! UTF-8 byte view of text and the string primitives the editing core uses.
//!
//! Editing positions (caret, selection anchor) are byte offsets into the UTF-8
//! encoding of the text. A position is valid when it is a char boundary of that
//! encoding.
use vstd::prelude::*;
use vstd::utf8::*;

verus! {

broadcast use vstd::utf8::group_utf8_lib;

/// UTF-8 encoding of a character sequence.
pub open spec fn text_bytes(s: Seq<char>) -> Seq<u8> {
    encode_utf8(s)
}

/// Byte length of the UTF-8 encoding of `s`.
pub open spec fn byte_len(s: Seq<char>) -> int {
    encode_utf8(s).len() as int
}

/// `i` is a char boundary of the UTF-8 encoding of `s` (so `0 <= i <= byte_len(s)`).
pub open spec fn is_boundary(s: Seq<char>, i: int) -> bool {
    is_char_boundary(encode_utf8(s), i)
}

/// Encoding distributes over concatenation.
pub proof fn lemma_encode_concat(a: Seq<char>, b: Seq<char>)
    ensures
        encode_utf8(a + b) == encode_utf8(a) + encode_utf8(b),
    decreases a.len(),
{
    if a.len() == 0 {
        assert(a + b =~= b);
        assert(encode_utf8(a) =~= Seq::<u8>::empty());
        assert(encode_utf8(a) + encode_utf8(b) =~= encode_utf8(b));
    } else {
        lemma_encode_concat(a.drop_first(), b);
        assert((a + b).drop_first() =~= a.drop_first() + b);
        assert((a + b)[0] == a[0]);
        assert(encode_utf8(a + b) =~= encode_scalar(a[0] as u32) + encode_utf8(a.drop_first() + b));
    }
}

/// A char boundary lies within the encoding.
pub proof fn lemma_boundary_in_range(b: Seq<u8>, i: int)
    requires
        valid_utf8(b),
        is_char_boundary(b, i),
    ensures
        0 <= i <= b.len(),
    decreases b.len(),
{
    reveal_with_fuel(is_char_boundary, 1);
    if i != 0 && b.len() > 0 {
        lemma_boundary_in_range(pop_first_scalar(b), i - length_of_first_scalar(b));
        assert(length_of_first_scalar(b) + pop_first_scalar(b).len() == b.len()) by {
            reveal_with_fuel(valid_utf8, 1);
        }
    }
}

/// Both sides of a split at a char boundary are valid UTF-8.
pub proof fn lemma_split_valid(b: Seq<u8>, i: int)
    requires
        valid_utf8(b),
        is_char_boundary(b, i),
    ensures
        0 <= i <= b.len(),
        valid_utf8(b.take(i)),
        valid_utf8(b.skip(i)),
{
    lemma_boundary_in_range(b, i);
    valid_utf8_split(b, i);
    assert(b.take(i) =~= b.subrange(0, i));
    assert(b.skip(i) =~= b.subrange(i, b.len() as int));
}

/// Concatenating valid encodings keeps the char boundaries of both parts.
pub proof fn lemma_concat_boundaries(x: Seq<u8>, y: Seq<u8>)
    requires
        valid_utf8(x),
        valid_utf8(y),
    ensures
        valid_utf8(x + y),
        is_char_boundary(x + y, x.len() as int),
        forall|i: int| #[trigger] is_char_boundary(x, i) ==> is_char_boundary(x + y, i),
        forall|i: int| #[trigger] is_char_boundary(y, i) ==> is_char_boundary(x + y, x.len() + i),
{
    valid_utf8_concat(x, y);
    let xy = x + y;
    is_char_boundary_start_end_of_seq(xy);
    is_char_boundary_start_end_of_seq(y);
    assert(is_char_boundary(xy, x.len() as int)) by {
        if y.len() > 0 {
            is_char_boundary_iff_not_is_continuation_byte(y, 0);
            is_char_boundary_iff_not_is_continuation_byte(xy, x.len() as int);
            assert(xy[x.len() as int] == y[0]);
        }
    }
    assert forall|i: int| #[trigger] is_char_boundary(x, i) implies is_char_boundary(xy, i) by {
        lemma_boundary_in_range(x, i);
        if i < x.len() {
            is_char_boundary_iff_not_is_continuation_byte(x, i);
            is_char_boundary_iff_not_is_continuation_byte(xy, i);
            assert(xy[i] == x[i]);
        }
    }
    assert forall|i: int| #[trigger] is_char_boundary(y, i) implies is_char_boundary(xy, x.len() + i) by {
        lemma_boundary_in_range(y, i);
        if i < y.len() {
            is_char_boundary_iff_not_is_continuation_byte(y, i);
            is_char_boundary_iff_not_is_continuation_byte(xy, x.len() + i);
            assert(xy[x.len() + i] == y[i]);
        }
    }
}

/// Insert `ins` into `text` at byte offset `idx` (`String::insert_str`). The
/// call panics off a char boundary and when the grown text would exceed
/// `isize::MAX` bytes (a `String`'s capacity limit), so both are excluded.
#[verifier::external_body]
pub(crate) fn string_insert_str(text: &mut String, idx: usize, ins: &str)
    requires
        is_boundary(old(text)@, idx as int),
        byte_len(old(text)@) + byte_len(ins@) <= isize::MAX,
    ensures
        text_bytes(final(text)@) == text_bytes(old(text)@).take(idx as int) + text_bytes(ins@)
            + text_bytes(old(text)@).skip(idx as int),
        byte_len(final(text)@) <= isize::MAX,
{
    text.insert_str(idx, ins)
}

/// Replace bytes `lo..hi` of `text` with `with` (`String::replace_range`),
/// here only with a replacement no longer than the range, so the text never
/// grows.
#[verifier::external_body]
pub(crate) fn string_replace_range(text: &mut String, lo: usize, hi: usize, with: &str)
    requires
        lo <= hi,
        is_boundary(old(text)@, lo as int),
        is_boundary(old(text)@, hi as int),
        byte_len(with@) <= hi - lo,
    ensures
        text_bytes(final(text)@) == text_bytes(old(text)@).take(lo as int) + text_bytes(with@)
            + text_bytes(old(text)@).skip(hi as int),
        byte_len(final(text)@) <= isize::MAX,
{
    text.replace_range(lo..hi, with)
}

/// The substring of `text` at bytes `lo..hi`, or `None` when the range is out
/// of bounds, reversed, or not on char boundaries (`str::get`).
#[verifier::external_body]
pub(crate) fn str_get(text: &str, lo: usize, hi: usize) -> (piece: Option<&str>)
    ensures
        piece.is_some() == (lo <= hi && is_boundary(text@, lo as int) && is_boundary(
            text@,
            hi as int,
        )),
        piece.is_some() ==> text_bytes(piece.unwrap()@) == text_bytes(text@).subrange(
            lo as int,
            hi as int,
        ),
{
    text.get(lo..hi)
}

/// The largest char boundary of `text` at or before byte `byte` (so at most
/// the text's byte length): the point a splice at `byte` actually uses.
pub fn floor_char_boundary(text: &str, byte: usize) -> (r: usize)
    ensures
        r <= byte,
        is_boundary(text@, r as int),
        forall|j: int| r < j <= byte ==> !is_boundary(text@, j),
{
    let len = text.as_bytes().len();
    let mut at = if byte < len {
        byte
    } else {
        len
    };
    proof {
        assert forall|j: int| at < j <= byte implies !is_boundary(text@, j) by {
            if is_boundary(text@, j) {
                lemma_boundary_in_range(encode_utf8(text@), j);
            }
        }
    }
    while at > 0 && !text.is_char_boundary(at)
        invariant
            at <= byte,
            at <= len,
            len == encode_utf8(text@).len(),
            forall|j: int| at < j <= byte ==> !is_boundary(text@, j),
        decreases at,
    {
        at = at - 1;
    }
    proof {
        if at == 0 {
            reveal_with_fuel(is_char_boundary, 1);
        }
    }
    at
}

/// Append `c` to `text` (`String::push`); the grown text must stay within a
/// `String`'s `isize::MAX`-byte capacity limit, past which the call panics.
#[verifier::external_body]
pub(crate) fn string_push(text: &mut String, c: char)
    requires
        byte_len(old(text)@.push(c)) <= isize::MAX,
    ensures
        final(text)@ == old(text)@.push(c),
{
    text.push(c)
}

} // verus!
