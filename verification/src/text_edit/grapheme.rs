//! Grapheme-aware caret motion helpers. All functions operate on UTF-8 byte
//! offsets; grapheme boundaries come from `unicode_segmentation`.
use vstd::prelude::*;
use vstd::utf8::*;

use unicode_segmentation::GraphemeCursor;

use crate::text_edit::text_bytes::{
    byte_len, is_boundary, lemma_concat_boundaries, lemma_split_valid, string_insert_str,
    string_replace_range, text_bytes,
};

verus! {

broadcast use vstd::utf8::group_utf8_lib;

/// What an extended-grapheme cursor at `caret` reports as the previous
/// boundary of `text` (`None` for an incomplete-chunk error).
pub uninterp spec fn grapheme_prev_result(text: Seq<char>, caret: usize) -> Option<Option<usize>>;

/// What an extended-grapheme cursor at `caret` reports as the next boundary of
/// `text` (`None` for an incomplete-chunk error).
pub uninterp spec fn grapheme_next_result(text: Seq<char>, caret: usize) -> Option<Option<usize>>;

/// `GraphemeCursor::new(caret, len, true)` then `prev_boundary(text, 0)`, the
/// whole text given as one chunk. The cursor steps back over whole chars, so a
/// reported boundary is a char boundary before `caret`.
#[verifier::external_body]
fn cursor_prev_boundary(text: &str, caret: usize) -> (r: Option<Option<usize>>)
    requires
        is_boundary(text@, caret as int),
    ensures
        r == grapheme_prev_result(text@, caret),
        r matches Some(Some(b)) ==> b < caret && is_boundary(text@, b as int),
{
    GraphemeCursor::new(caret, text.len(), true).prev_boundary(text, 0).ok()
}

/// `GraphemeCursor::new(caret, len, true)` then `next_boundary(text, 0)`, the
/// whole text given as one chunk. The cursor steps forward over whole chars, so
/// a reported boundary is a char boundary after `caret`.
#[verifier::external_body]
fn cursor_next_boundary(text: &str, caret: usize) -> (r: Option<Option<usize>>)
    requires
        is_boundary(text@, caret as int),
    ensures
        r == grapheme_next_result(text@, caret),
        r matches Some(Some(b)) ==> caret < b && is_boundary(text@, b as int),
{
    GraphemeCursor::new(caret, text.len(), true).next_boundary(text, 0).ok()
}

/// The previous grapheme boundary reported for `caret`, 0 when none.
pub open spec fn prev_boundary_spec(text: Seq<char>, caret: usize) -> usize {
    match grapheme_prev_result(text, caret) {
        Some(Some(b)) => b,
        _ => 0,
    }
}

/// The next grapheme boundary reported for `caret`, the text's end when none.
pub open spec fn next_boundary_spec(text: Seq<char>, caret: usize) -> usize {
    match grapheme_next_result(text, caret) {
        Some(Some(b)) => b,
        _ => byte_len(text) as usize,
    }
}

/// Byte offset of the grapheme boundary immediately before `caret` (0 at the start).
pub fn prev_grapheme_boundary(text: &str, caret: usize) -> (r: usize)
    requires
        is_boundary(text@, caret as int),
    ensures
        r == prev_boundary_spec(text@, caret),
        r <= caret,
        is_boundary(text@, r as int),
{
    proof {
        is_char_boundary_start_end_of_seq(text_bytes(text@));
    }
    match cursor_prev_boundary(text, caret) {
        Some(Some(b)) => b,
        _ => 0,
    }
}

/// Byte offset of the grapheme boundary immediately after `caret` (the text's
/// length at the end).
pub fn next_grapheme_boundary(text: &str, caret: usize) -> (r: usize)
    requires
        is_boundary(text@, caret as int),
        byte_len(text@) <= usize::MAX,
    ensures
        r == next_boundary_spec(text@, caret),
        caret <= r,
        is_boundary(text@, r as int),
{
    proof {
        is_char_boundary_start_end_of_seq(text_bytes(text@));
        crate::text_edit::text_bytes::lemma_boundary_in_range(text_bytes(text@), caret as int);
    }
    match cursor_next_boundary(text, caret) {
        Some(Some(b)) => b,
        _ => text.len(),
    }
}

/// Insert `ins` at byte offset `caret` in `text`; returns the new caret
/// (just after the inserted text).
pub fn insert_text_at(text: &mut String, caret: usize, ins: &str) -> (r: usize)
    requires
        is_boundary(old(text)@, caret as int),
        byte_len(old(text)@) + byte_len(ins@) <= isize::MAX,
    ensures
        text_bytes(final(text)@) == text_bytes(old(text)@).take(caret as int) + text_bytes(ins@)
            + text_bytes(old(text)@).skip(caret as int),
        r == caret + byte_len(ins@),
        is_boundary(final(text)@, r as int),
{
    proof {
        lemma_split_valid(text_bytes(old(text)@), caret as int);
    }
    let ghost before = text_bytes(old(text)@);
    string_insert_str(text, caret, ins);
    proof {
        let x = before.take(caret as int) + text_bytes(ins@);
        lemma_concat_boundaries(before.take(caret as int), text_bytes(ins@));
        lemma_concat_boundaries(x, before.skip(caret as int));
        assert(text_bytes(final(text)@) == x + before.skip(caret as int));
        assert(x.len() == caret + byte_len(ins@));
    }
    caret + ins.len()
}

/// Delete the grapheme cluster immediately before `caret`; returns the new
/// caret (start of the deleted grapheme). No-op at the start of the text.
pub fn delete_grapheme_before(text: &mut String, caret: usize) -> (r: usize)
    requires
        is_boundary(old(text)@, caret as int),
    ensures
        r == prev_boundary_spec(old(text)@, caret),
        r <= caret,
        text_bytes(final(text)@) == text_bytes(old(text)@).take(r as int) + text_bytes(
            old(text)@,
        ).skip(caret as int),
        is_boundary(final(text)@, r as int),
{
    let prev = prev_grapheme_boundary(text.as_str(), caret);
    let ghost before = text_bytes(old(text)@);
    proof {
        lemma_split_valid(before, prev as int);
        lemma_split_valid(before, caret as int);
        lemma_concat_boundaries(before.take(prev as int), before.skip(caret as int));
    }
    if prev < caret {
        proof {
            reveal_strlit("");
        }
        string_replace_range(text, prev, caret, "");
        proof {
            assert(text_bytes(""@) =~= Seq::<u8>::empty()) by {
                reveal_strlit("");
            }
            assert(before.take(prev as int) + Seq::<u8>::empty() =~= before.take(prev as int));
        }
    } else {
        proof {
            assert(before.take(prev as int) + before.skip(caret as int) =~= before);
        }
    }
    prev
}

} // verus!
