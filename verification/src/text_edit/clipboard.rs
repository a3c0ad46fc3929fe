//! Clipboard copy / cut / paste over [`ImeState`].
//!
//! The `multiline` flag is the only difference between single-line and
//! multi-line paste handling: single-line strips every `\n`/`\r`; multi-line
//! normalizes CRLF and lone CR to LF and keeps the newlines.
use vstd::prelude::*;
use vstd::std_specs::iter::IteratorSpec;

use crate::ime::ImeState;
use crate::text_edit::grapheme::insert_text_at;
use crate::text_edit::ops::{
    bytes_without_selection, caret_without_selection, delete_selection, insert_fits, record_edit, recorded,
    reset_blink, selection_of, selection_range,
};
use crate::text_edit::text_bytes::{byte_len, lemma_encode_concat, str_get, string_push, text_bytes};
use crate::text_edit::undo::EditOp;

verus! {

broadcast use {vstd::utf8::group_utf8_lib, vstd::string::group_string_axioms};

/// `s` with every CRLF pair and every lone CR turned into LF.
pub open spec fn normalize_newlines(s: Seq<char>) -> Seq<char>
    decreases s.len(),
{
    if s.len() == 0 {
        Seq::empty()
    } else if s[0] == '\r' && s.len() > 1 && s[1] == '\n' {
        seq!['\n'] + normalize_newlines(s.skip(2))
    } else if s[0] == '\r' {
        seq!['\n'] + normalize_newlines(s.skip(1))
    } else {
        seq![s[0]] + normalize_newlines(s.skip(1))
    }
}

/// `s` without any `\n` or `\r`.
pub open spec fn strip_newlines(s: Seq<char>) -> Seq<char> {
    s.filter(|c: char| c != '\n' && c != '\r')
}

/// A single-line paste never carries a line break: stripping leaves no `\n`
/// and no `\r`.
pub proof fn law_single_line_paste_has_no_breaks(s: Seq<char>)
    ensures
        forall|i: int|
            0 <= i < strip_newlines(s).len() ==> #[trigger] strip_newlines(s)[i] != '\n'
                && strip_newlines(s)[i] != '\r',
{
    assert forall|i: int| 0 <= i < strip_newlines(s).len() implies #[trigger] strip_newlines(s)[i]
        != '\n' && strip_newlines(s)[i] != '\r' by {
        s.lemma_filter_pred(|c: char| c != '\n' && c != '\r', i);
    }
}

/// A multi-line paste never carries a carriage return: every CR, alone or
/// before LF, has become LF.
pub proof fn law_multiline_paste_has_no_cr(s: Seq<char>)
    ensures
        forall|i: int| 0 <= i < normalize_newlines(s).len() ==> #[trigger] normalize_newlines(s)[i] != '\r',
    decreases s.len(),
{
    if s.len() > 0 {
        let rest = if s[0] == '\r' && s.len() > 1 && s[1] == '\n' {
            s.skip(2)
        } else {
            s.skip(1)
        };
        law_multiline_paste_has_no_cr(rest);
        let head = if s[0] == '\r' {
            '\n'
        } else {
            s[0]
        };
        assert(normalize_newlines(s) == seq![head] + normalize_newlines(rest));
        assert forall|i: int| 0 <= i < normalize_newlines(s).len() implies #[trigger] normalize_newlines(s)[i]
            != '\r' by {
            if i > 0 {
                assert(normalize_newlines(s)[i] == normalize_newlines(rest)[i - 1]);
            }
        }
    }
}

/// The characters of `s`, in order.
fn chars_of(s: &str) -> (r: Vec<char>)
    ensures
        r@ == s@,
{
    let mut it = s.chars();
    let mut out: Vec<char> = Vec::new();
    loop
        invariant
            out@ + it.remaining() == s@,
            it.decrease() is Some,
        ensures
            out@ == s@,
        decreases it.decrease()->0,
    {
        match it.next() {
            Some(c) => {
                proof {
                    assert(out@.push(c) + it.remaining() =~= s@);
                }
                out.push(c);
            },
            None => {
                assert(out@ =~= s@);
                break ;
            },
        }
    }
    out
}

/// A single char takes one to four bytes; a line break takes one.
proof fn lemma_char_bytes(c: char)
    ensures
        1 <= byte_len(seq![c]) <= 4,
        (c == '\n' || c == '\r') ==> byte_len(seq![c]) == 1,
{
    let s = seq![c];
    assert(s.drop_first() =~= Seq::<char>::empty());
    assert(s[0] == c);
    assert(vstd::utf8::encode_utf8(Seq::<char>::empty()) =~= Seq::<u8>::empty());
    assert(vstd::utf8::encode_utf8(s) == vstd::utf8::encode_scalar(s[0] as u32) + vstd::utf8::encode_utf8(
        s.drop_first(),
    ));
    assert(vstd::utf8::encode_utf8(s) =~= vstd::utf8::encode_scalar(c as u32));
    assert('\n' as u32 == 10u32);
    assert('\r' as u32 == 13u32);
}

/// Normalizing line breaks never lengthens the UTF-8 encoding.
proof fn lemma_normalize_bytes(s: Seq<char>)
    ensures
        byte_len(normalize_newlines(s)) <= byte_len(s),
    decreases s.len(),
{
    if s.len() > 0 {
        lemma_char_bytes(s[0]);
        lemma_char_bytes('\n');
        if s[0] == '\r' && s.len() > 1 && s[1] == '\n' {
            lemma_normalize_bytes(s.skip(2));
            lemma_char_bytes(s[1]);
            assert(s =~= seq![s[0]] + (seq![s[1]] + s.skip(2)));
            lemma_encode_concat(seq![s[0]], seq![s[1]] + s.skip(2));
            lemma_encode_concat(seq![s[1]], s.skip(2));
            lemma_encode_concat(seq!['\n'], normalize_newlines(s.skip(2)));
        } else {
            lemma_normalize_bytes(s.skip(1));
            assert(s =~= seq![s[0]] + s.skip(1));
            lemma_encode_concat(seq![s[0]], s.skip(1));
            if s[0] == '\r' {
                lemma_encode_concat(seq!['\n'], normalize_newlines(s.skip(1)));
            } else {
                lemma_encode_concat(seq![s[0]], normalize_newlines(s.skip(1)));
            }
        }
    }
}

/// Stripping line breaks never lengthens the UTF-8 encoding.
proof fn lemma_strip_bytes(s: Seq<char>)
    ensures
        byte_len(strip_newlines(s)) <= byte_len(s),
    decreases s.len(),
{
    reveal(Seq::filter);
    if s.len() > 0 {
        let init = s.drop_last();
        let c = s.last();
        lemma_strip_bytes(init);
        assert(s =~= init + seq![c]);
        lemma_encode_concat(init, seq![c]);
        lemma_char_bytes(c);
        if c != '\n' && c != '\r' {
            assert(strip_newlines(s) =~= strip_newlines(init) + seq![c]);
            lemma_encode_concat(strip_newlines(init), seq![c]);
        } else {
            assert(strip_newlines(s) =~= strip_newlines(init));
        }
    }
}

/// A prefix never takes more bytes than the whole.
proof fn lemma_prefix_bytes(s: Seq<char>, i: int)
    requires
        0 <= i <= s.len(),
    ensures
        byte_len(s.take(i)) <= byte_len(s),
{
    assert(s =~= s.take(i) + s.skip(i));
    lemma_encode_concat(s.take(i), s.skip(i));
}

/// Normalize raw clipboard text for insertion: strip line breaks for a
/// single-line field, normalize them to LF for a multi-line one.
pub fn clean_paste(raw: &str, multiline: bool) -> (r: String)
    requires
        byte_len(raw@) <= isize::MAX,
    ensures
        r@ == (if multiline {
            normalize_newlines(raw@)
        } else {
            strip_newlines(raw@)
        }),
{
    let chars = chars_of(raw);
    let n = chars.len();
    let mut out = String::new();
    if multiline {
        proof {
            assert(chars@.skip(0) =~= chars@);
            assert(out@ + normalize_newlines(raw@) =~= normalize_newlines(raw@));
        }
        proof {
            lemma_normalize_bytes(raw@);
        }
        let mut i: usize = 0;
        while i < n
            invariant
                n == chars.len(),
                i <= n,
                chars@ == raw@,
                out@ + normalize_newlines(chars@.skip(i as int)) == normalize_newlines(raw@),
                byte_len(normalize_newlines(raw@)) <= isize::MAX,
            decreases n - i,
        {
            let ghost rest = chars@.skip(i as int);
            let c = chars[i];
            if c == '\r' && i + 1 < n && chars[i + 1] == '\n' {
                proof {
                    assert(rest.skip(2) =~= chars@.skip(i + 2));
                    let grown = out@.push('\n');
                    assert(grown + normalize_newlines(chars@.skip(i + 2)) =~= normalize_newlines(raw@));
                    lemma_encode_concat(grown, normalize_newlines(chars@.skip(i + 2)));
                }
                string_push(&mut out, '\n');
                proof {
                    assert(rest.skip(2) =~= chars@.skip(i + 2));
                    assert(out@ + normalize_newlines(chars@.skip(i + 2)) =~= normalize_newlines(raw@));
                }
                i = i + 2;
            } else {
                proof {
                    assert(rest.skip(1) =~= chars@.skip(i + 1));
                    let grown = out@.push(if c == '\r' { '\n' } else { c });
                    assert(grown + normalize_newlines(chars@.skip(i + 1)) =~= normalize_newlines(raw@));
                    lemma_encode_concat(grown, normalize_newlines(chars@.skip(i + 1)));
                }
                string_push(&mut out, if c == '\r' {
                    '\n'
                } else {
                    c
                });
                proof {
                    assert(rest.skip(1) =~= chars@.skip(i + 1));
                    assert(out@ + normalize_newlines(chars@.skip(i + 1)) =~= normalize_newlines(raw@));
                }
                i = i + 1;
            }
        }
        proof {
            assert(chars@.skip(n as int) =~= Seq::<char>::empty());
            assert(out@ + Seq::<char>::empty() =~= out@);
        }
    } else {
        let mut i: usize = 0;
        while i < n
            invariant
                n == chars.len(),
                i <= n,
                chars@ == raw@,
                out@ == strip_newlines(chars@.take(i as int)),
                byte_len(raw@) <= isize::MAX,
            decreases n - i,
        {
            let c = chars[i];
            proof {
                assert(chars@.take(i + 1).drop_last() =~= chars@.take(i as int));
                reveal(Seq::filter);
            }
            if c != '\n' && c != '\r' {
                proof {
                    assert(out@.push(c) =~= strip_newlines(chars@.take(i + 1)));
                    lemma_strip_bytes(chars@.take(i + 1));
                    lemma_prefix_bytes(raw@, i + 1);
                }
                string_push(&mut out, c);
            }
            i = i + 1;
        }
        proof {
            assert(chars@.take(n as int) =~= raw@);
        }
    }
    out
}

/// The currently selected text, or `None` when the selection is empty.
pub fn selected_text(state: &ImeState) -> (r: Option<String>)
    requires
        state.wf(),
    ensures
        selection_of(*state) is None ==> r is None,
        selection_of(*state) matches Some((lo, hi)) ==> r matches Some(s) && text_bytes(s@)
            == text_bytes(state.text@).subrange(lo as int, hi as int),
{
    match selection_range(state) {
        Some((lo, hi)) => {
            let piece = str_get(state.text.as_str(), lo, hi);
            Some(piece.unwrap().to_owned())
        },
        None => None,
    }
}

/// `after` is `before` once its selection was cut: the selection's bytes
/// removed, the caret at its start, no anchor, the blink re-armed and a
/// discrete undo step recorded; nothing else changes.
pub open spec fn cut_applied(before: ImeState, after: ImeState) -> bool {
    &&& text_bytes(after.text@) == bytes_without_selection(before)
    &&& after.caret == caret_without_selection(before)
    &&& after.selection_anchor is None
    &&& after.blink.visible && after.blink.next is None
    &&& recorded(before.undo@, EditOp::Discrete, after, after.undo@)
    &&& after.preedit == before.preedit
    &&& after.caret_affinity == before.caret_affinity
    &&& after.dragging == before.dragging
    &&& after.undo_seeded == before.undo_seeded
    &&& after.last_click_time == before.last_click_time
    &&& after.click_count == before.click_count
}

/// `after` is `before` once `cleaned` was pasted: the composition aborted, the
/// selection replaced by (or the caret position given) the pasted text, the
/// caret after it, no anchor, the blink re-armed and a discrete undo step
/// recorded; nothing else changes.
pub open spec fn paste_applied(before: ImeState, after: ImeState, cleaned: Seq<char>) -> bool {
    let mid = bytes_without_selection(before);
    let c = caret_without_selection(before);
    &&& text_bytes(after.text@) == mid.take(c as int) + text_bytes(cleaned) + mid.skip(c as int)
    &&& after.caret == c + byte_len(cleaned)
    &&& after.selection_anchor is None
    &&& after.preedit is None
    &&& after.blink.visible && after.blink.next is None
    &&& recorded(before.undo@, EditOp::Discrete, after, after.undo@)
    &&& after.caret_affinity == before.caret_affinity
    &&& after.dragging == before.dragging
    &&& after.undo_seeded == before.undo_seeded
    &&& after.last_click_time == before.last_click_time
    &&& after.click_count == before.click_count
}

/// Cut: delete the active selection, record a discrete undo step, reset the
/// blink. Returns the text after the cut (the caller has already copied the
/// selection to the clipboard).
pub fn apply_cut(state: &mut ImeState) -> (r: String)
    requires
        old(state).wf(),
    ensures
        final(state).wf(),
        r@ == final(state).text@,
        cut_applied(*old(state), *final(state)),
{
    delete_selection(state);
    record_edit(state, EditOp::Discrete);
    reset_blink(state);
    state.text.clone()
}

/// Paste already-cleaned text at the caret: abort any composition, replace
/// the selection, insert, record a discrete undo step, reset the blink.
/// Returns the text after the paste.
pub fn apply_paste(state: &mut ImeState, cleaned: &str) -> (r: String)
    requires
        old(state).wf(),
        insert_fits(*old(state), cleaned@),
    ensures
        final(state).wf(),
        r@ == final(state).text@,
        paste_applied(*old(state), *final(state), cleaned@),
{
    state.preedit = None;
    delete_selection(state);
    let old_caret = state.caret;
    let new_caret = insert_text_at(&mut state.text, old_caret, cleaned);
    state.caret = new_caret;
    record_edit(state, EditOp::Discrete);
    reset_blink(state);
    state.text.clone()
}

} // verus!
