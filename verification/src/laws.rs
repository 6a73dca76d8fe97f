//! What holds of the expansion on every text.

use vstd::prelude::*;
use crate::ansi::{escape, lemma_escape_shape, ESC};
use crate::markup::{code_slot, expand, is_sentinel, rendition, starts_with_marker};

verus! {

/// Whether `text` holds no `$` and no `#`.
pub open spec fn sentinel_free(text: Seq<char>) -> bool {
    forall|i: int| 0 <= i < text.len() ==> !is_sentinel(#[trigger] text[i])
}

/// Whether no two neighbours in `text` form a marker.
pub open spec fn marker_free(text: Seq<char>) -> bool {
    forall|i: int|
        0 <= i && i + 1 < text.len() ==> !(is_sentinel(#[trigger] text[i]) && code_slot(
            text[i + 1],
        ) is Some)
}

/// A text without markers is its own expansion.
pub proof fn lemma_marker_free_unchanged(text: Seq<char>)
    requires
        marker_free(text),
    ensures
        expand(text) == text,
    decreases text.len(),
{
    if text.len() > 0 {
        let rest = text.skip(1);
        assert(marker_free(rest)) by {
            assert forall|i: int| 0 <= i && i + 1 < rest.len() implies !(is_sentinel(
                #[trigger] rest[i],
            ) && code_slot(rest[i + 1]) is Some) by {
                assert(rest[i] == text[i + 1]);
            }
        }
        lemma_marker_free_unchanged(rest);
    }
}

/// A text that holds neither `$` nor `#` is its own expansion.
pub proof fn lemma_plain_text_unchanged(text: Seq<char>)
    requires
        sentinel_free(text),
    ensures
        expand(text) == text,
{
    lemma_marker_free_unchanged(text);
}

/// A text of one character is its own expansion, whatever the character:
/// a sentinel with nothing behind it opens no marker.
pub proof fn lemma_single_char_unchanged(c: char)
    ensures
        expand(seq![c]) == seq![c],
{
    lemma_marker_free_unchanged(seq![c]);
}

/// An escape sequence holds no sentinel, and is therefore its own expansion.
pub proof fn lemma_escape_unchanged(n: nat)
    ensures
        sentinel_free(escape(n)),
        expand(escape(n)) == escape(n),
{
    lemma_escape_shape(n);
    lemma_plain_text_unchanged(escape(n));
}

/// The expansion of a text holds no marker: it opens with `ESC` or with the
/// text's own first character, and behind a sentinel that was copied stands
/// either `ESC` or a character that is no code.
pub proof fn lemma_expansion_is_marker_free(text: Seq<char>)
    ensures
        marker_free(expand(text)),
        text.len() > 0 ==> expand(text).len() > 0 && (expand(text)[0] == ESC || expand(text)[0]
            == text[0]),
    decreases text.len(),
{
    let whole = expand(text);
    if text.len() == 0 {
    } else if starts_with_marker(text) {
        // An escape sequence, which holds no sentinel, then the rest's expansion.
        let head = escape(rendition(text[0], text[1]));
        let tail = expand(text.skip(2));
        lemma_escape_unchanged(rendition(text[0], text[1]));
        lemma_escape_shape(rendition(text[0], text[1]));
        lemma_expansion_is_marker_free(text.skip(2));
        assert forall|i: int| 0 <= i && i + 1 < whole.len() implies !(is_sentinel(
            #[trigger] whole[i],
        ) && code_slot(whole[i + 1]) is Some) by {
            if i < head.len() {
                assert(whole[i] == head[i]);
            } else {
                assert(whole[i] == tail[i - head.len()]);
            }
        }
    } else {
        // The first character, then the rest's expansion, which opens with
        // `ESC` or with the second character: neither is a code here.
        let tail = expand(text.skip(1));
        lemma_expansion_is_marker_free(text.skip(1));
        assert forall|i: int| 0 <= i && i + 1 < whole.len() implies !(is_sentinel(
            #[trigger] whole[i],
        ) && code_slot(whole[i + 1]) is Some) by {
            if i == 0 {
                assert(whole[1] == tail[0]);
            } else {
                assert(whole[i] == tail[i - 1]);
            }
        }
    }
}

/// To expand a text a second time changes nothing: the escape sequences hold
/// no sentinel, and what was copied forms no marker.
pub proof fn lemma_second_pass_unchanged(text: Seq<char>)
    ensures
        expand(expand(text)) == expand(text),
{
    lemma_expansion_is_marker_free(text);
    lemma_marker_free_unchanged(expand(text));
}

/// The expansion of a text is at least as long as the text: a marker of two
/// characters gives way to a sequence of four or more.
pub proof fn lemma_expansion_not_shorter(text: Seq<char>)
    ensures
        expand(text).len() >= text.len(),
    decreases text.len(),
{
    if text.len() == 0 {
    } else if starts_with_marker(text) {
        lemma_escape_shape(rendition(text[0], text[1]));
        lemma_expansion_not_shorter(text.skip(2));
    } else {
        lemma_expansion_not_shorter(text.skip(1));
    }
}

/// Text without sentinels in front of any text is copied, and the expansion
/// of what follows is not touched by it.
pub proof fn lemma_plain_prefix_copied(plain: Seq<char>, text: Seq<char>)
    requires
        sentinel_free(plain),
    ensures
        expand(plain + text) == plain + expand(text),
    decreases plain.len(),
{
    if plain.len() > 0 {
        let whole = plain + text;
        assert(!is_sentinel(plain[0]));
        assert(whole.skip(1) =~= plain.skip(1) + text);
        lemma_plain_prefix_copied(plain.skip(1), text);
    } else {
        assert(plain + text =~= text);
    }
}

} // verus!
