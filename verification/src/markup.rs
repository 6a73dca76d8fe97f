//! The marker syntax and its expansion.
//!
//! A marker is two characters long. The first, the sentinel, is `$` for the
//! foreground or `#` for the background. The second, the code, is one of the
//! letters `k r g y b m c w` (a capital letter selects the bright colour) or
//! the digit `0`, which resets the terminal whatever the sentinel.

use vstd::prelude::*;
use vstd::std_specs::iter::IteratorSpec;
use crate::ansi::{escape, push_escape};

verus! {

/// The codes in the order of their slots: eight colours, then the reset.
pub const MARKER_CODES: [char; 9] = ['k', 'r', 'g', 'y', 'b', 'm', 'c', 'w', '0'];

/// The slot that stands for the reset and for no colour.
pub const RESET_SLOT: u8 = 8;

/// Whether `c` opens a marker.
pub open spec fn is_sentinel(c: char) -> bool {
    c == '$' || c == '#'
}

/// The number from which the colours selected by the sentinel `lead` count.
pub open spec fn layer_base(lead: char) -> nat {
    if lead == '#' {
        40
    } else {
        30
    }
}

/// Whether `c` is a capital letter of ASCII.
pub open spec fn is_capital(c: char) -> bool {
    'A' <= c <= 'Z'
}

/// `c` with a capital letter of ASCII replaced by its small letter.
pub open spec fn fold_case(c: char) -> char {
    if is_capital(c) {
        ((c as int) + 32) as char
    } else {
        c
    }
}

/// The slot of a code written in its canonical form: a small letter or `0`.
pub open spec fn canonical_slot(c: char) -> Option<nat> {
    match c {
        'k' => Some(0),
        'r' => Some(1),
        'g' => Some(2),
        'y' => Some(3),
        'b' => Some(4),
        'm' => Some(5),
        'c' => Some(6),
        'w' => Some(7),
        '0' => Some(8),
        _ => None,
    }
}

/// The slot that the code `c` selects, whatever the case of the letter, or
/// `None` where `c` is no code.
pub open spec fn code_slot(c: char) -> Option<nat> {
    canonical_slot(fold_case(c))
}

/// What a capital code adds to the colour's number.
pub open spec fn brightness(code: char) -> nat {
    if is_capital(code) {
        60
    } else {
        0
    }
}

/// The number of the escape sequence that the marker `lead`, `code` stands for:
/// zero for the reset, else the layer's base, the brightness and the slot added up.
pub open spec fn rendition(lead: char, code: char) -> nat
    recommends
        is_sentinel(lead),
        code_slot(code) is Some,
{
    match code_slot(code) {
        Some(slot) if slot < 8 => layer_base(lead) + brightness(code) + slot,
        _ => 0,
    }
}

/// Whether `text` begins with a marker.
pub open spec fn starts_with_marker(text: Seq<char>) -> bool {
    text.len() >= 2 && is_sentinel(text[0]) && code_slot(text[1]) is Some
}

/// `text` with every marker replaced by its escape sequence, read from left to
/// right: a character that a marker has used up opens no other marker, and a
/// character that opens no marker is copied.
pub open spec fn expand(text: Seq<char>) -> Seq<char>
    decreases text.len(),
{
    if text.len() == 0 {
        Seq::empty()
    } else if starts_with_marker(text) {
        escape(rendition(text[0], text[1])) + expand(text.skip(2))
    } else {
        seq![text[0]] + expand(text.skip(1))
    }
}

/// The table holds the code of each slot in the place of that slot, so no
/// code stands in it twice.
pub proof fn lemma_codes_in_slot_order()
    ensures
        forall|i: int|
            0 <= i < 9 ==> canonical_slot(#[trigger] MARKER_CODES[i]) == Some(i as nat),
{
}

/// The small letter of a capital letter of ASCII; any other character as it is.
pub fn to_small(c: char) -> (r: char)
    ensures
        r == fold_case(c),
{
    if 'A' <= c && c <= 'Z' {
        ((c as u8) + 32) as char
    } else {
        c
    }
}

/// Looks the code `c` up in [`MARKER_CODES`].
pub fn find_slot(c: char) -> (found: Option<u8>)
    ensures
        match found {
            Some(slot) => code_slot(c) == Some(slot as nat),
            None => code_slot(c) is None,
        },
{
    let small = to_small(c);
    let mut i: u8 = 0;
    while i < 9
        invariant
            i <= 9,
            small == fold_case(c),
            forall|j: int| 0 <= j < i ==> MARKER_CODES[j] != small,
        decreases 9 - i,
    {
        if MARKER_CODES[i as usize] == small {
            return Some(i);
        }
        i = i + 1;
    }
    None
}

/// The number of the escape sequence for the marker made of the sentinel
/// `lead` and the code `code`, whose slot is `slot`.
pub fn marker_number(lead: char, code: char, slot: u8) -> (n: u8)
    requires
        code_slot(code) == Some(slot as nat),
    ensures
        n as nat == rendition(lead, code),
{
    if slot == RESET_SLOT {
        0
    } else {
        let base: u8 = if lead == '#' { 40 } else { 30 };
        let bright: u8 = if 'A' <= code && code <= 'Z' { 60 } else { 0 };
        base + bright + slot
    }
}

/// Whether `c` opens a marker.
pub fn is_lead(c: char) -> (b: bool)
    ensures
        b == is_sentinel(c),
{
    c == '$' || c == '#'
}

/// The number of the escape sequence for `code` behind the sentinel that was
/// kept back, or `None` where the two form no marker: where nothing was kept
/// back, or `code` is no code.
pub fn marker_behind(lead: Option<char>, code: char) -> (number: Option<u8>)
    ensures
        number is Some <==> lead is Some && code_slot(code) is Some,
        number is Some ==> number->0 as nat == rendition(lead->0, code),
{
    match lead {
        Some(l) => match find_slot(code) {
            Some(slot) => Some(marker_number(l, code, slot)),
            None => None,
        },
        None => None,
    }
}

/// A marker at the head of a text is replaced by its escape sequence, and the
/// expansion goes on behind the code.
pub proof fn lemma_expand_marker(lead: char, code: char, rest: Seq<char>)
    requires
        is_sentinel(lead),
        code_slot(code) is Some,
    ensures
        expand(seq![lead, code] + rest) == escape(rendition(lead, code)) + expand(rest),
{
    let text = seq![lead, code] + rest;
    assert(text.skip(2) =~= rest);
}

/// A character at the head of a text that opens no marker is copied, and the
/// expansion goes on with the character behind it.
pub proof fn lemma_expand_literal(c: char, rest: Seq<char>)
    requires
        !(is_sentinel(c) && rest.len() > 0 && code_slot(rest[0]) is Some),
    ensures
        expand(seq![c] + rest) == seq![c] + expand(rest),
{
    let text = seq![c] + rest;
    assert(text.skip(1) =~= rest);
}

/// The text that a sentinel kept back stands for: itself, or nothing.
spec fn kept_back(lead: Option<char>) -> Seq<char> {
    match lead {
        Some(c) => seq![c],
        None => Seq::empty(),
    }
}

/// Rewrites every marker in `s` into its escape sequence and copies every other
/// character. The text is read once, character by character; a sentinel is
/// kept back until the character behind it shows whether the two form a marker.
pub fn convert(s: &str) -> (out: String)
    ensures
        out@ == expand(s@),
{
    broadcast use vstd::string::group_string_axioms;

    let mut out = String::new();
    let mut chars = s.chars();
    let mut lead: Option<char> = None;
    loop
        invariant
            chars.decrease() is Some,
            lead is Some ==> is_sentinel(lead->0),
            out@ + expand(kept_back(lead) + chars.remaining()) == expand(s@),
        ensures
            out@ == expand(s@),
        decreases chars.decrease()->0,
    {
        let ghost ahead = chars.remaining();
        match chars.next() {
            Some(c) => {
                let ghost rest = chars.remaining();
                match marker_behind(lead, c) {
                    Some(n) => {
                        push_escape(&mut out, n);
                        proof {
                            lemma_expand_marker(lead->0, c, rest);
                            assert(kept_back(lead) + ahead =~= seq![lead->0, c] + rest);
                        }
                        lead = None;
                    },
                    None => {
                        if let Some(l) = lead {
                            out.push(l);
                            proof {
                                lemma_expand_literal(l, ahead);
                            }
                        }
                        if is_lead(c) {
                            lead = Some(c);
                        } else {
                            out.push(c);
                            lead = None;
                            proof {
                                lemma_expand_literal(c, rest);
                            }
                        }
                    },
                }
                assert(kept_back(lead) + rest =~= if lead is Some {
                    ahead
                } else {
                    rest
                });
            },
            None => {
                if let Some(l) = lead {
                    out.push(l);
                    lead = None;
                    proof {
                        lemma_expand_literal(l, ahead);
                    }
                }
                break;
            },
        }
    }
    out
}

} // verus!
