//! Colours by their full names, and text painted in one of them.

use vstd::prelude::*;
use vstd::string::StringExecFns;
use crate::ansi::{escape, push_escape};
use crate::text::same_text;

verus! {

/// The names of the eight colours in the order of their slots.
pub const COLOR_NAMES: [&'static str; 8] = [
    "black",
    "red",
    "green",
    "yellow",
    "blue",
    "magenta",
    "cyan",
    "white",
];

/// The number of the escape sequence for the foreground colour in slot zero.
pub const FOREGROUND_BASE: u8 = 30;

/// The slot of the colour called `name`, or `None` where no colour is called
/// so. The names are in small letters, and a name in other letters is none.
pub open spec fn name_slot(name: Seq<char>) -> Option<nat> {
    if name == "black"@ {
        Some(0)
    } else if name == "red"@ {
        Some(1)
    } else if name == "green"@ {
        Some(2)
    } else if name == "yellow"@ {
        Some(3)
    } else if name == "blue"@ {
        Some(4)
    } else if name == "magenta"@ {
        Some(5)
    } else if name == "cyan"@ {
        Some(6)
    } else if name == "white"@ {
        Some(7)
    } else {
        None
    }
}

/// `body` behind the escape sequence of the foreground colour called `name`,
/// or `body` alone where no colour is called so. Nothing follows `body`, and
/// nothing in it is read as a marker.
pub open spec fn painted(name: Seq<char>, body: Seq<char>) -> Seq<char> {
    match name_slot(name) {
        Some(slot) => escape(30 + slot) + body,
        None => body,
    }
}

/// The table holds the name of each slot in the place of that slot, so no
/// name stands in it twice.
pub proof fn lemma_names_in_slot_order()
    ensures
        forall|i: int| 0 <= i < 8 ==> name_slot(#[trigger] COLOR_NAMES[i]@) == Some(i as nat),
{
    reveal_strlit("black");
    reveal_strlit("red");
    reveal_strlit("green");
    reveal_strlit("yellow");
    reveal_strlit("blue");
    reveal_strlit("magenta");
    reveal_strlit("cyan");
    reveal_strlit("white");
    // The names differ in their first letters, but for `black` and `blue`,
    // which differ in length.
    assert("black"@[0] == 'b' && "red"@[0] == 'r' && "green"@[0] == 'g' && "yellow"@[0] == 'y');
    assert("blue"@[0] == 'b' && "magenta"@[0] == 'm' && "cyan"@[0] == 'c' && "white"@[0] == 'w');
    assert("black"@.len() == 5 && "blue"@.len() == 4);
}

/// Looks the colour `color` up in [`COLOR_NAMES`].
pub fn find_name(color: &str) -> (found: Option<u8>)
    ensures
        match found {
            Some(slot) => name_slot(color@) == Some(slot as nat),
            None => name_slot(color@) is None,
        },
{
    let mut i: u8 = 0;
    while i < 8
        invariant
            i <= 8,
            forall|j: int| 0 <= j < i ==> COLOR_NAMES[j]@ != color@,
        decreases 8 - i,
    {
        if same_text(COLOR_NAMES[i as usize], color) {
            return Some(i);
        }
        i = i + 1;
    }
    None
}

/// Puts the escape sequence of the foreground colour `color` in front of `s`.
/// A name that is no colour's leaves `s` as it is.
pub fn paint(color: &str, s: &str) -> (out: String)
    ensures
        out@ == painted(color@, s@),
{
    let mut out = String::new();
    if let Some(slot) = find_name(color) {
        push_escape(&mut out, FOREGROUND_BASE + slot);
    }
    out.append(s);
    out
}

} // verus!
