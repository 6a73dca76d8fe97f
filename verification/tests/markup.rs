use terminalcolor::convert;
use terminalcolor::markup::{find_slot, marker_number, to_small, MARKER_CODES, RESET_SLOT};

const ESC: &str = "\x1b";

fn seq(n: u32) -> String {
    format!("{}[{}m", ESC, n)
}

#[test]
fn plain_text_is_unchanged() {
    assert_eq!(convert("Hello, world!"), "Hello, world!");
    assert_eq!(convert("k r g y b m c w 0 K R"), "k r g y b m c w 0 K R");
    assert_eq!(convert("tabs\tand\nlines"), "tabs\tand\nlines");
}

#[test]
fn empty_text_gives_empty_text() {
    assert_eq!(convert(""), "");
}

#[test]
fn single_character_is_unchanged() {
    assert_eq!(convert("a"), "a");
    assert_eq!(convert("r"), "r");
    assert_eq!(convert("0"), "0");
    assert_eq!(convert("$"), "$");
    assert_eq!(convert("#"), "#");
    assert_eq!(convert("\x1b"), "\x1b");
    assert_eq!(convert("é"), "é");
}

#[test]
fn foreground_marker_in_small_letter() {
    assert_eq!(convert("$r"), "\x1b[31m");
}

#[test]
fn capital_letter_selects_bright() {
    assert_eq!(convert("$R"), "\x1b[91m");
}

#[test]
fn background_marker_counts_from_forty() {
    assert_eq!(convert("#b"), "\x1b[44m");
}

#[test]
fn reset_ignores_the_sentinel() {
    assert_eq!(convert("$0"), "\x1b[0m");
    assert_eq!(convert("#0"), "\x1b[0m");
}

#[test]
fn markers_between_literal_text() {
    assert_eq!(
        convert("$rHello, #Bworld!$0"),
        "\x1b[31mHello, \x1b[104mworld!\x1b[0m"
    );
}

#[test]
fn sentinel_before_no_code_is_copied() {
    assert_eq!(convert("$x"), "$x");
    assert_eq!(convert("#z"), "#z");
    assert_eq!(convert("$1"), "$1");
    assert_eq!(convert("$ r"), "$ r");
    assert_eq!(convert("cost: $5 #1"), "cost: $5 #1");
}

#[test]
fn second_pass_leaves_escape_sequences_alone() {
    let once = convert("$rHello, #Bworld!$0");
    assert_eq!(once, "\x1b[31mHello, \x1b[104mworld!\x1b[0m");
    assert_eq!(convert(&once), once);
    let mixed = convert("$$m#");
    assert_eq!(mixed, "$\x1b[35m#");
    assert_eq!(convert(&mixed), mixed);
}

#[test]
fn every_foreground_colour() {
    for (i, c) in "krgybmcw".chars().enumerate() {
        let n = i as u32;
        assert_eq!(convert(&format!("${}", c)), seq(30 + n));
        assert_eq!(convert(&format!("${}", c.to_ascii_uppercase())), seq(90 + n));
    }
}

#[test]
fn every_background_colour() {
    for (i, c) in "krgybmcw".chars().enumerate() {
        let n = i as u32;
        assert_eq!(convert(&format!("#{}", c)), seq(40 + n));
        assert_eq!(convert(&format!("#{}", c.to_ascii_uppercase())), seq(100 + n));
    }
}

#[test]
fn exact_numbers_at_the_ends_of_each_range() {
    assert_eq!(convert("$k"), "\x1b[30m");
    assert_eq!(convert("$w"), "\x1b[37m");
    assert_eq!(convert("$K"), "\x1b[90m");
    assert_eq!(convert("$W"), "\x1b[97m");
    assert_eq!(convert("#k"), "\x1b[40m");
    assert_eq!(convert("#w"), "\x1b[47m");
    assert_eq!(convert("#K"), "\x1b[100m");
    assert_eq!(convert("#W"), "\x1b[107m");
}

#[test]
fn trailing_sentinel_is_copied() {
    assert_eq!(convert("abc$"), "abc$");
    assert_eq!(convert("abc#"), "abc#");
    assert_eq!(convert("$r$"), "\x1b[31m$");
}

#[test]
fn sentinel_behind_sentinel_is_read_again() {
    assert_eq!(convert("$$r"), "$\x1b[31m");
    assert_eq!(convert("#$g"), "#\x1b[32m");
    assert_eq!(convert("$#"), "$#");
    assert_eq!(convert("$$$"), "$$$");
    assert_eq!(convert("$x$y"), "$x\x1b[33m");
}

#[test]
fn used_code_opens_no_marker() {
    assert_eq!(convert("$rr"), "\x1b[31mr");
    assert_eq!(convert("$00"), "\x1b[0m0");
    assert_eq!(convert("$r#"), "\x1b[31m#");
}

#[test]
fn adjacent_markers() {
    assert_eq!(convert("$r#b$0"), "\x1b[31m\x1b[44m\x1b[0m");
    assert_eq!(convert("$R$R"), "\x1b[91m\x1b[91m");
}

#[test]
fn characters_of_several_bytes() {
    assert_eq!(convert("$rhéllo wörld$0"), "\x1b[31mhéllo wörld\x1b[0m");
    assert_eq!(convert("日本$g語"), "日本\x1b[32m語");
    assert_eq!(convert("$é"), "$é");
    assert_eq!(convert("é$"), "é$");
    assert_eq!(convert("🦀#C🦀"), "🦀\x1b[106m🦀");
}

#[test]
fn letters_outside_ascii_are_no_codes() {
    // U+212A, the Kelvin sign, has `k` as its small letter in Unicode.
    assert_eq!(convert("$\u{212a}"), "$\u{212a}");
    assert_eq!(convert("$Ｒ"), "$Ｒ");
}

#[test]
fn reset_has_no_bright_form() {
    assert_eq!(convert("$0#0"), "\x1b[0m\x1b[0m");
    assert_eq!(convert("$o"), "$o");
    assert_eq!(convert("$O"), "$O");
}

#[test]
fn table_of_codes() {
    assert_eq!(MARKER_CODES, ['k', 'r', 'g', 'y', 'b', 'm', 'c', 'w', '0']);
    assert_eq!(RESET_SLOT, 8);
}

#[test]
fn slot_of_each_code() {
    for (i, c) in MARKER_CODES.iter().enumerate() {
        assert_eq!(find_slot(*c), Some(i as u8));
        assert_eq!(find_slot(c.to_ascii_uppercase()), Some(i as u8));
    }
    assert_eq!(find_slot('x'), None);
    assert_eq!(find_slot('$'), None);
    assert_eq!(find_slot('1'), None);
    assert_eq!(find_slot('\x1b'), None);
    assert_eq!(find_slot('['), None);
    assert_eq!(find_slot('P'), None);
}

#[test]
fn small_letter_of_a_character() {
    assert_eq!(to_small('A'), 'a');
    assert_eq!(to_small('Z'), 'z');
    assert_eq!(to_small('R'), 'r');
    assert_eq!(to_small('r'), 'r');
    assert_eq!(to_small('0'), '0');
    assert_eq!(to_small('@'), '@');
    assert_eq!(to_small('['), '[');
    assert_eq!(to_small('É'), 'É');
}

#[test]
fn number_of_a_marker() {
    assert_eq!(marker_number('$', 'r', 1), 31);
    assert_eq!(marker_number('$', 'R', 1), 91);
    assert_eq!(marker_number('#', 'b', 4), 44);
    assert_eq!(marker_number('#', 'B', 4), 104);
    assert_eq!(marker_number('#', 'W', 7), 107);
    assert_eq!(marker_number('$', 'k', 0), 30);
    assert_eq!(marker_number('$', '0', 8), 0);
    assert_eq!(marker_number('#', '0', 8), 0);
}

#[test]
fn long_text_keeps_its_order() {
    let mut input = String::new();
    let mut expected = String::new();
    for i in 0..500 {
        input.push_str("$g");
        input.push_str(&i.to_string());
        input.push('#');
        expected.push_str("\x1b[32m");
        expected.push_str(&i.to_string());
        expected.push('#');
    }
    assert_eq!(convert(&input), expected);
}

#[test]
fn expansion_is_never_shorter() {
    for input in ["", "a", "$", "$r", "$0", "#W", "$x", "$$r", "plain", "$rHello, #Bworld!$0"] {
        let out = convert(input);
        assert!(out.chars().count() >= input.chars().count());
    }
    assert_eq!(convert("$0").chars().count(), 4);
    assert_eq!(convert("#W").chars().count(), 6);
}

#[test]
fn plain_prefix_is_copied() {
    let tail = "$r#b $x$";
    assert_eq!(convert(&format!("plain text {}", tail)), format!("plain text {}", convert(tail)));
    assert_eq!(convert("ab$g"), "ab\x1b[32m");
}
