//! Building diagnostic messages.
use vstd::prelude::*;
use vstd::string::*;

verus! {

/// `s` is the text that `Display` gives for `n`.
pub open spec fn shows(n: u64, s: Seq<char>) -> bool {
    exists|t: String| #[trigger] to_string_from_display_ensures::<u64>(&n, t) && t@ == s
}

/// `text` is `prefix` followed by the text that `Display` gives for `n`.
pub open spec fn numbered(prefix: Seq<char>, n: u64, text: Seq<char>) -> bool {
    exists|d: Seq<char>| #[trigger] shows(n, d) && text == prefix + d
}

/// Concatenates a fixed prefix with the `Display` rendering of a number
/// (its decimal digits).
pub fn message_with_number(prefix: &str, n: u64) -> (res: String)
    ensures
        res@.len() >= prefix@.len(),
        res@.subrange(0, prefix@.len() as int) == prefix@,
        numbered(prefix@, n, res@),
{
    let number = n.to_string();
    let res = String::from_str(prefix).concat(number.as_str());
    assert(res@.subrange(0, prefix@.len() as int) =~= prefix@);
    assert(shows(n, number@));
    res
}

/// `text` is `prefix`, the text that `Display` gives for `n`, and
/// `suffix`.
pub open spec fn numbered_then(prefix: Seq<char>, n: u64, suffix: Seq<char>, text: Seq<char>) -> bool {
    exists|d: Seq<char>| #[trigger] shows(n, d) && text == prefix + d + suffix
}

/// Concatenates a prefix, the `Display` rendering of a number and a suffix.
pub fn message_with_number_then(prefix: &str, n: u64, suffix: &str) -> (res: String)
    ensures
        numbered_then(prefix@, n, suffix@, res@),
{
    let first = message_with_number(prefix, n);
    let res = first.concat(suffix);
    proof {
        let d = choose|d: Seq<char>| shows(n, d) && first@ == prefix@ + d;
        assert(res@ =~= prefix@ + d + suffix@);
    }
    res
}

/// The upper-case hexadecimal digit of a number below 16.
pub open spec fn upper_hex_char(d: int) -> char {
    if d == 0 { '0' }
    else if d == 1 { '1' }
    else if d == 2 { '2' }
    else if d == 3 { '3' }
    else if d == 4 { '4' }
    else if d == 5 { '5' }
    else if d == 6 { '6' }
    else if d == 7 { '7' }
    else if d == 8 { '8' }
    else if d == 9 { '9' }
    else if d == 10 { 'A' }
    else if d == 11 { 'B' }
    else if d == 12 { 'C' }
    else if d == 13 { 'D' }
    else if d == 14 { 'E' }
    else { 'F' }
}

/// The upper-case hexadecimal digits of a byte, without leading zeros.
pub open spec fn spec_upper_hex_text(b: u8) -> Seq<char> {
    if b < 16 {
        seq![upper_hex_char(b as int)]
    } else {
        seq![upper_hex_char((b / 16) as int), upper_hex_char((b % 16) as int)]
    }
}

fn upper_hex_digit(d: u8) -> (res: &'static str)
    requires
        d < 16,
    ensures
        res@ == seq![upper_hex_char(d as int)],
{
    match d {
        0 => {
            proof { reveal_strlit("0"); }
            "0"
        },
        1 => {
            proof { reveal_strlit("1"); }
            "1"
        },
        2 => {
            proof { reveal_strlit("2"); }
            "2"
        },
        3 => {
            proof { reveal_strlit("3"); }
            "3"
        },
        4 => {
            proof { reveal_strlit("4"); }
            "4"
        },
        5 => {
            proof { reveal_strlit("5"); }
            "5"
        },
        6 => {
            proof { reveal_strlit("6"); }
            "6"
        },
        7 => {
            proof { reveal_strlit("7"); }
            "7"
        },
        8 => {
            proof { reveal_strlit("8"); }
            "8"
        },
        9 => {
            proof { reveal_strlit("9"); }
            "9"
        },
        10 => {
            proof { reveal_strlit("A"); }
            "A"
        },
        11 => {
            proof { reveal_strlit("B"); }
            "B"
        },
        12 => {
            proof { reveal_strlit("C"); }
            "C"
        },
        13 => {
            proof { reveal_strlit("D"); }
            "D"
        },
        14 => {
            proof { reveal_strlit("E"); }
            "E"
        },
        _ => {
            proof { reveal_strlit("F"); }
            "F"
        },
    }
}

/// The upper-case hexadecimal digits of a byte, without leading zeros.
pub fn upper_hex_text(b: u8) -> (res: String)
    ensures
        res@ == spec_upper_hex_text(b),
{
    if b < 16 {
        String::from_str(upper_hex_digit(b))
    } else {
        let res = String::from_str(upper_hex_digit(b / 16)).concat(upper_hex_digit(b % 16));
        assert(res@ =~= spec_upper_hex_text(b));
        res
    }
}


/// The upper-case hexadecimal digits of a number, without leading zeros.
pub open spec fn spec_upper_hex(v: nat) -> Seq<char>
    decreases v,
{
    if v < 16 {
        seq![upper_hex_char(v as int)]
    } else {
        spec_upper_hex(v / 16) + seq![upper_hex_char((v % 16) as int)]
    }
}

/// The upper-case hexadecimal digits of a number, without leading zeros.
pub fn upper_hex_u64(v: u64) -> (res: String)
    ensures
        res@ == spec_upper_hex(v as nat),
    decreases v,
{
    if v < 16 {
        String::from_str(upper_hex_digit(v as u8))
    } else {
        let high = upper_hex_u64(v / 16);
        let res = high.concat(upper_hex_digit((v % 16) as u8));
        res
    }
}

/// The one-character text of `c`, by `ToString::to_string` on `char`,
/// which writes the character itself.
#[verifier::external_body]
pub fn char_text(c: char) -> (res: String)
    ensures
        res@ == seq![c],
{
    c.to_string()
}

/// The character of a byte read as Latin-1, as `b as char` gives it.
pub fn byte_char(b: u8) -> (res: char)
    ensures
        res == b as char,
{
    b as char
}

} // verus!
