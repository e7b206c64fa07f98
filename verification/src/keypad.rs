//! The keypad mapping: which letters each digit of a telephone keypad
//! stands for.  The mapping is fixed data; digits '0' and '1' carry no
//! letters on a classic phone and map to themselves so that positions in
//! a combination stay aligned with positions in the number.

use vstd::prelude::*;

verus! {

/// The letters one keypad digit stands for, in keypad order.
/// A character outside '0'-'9' has no letters.
pub open spec fn letters_of(d: char) -> Seq<char> {
    if d == '0' {
        seq!['0']
    } else if d == '1' {
        seq!['1']
    } else if d == '2' {
        seq!['a', 'b', 'c']
    } else if d == '3' {
        seq!['d', 'e', 'f']
    } else if d == '4' {
        seq!['g', 'h', 'i']
    } else if d == '5' {
        seq!['j', 'k', 'l']
    } else if d == '6' {
        seq!['m', 'n', 'o']
    } else if d == '7' {
        seq!['p', 'q', 'r', 's']
    } else if d == '8' {
        seq!['t', 'u', 'v']
    } else if d == '9' {
        seq!['w', 'x', 'y', 'z']
    } else {
        Seq::empty()
    }
}

/// A character is a keypad digit exactly when the mapping assigns it letters.
pub open spec fn is_keypad_digit(d: char) -> bool {
    letters_of(d).len() > 0
}

/// Looks one character up in the keypad mapping: the letters it stands
/// for, or `None` when the character is not a keypad digit.
pub fn letters_for(d: char) -> (r: Option<Vec<char>>)
    ensures
        match r {
            Some(v) => is_keypad_digit(d) && v@ == letters_of(d),
            None => !is_keypad_digit(d),
        },
{
    match d {
        '0' => Some(vec!['0']),
        '1' => Some(vec!['1']),
        '2' => Some(vec!['a', 'b', 'c']),
        '3' => Some(vec!['d', 'e', 'f']),
        '4' => Some(vec!['g', 'h', 'i']),
        '5' => Some(vec!['j', 'k', 'l']),
        '6' => Some(vec!['m', 'n', 'o']),
        '7' => Some(vec!['p', 'q', 'r', 's']),
        '8' => Some(vec!['t', 'u', 'v']),
        '9' => Some(vec!['w', 'x', 'y', 'z']),
        _ => None,
    }
}

/// No digit's letter list repeats a letter.
pub proof fn lemma_letters_distinct(d: char)
    ensures
        letters_of(d).no_duplicates(),
{
    let s = letters_of(d);
    assert forall|i: int, j: int|
        0 <= i < s.len() && 0 <= j < s.len() && i != j implies s[i] != s[j] by {
        if s.len() == 3 {
            assert(s[0] != s[1] && s[0] != s[2] && s[1] != s[2]);
        } else if s.len() == 4 {
            assert(s[0] != s[1] && s[0] != s[2] && s[0] != s[3] && s[1] != s[2] && s[1] != s[3]
                && s[2] != s[3]);
        }
    }
}

} // verus!
