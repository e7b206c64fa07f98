//! The number normalizer: coerces arbitrary input text into exactly
//! seven characters, truncating overlong input from the right and
//! left-padding short input with '0'.  It validates nothing; characters
//! outside the keypad are rejected later, by combination generation.

use vstd::prelude::*;
use vstd::string::StrSliceExecFns;
use crate::NUMBER_LEN;
use crate::text::push_char;

verus! {

/// What normalization produces: the first seven characters of an overlong
/// input, or a short input left-padded with '0' up to seven characters.
pub open spec fn normalize_spec(s: Seq<char>) -> Seq<char> {
    if s.len() >= NUMBER_LEN {
        s.take(NUMBER_LEN as int)
    } else {
        Seq::new((NUMBER_LEN - s.len()) as nat, |i: int| '0') + s
    }
}

/// Every input normalizes to exactly seven characters.
pub proof fn lemma_normalize_len(s: Seq<char>)
    ensures
        normalize_spec(s).len() == NUMBER_LEN,
{
}

/// Coerces arbitrary input text into exactly seven characters: keeps the
/// first seven of a longer input, left-pads a shorter one with '0'.
/// A total function: no input is rejected here.
pub fn normalize(number: &str) -> (r: String)
    ensures
        r@ == normalize_spec(number@),
        r@.len() == NUMBER_LEN,
{
    let n = number.unicode_len();
    let mut r = String::new();
    if n >= NUMBER_LEN {
        let mut i: usize = 0;
        while i < NUMBER_LEN
            invariant
                n == number@.len(),
                n >= NUMBER_LEN,
                i <= NUMBER_LEN,
                r@ == number@.take(i as int),
            decreases NUMBER_LEN - i,
        {
            push_char(&mut r, number.get_char(i));
            i = i + 1;
            proof {
                assert(r@ =~= number@.take(i as int));
            }
        }
    } else {
        let pad = NUMBER_LEN - n;
        let mut i: usize = 0;
        while i < pad
            invariant
                n == number@.len(),
                pad == NUMBER_LEN - n,
                i <= pad,
                r@ == Seq::new(i as nat, |k: int| '0'),
            decreases pad - i,
        {
            push_char(&mut r, '0');
            i = i + 1;
            proof {
                assert(r@ =~= Seq::new(i as nat, |k: int| '0'));
            }
        }
        let mut j: usize = 0;
        while j < n
            invariant
                n == number@.len(),
                pad == NUMBER_LEN - n,
                j <= n,
                r@ == Seq::new(pad as nat, |k: int| '0') + number@.take(j as int),
            decreases n - j,
        {
            push_char(&mut r, number.get_char(j));
            j = j + 1;
            proof {
                assert(r@ =~= Seq::new(pad as nat, |k: int| '0') + number@.take(j as int));
            }
        }
        proof {
            assert(number@.take(n as int) =~= number@);
            assert(r@ =~= normalize_spec(number@));
        }
    }
    r
}

} // verus!
