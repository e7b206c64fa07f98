//! The combination generator: expands a normalized seven-character number
//! into the ordered sequence of every letter string the keypad mapping
//! allows, in odometer order (the last position varies fastest).  The
//! first character that the mapping does not know makes generation fail.

use vstd::prelude::*;
use vstd::arithmetic::div_mod::{lemma_fundamental_div_mod, lemma_mod_bound};
use crate::NUMBER_LEN;
use crate::keypad::{is_keypad_digit, letters_of, letters_for, lemma_letters_distinct};
use crate::text::{push_char, str_chars, views_of};

verus! {

/// Why a check of a number can fail: a character of the normalized
/// number is not a keypad digit.
#[derive(Clone, Copy, Debug, PartialEq, Eq, Structural)]
pub enum PhoneError {
    NotANumber(char),
}

/// Every tuple of `ts` extended by every letter of `cs`, tuples in their
/// given order and, within one tuple, letters in their given order: the
/// odometer step that makes the freshly added position vary fastest.
pub open spec fn extend_all(ts: Seq<Seq<char>>, cs: Seq<char>) -> Seq<Seq<char>> {
    Seq::new(
        ts.len() * cs.len(),
        |k: int| ts[k / (cs.len() as int)].push(cs[k % (cs.len() as int)]),
    )
}

/// The Cartesian product of the letter lists `ls`, one tuple per choice
/// of one letter for each position, in odometer order.
pub open spec fn product_combos(ls: Seq<Seq<char>>) -> Seq<Seq<char>>
    decreases ls.len(),
{
    if ls.len() == 0 {
        seq![Seq::<char>::empty()]
    } else {
        extend_all(product_combos(ls.drop_last()), ls.last())
    }
}

/// The letter list of each position of a number.
pub open spec fn letter_seqs(s: Seq<char>) -> Seq<Seq<char>> {
    Seq::new(s.len(), |i: int| letters_of(s[i]))
}

/// All letter combinations of a number, in odometer order.
pub open spec fn combos_spec(s: Seq<char>) -> Seq<Seq<char>> {
    product_combos(letter_seqs(s))
}

/// The position of the first character from `i` on that is not a keypad
/// digit, if any.
pub open spec fn first_invalid_from(s: Seq<char>, i: int) -> Option<int>
    decreases s.len() - i
    when 0 <= i <= s.len()
{
    if i >= s.len() {
        None
    } else if !is_keypad_digit(s[i]) {
        Some(i)
    } else {
        first_invalid_from(s, i + 1)
    }
}

/// The product of the sizes of the letter lists `ls`.
pub open spec fn sizes_product(ls: Seq<Seq<char>>) -> int
    decreases ls.len(),
{
    if ls.len() == 0 {
        1
    } else {
        sizes_product(ls.drop_last()) * ls.last().len()
    }
}

/// Index arithmetic of one odometer step: position `k` of the extended
/// sequence comes from tuple `k / n` and letter `k % n`.
proof fn lemma_extend_index(tslen: int, n: int, k: int)
    requires
        n > 0,
        0 <= k < tslen * n,
    ensures
        0 <= k / n < tslen,
        0 <= k % n < n,
        k == n * (k / n) + (k % n),
{
    lemma_fundamental_div_mod(k, n);
    lemma_mod_bound(k, n);
    assert(0 <= k / n < tslen) by (nonlinear_arith)
        requires
            n > 0,
            0 <= k < tslen * n,
            k == n * (k / n) + (k % n),
            0 <= k % n < n,
    ;
}

/// The Cartesian product has as many tuples as the product of the list
/// sizes says.
pub proof fn lemma_product_len(ls: Seq<Seq<char>>)
    ensures
        product_combos(ls).len() == sizes_product(ls),
    decreases ls.len(),
{
    if ls.len() > 0 {
        lemma_product_len(ls.drop_last());
    }
}

/// Every tuple of the Cartesian product picks one letter per position.
pub proof fn lemma_product_elem_len(ls: Seq<Seq<char>>)
    ensures
        forall|k: int|
            0 <= k < product_combos(ls).len() ==> (#[trigger] product_combos(ls)[k]).len()
                == ls.len(),
    decreases ls.len(),
{
    if ls.len() > 0 {
        let ts = product_combos(ls.drop_last());
        let cs = ls.last();
        let n = cs.len() as int;
        lemma_product_elem_len(ls.drop_last());
        assert forall|k: int|
            0 <= k < product_combos(ls).len() implies (#[trigger] product_combos(ls)[k]).len()
            == ls.len() by {
            assert(n > 0) by (nonlinear_arith)
                requires
                    0 <= k < ts.len() * n,
            ;
            lemma_extend_index(ts.len() as int, n, k);
        }
    }
}

/// When no position's letter list repeats a letter, no tuple of the
/// Cartesian product repeats either.
pub proof fn lemma_product_distinct(ls: Seq<Seq<char>>)
    requires
        forall|p: int| 0 <= p < ls.len() ==> (#[trigger] ls[p]).no_duplicates(),
    ensures
        product_combos(ls).no_duplicates(),
    decreases ls.len(),
{
    if ls.len() > 0 {
        let rest = ls.drop_last();
        let ts = product_combos(rest);
        let cs = ls.last();
        let n = cs.len() as int;
        lemma_product_distinct(rest);
        lemma_product_elem_len(rest);
        let e = extend_all(ts, cs);
        if n > 0 {
            assert forall|k1: int, k2: int|
                0 <= k1 < e.len() && 0 <= k2 < e.len() && k1 != k2 implies e[k1] != e[k2] by {
                lemma_extend_index(ts.len() as int, n, k1);
                lemma_extend_index(ts.len() as int, n, k2);
                let q1 = k1 / n;
                let r1 = k1 % n;
                let q2 = k2 / n;
                let r2 = k2 % n;
                if e[k1] == e[k2] {
                    let t1 = ts[q1];
                    let t2 = ts[q2];
                    assert(cs == ls[ls.len() - 1]);
                    assert(t1.push(cs[r1])[t1.len() as int] == cs[r1]);
                    assert(t2.push(cs[r2])[t2.len() as int] == cs[r2]);
                    assert(cs[r1] == cs[r2]);
                    assert(t1.push(cs[r1]).drop_last() =~= t1);
                    assert(t2.push(cs[r2]).drop_last() =~= t2);
                    assert(t1 == t2);
                    assert(q1 == q2);
                    assert(r1 == r2);
                    assert(false);
                }
            }
        }
    }
}

/// No two combinations of one number are the same string.
pub proof fn lemma_combos_distinct(s: Seq<char>)
    ensures
        combos_spec(s).no_duplicates(),
{
    assert forall|p: int|
        0 <= p < letter_seqs(s).len() implies (#[trigger] letter_seqs(s)[p]).no_duplicates() by {
        lemma_letters_distinct(s[p]);
    }
    lemma_product_distinct(letter_seqs(s));
}

/// The number of combinations of a number is the product over its
/// positions of the number of letters each position's digit offers.
pub proof fn lemma_combo_count(s: Seq<char>)
    ensures
        combos_spec(s).len() == sizes_product(letter_seqs(s)),
{
    lemma_product_len(letter_seqs(s));
}

/// Every combination of a number is as long as the number itself.
pub proof fn lemma_combo_len(s: Seq<char>)
    ensures
        forall|k: int|
            0 <= k < combos_spec(s).len() ==> (#[trigger] combos_spec(s)[k]).len() == s.len(),
{
    lemma_product_elem_len(letter_seqs(s));
}

/// All letter combinations of a normalized number, in odometer order,
/// or the first character the keypad mapping does not know.  Fail-fast:
/// when several characters are invalid, the leftmost one is reported.
pub fn get_combos(number: &str) -> (r: Result<Vec<String>, PhoneError>)
    requires
        number@.len() == NUMBER_LEN,
    ensures
        match r {
            Ok(v) => {
                &&& forall|i: int| 0 <= i < number@.len() ==> is_keypad_digit(number@[i])
                &&& views_of(v@) == combos_spec(number@)
            },
            Err(e) => {
                &&& first_invalid_from(number@, 0) is Some
                &&& e == (PhoneError::NotANumber(number@[first_invalid_from(number@, 0)->0]))
            },
        },
{
    let chars = str_chars(number);
    let mut lists: Vec<Vec<char>> = Vec::new();
    let mut p: usize = 0;
    while p < NUMBER_LEN
        invariant
            chars@ == number@,
            number@.len() == NUMBER_LEN,
            p <= NUMBER_LEN,
            lists@.len() == p,
            forall|q: int| 0 <= q < p ==> is_keypad_digit(number@[q]),
            forall|q: int| 0 <= q < p ==> (#[trigger] lists@[q])@ == letters_of(number@[q]),
            first_invalid_from(number@, 0) == first_invalid_from(number@, p as int),
        decreases NUMBER_LEN - p,
    {
        match letters_for(chars[p]) {
            Some(v) => {
                lists.push(v);
            },
            None => {
                proof {
                    assert(first_invalid_from(number@, p as int) == Some(p as int));
                }
                return Err(PhoneError::NotANumber(chars[p]));
            },
        }
        p = p + 1;
    }
    let mut combos: Vec<String> = Vec::new();
    combos.push(String::new());
    proof {
        assert(views_of(combos@) =~= product_combos(letter_seqs(number@).take(0)));
    }
    let mut pos: usize = 0;
    while pos < NUMBER_LEN
        invariant
            number@.len() == NUMBER_LEN,
            lists@.len() == NUMBER_LEN,
            pos <= NUMBER_LEN,
            forall|q: int| 0 <= q < NUMBER_LEN ==> is_keypad_digit(number@[q]),
            forall|q: int| 0 <= q < NUMBER_LEN ==> (#[trigger] lists@[q])@ == letters_of(number@[q]),
            views_of(combos@) == product_combos(letter_seqs(number@).take(pos as int)),
        decreases NUMBER_LEN - pos,
    {
        let letters = &lists[pos];
        let n = letters.len();
        let ghost ts = views_of(combos@);
        let ghost cs = letters@;
        let ghost target = extend_all(ts, cs);
        let mut next: Vec<String> = Vec::new();
        let mut ti: usize = 0;
        while ti < combos.len()
            invariant
                0 < n,
                n == cs.len(),
                ts == views_of(combos@),
                cs == lists@[pos as int]@,
                letters@ == cs,
                target == extend_all(ts, cs),
                ti <= combos@.len(),
                next@.len() == (ti as int) * (n as int),
                forall|k: int| 0 <= k < next@.len() ==> (#[trigger] next@[k])@ == target[k],
            decreases combos@.len() - ti,
        {
            let mut cj: usize = 0;
            while cj < n
                invariant
                    0 < n,
                    n == cs.len(),
                    ts == views_of(combos@),
                    letters@ == cs,
                    target == extend_all(ts, cs),
                    ti < combos@.len(),
                    cj <= n,
                    next@.len() == (ti as int) * (n as int) + (cj as int),
                    forall|k: int| 0 <= k < next@.len() ==> (#[trigger] next@[k])@ == target[k],
                decreases n - cj,
            {
                let mut s = combos[ti].clone();
                push_char(&mut s, letters[cj]);
                next.push(s);
                proof {
                    let k = (ti as int) * (n as int) + (cj as int);
                    assert(0 <= k < ts.len() * cs.len()) by (nonlinear_arith)
                        requires
                            0 <= ti < ts.len(),
                            0 <= cj < n,
                            n == cs.len(),
                            k == (ti as int) * (n as int) + (cj as int),
                    ;
                    vstd::arithmetic::div_mod::lemma_fundamental_div_mod_converse(
                        k,
                        n as int,
                        ti as int,
                        cj as int,
                    );
                    assert(target[k] == ts[ti as int].push(cs[cj as int]));
                    assert(s@ == target[k]);
                }
                cj = cj + 1;
            }
            ti = ti + 1;
            proof {
                assert((ti as int) * (n as int) == (ti as int - 1) * (n as int) + (n as int))
                    by (nonlinear_arith);
            }
        }
        proof {
            assert(next@.len() == ts.len() * cs.len()) by (nonlinear_arith)
                requires
                    next@.len() == (combos@.len() as int) * (n as int),
                    ts.len() == combos@.len(),
                    n == cs.len(),
            ;
            assert(views_of(next@) =~= target);
            let full = letter_seqs(number@).take(pos as int + 1);
            assert(full.drop_last() =~= letter_seqs(number@).take(pos as int));
            assert(full.last() == letters_of(number@[pos as int]));
            assert(target == product_combos(full));
        }
        combos = next;
        pos = pos + 1;
    }
    proof {
        assert(letter_seqs(number@).take(NUMBER_LEN as int) =~= letter_seqs(number@));
    }
    Ok(combos)
}

} // verus!
