//! Character-level text helpers: building a `String` one character at a
//! time, reading a `&str` out as characters, and substring containment.

use vstd::prelude::*;
use vstd::string::StrSliceExecFns;

verus! {

/// Relies on `String::push`: appends exactly one character at the end.
#[verifier::external_body]
pub fn push_char(s: &mut String, c: char)
    ensures
        final(s)@ == old(s)@.push(c),
{
    s.push(c)
}

/// The characters of a string slice, gathered into a vector.
pub fn str_chars(s: &str) -> (v: Vec<char>)
    ensures
        v@ == s@,
{
    let n = s.unicode_len();
    let mut v: Vec<char> = Vec::new();
    let mut i: usize = 0;
    while i < n
        invariant
            n == s@.len(),
            i <= n,
            v@ == s@.take(i as int),
        decreases n - i,
    {
        v.push(s.get_char(i));
        i = i + 1;
        proof {
            assert(v@ =~= s@.take(i as int));
        }
    }
    proof {
        assert(v@ =~= s@);
    }
    v
}

/// The character sequences behind a sequence of strings.
pub open spec fn views_of(v: Seq<String>) -> Seq<Seq<char>> {
    v.map_values(|s: String| s@)
}

/// The word `w` occurs in `c` as a contiguous run starting at position `i`.
pub open spec fn contains_at(c: Seq<char>, w: Seq<char>, i: int) -> bool {
    0 <= i && i + w.len() <= c.len() && c.subrange(i, i + w.len() as int) == w
}

/// The word `w` occurs somewhere in `c` as a contiguous substring.
pub open spec fn is_substring(w: Seq<char>, c: Seq<char>) -> bool {
    exists|i: int| contains_at(c, w, i)
}

/// Whether `w` occurs in `c` starting at position `i`, checked character
/// by character.
fn matches_at(c: &Vec<char>, w: &Vec<char>, i: usize) -> (b: bool)
    requires
        i + w@.len() <= c@.len(),
    ensures
        b == contains_at(c@, w@, i as int),
{
    let n = c.len();
    let mut j: usize = 0;
    while j < w.len()
        invariant
            n == c@.len(),
            i + w@.len() <= c@.len(),
            j <= w@.len(),
            forall|k: int| 0 <= k < j ==> c@[i + k] == w@[k],
        decreases w@.len() - j,
    {
        if c[i + j] != w[j] {
            proof {
                assert(c@.subrange(i as int, i + w@.len() as int)[j as int] != w@[j as int]);
            }
            return false;
        }
        j = j + 1;
    }
    proof {
        assert(c@.subrange(i as int, i + w@.len() as int) =~= w@);
    }
    true
}

/// Substring containment, character for character and case-sensitive:
/// true exactly when the word occurs contiguously inside the combination.
pub fn str_contains_word(combo: &str, word: &str) -> (b: bool)
    ensures
        b == is_substring(word@, combo@),
{
    let cv = str_chars(combo);
    let wv = str_chars(word);
    if wv.len() > cv.len() {
        proof {
            assert forall|i: int| !contains_at(combo@, word@, i) by {}
        }
        return false;
    }
    if wv.len() == 0 {
        proof {
            assert(combo@.subrange(0, 0) =~= word@);
            assert(contains_at(combo@, word@, 0));
        }
        return true;
    }
    let n = cv.len();
    let last = n - wv.len();
    let mut i: usize = 0;
    while i <= last
        invariant
            cv@ == combo@,
            wv@ == word@,
            n == cv@.len(),
            wv@.len() >= 1,
            last == cv@.len() - wv@.len(),
            i <= last + 1,
            forall|k: int| 0 <= k < i ==> !contains_at(combo@, word@, k),
        decreases last - i + 1,
    {
        if matches_at(&cv, &wv, i) {
            return true;
        }
        i = i + 1;
    }
    proof {
        assert forall|k: int| !contains_at(combo@, word@, k) by {
            if 0 <= k && k + word@.len() <= combo@.len() {
                assert(k <= last as int);
            }
        }
    }
    false
}

} // verus!
