//! The word matcher: consumes candidate words one at a time, tests each
//! against the combination sequence in its generated order, and tallies
//! words considered, containment tries, and matches found.  A word longer
//! than the combination length is skipped without being counted; a word
//! is reported against at most the first combination that contains it.

use vstd::prelude::*;
use vstd::string::StrSliceExecFns;
use crate::NUMBER_LEN;
use crate::combos::combos_spec;
use crate::normalize::normalize_spec;
use crate::text::{is_substring, str_contains_word, views_of};

verus! {

/// The position of the first combination from `i` on that contains the
/// word, if any.
pub open spec fn first_match_from(cs: Seq<Seq<char>>, w: Seq<char>, i: int) -> Option<int>
    decreases cs.len() - i
    when 0 <= i <= cs.len()
{
    if i >= cs.len() {
        None
    } else if is_substring(w, cs[i]) {
        Some(i)
    } else {
        first_match_from(cs, w, i + 1)
    }
}

/// How many words of `ws` count as considered: those no longer than the
/// combination length.
pub open spec fn tally_words(ws: Seq<Seq<char>>) -> int
    decreases ws.len(),
{
    if ws.len() == 0 {
        0
    } else {
        tally_words(ws.drop_last()) + (if ws.last().len() <= NUMBER_LEN {
            1int
        } else {
            0int
        })
    }
}

/// How many containment tests one word costs: none when it is skipped,
/// one per combination up to and including the first hit, all of them
/// when no combination contains it.
pub open spec fn word_tries(cs: Seq<Seq<char>>, w: Seq<char>) -> int {
    if w.len() > NUMBER_LEN {
        0
    } else {
        match first_match_from(cs, w, 0) {
            Some(i) => i + 1,
            None => cs.len() as int,
        }
    }
}

/// Whether one word is reported as a match: it is considered and some
/// combination contains it.
pub open spec fn word_match_count(cs: Seq<Seq<char>>, w: Seq<char>) -> int {
    if w.len() <= NUMBER_LEN && first_match_from(cs, w, 0) is Some {
        1
    } else {
        0
    }
}

/// The containment tests all words of `ws` cost together.
pub open spec fn tally_tries(cs: Seq<Seq<char>>, ws: Seq<Seq<char>>) -> int
    decreases ws.len(),
{
    if ws.len() == 0 {
        0
    } else {
        tally_tries(cs, ws.drop_last()) + word_tries(cs, ws.last())
    }
}

/// How many words of `ws` are reported as matches.
pub open spec fn tally_matches(cs: Seq<Seq<char>>, ws: Seq<Seq<char>>) -> int
    decreases ws.len(),
{
    if ws.len() == 0 {
        0
    } else {
        tally_matches(cs, ws.drop_last()) + word_match_count(cs, ws.last())
    }
}

/// Feeding one more word moves each tally by exactly that word's share.
proof fn lemma_tally_push(cs: Seq<Seq<char>>, ws: Seq<Seq<char>>, w: Seq<char>)
    ensures
        tally_words(ws.push(w)) == tally_words(ws) + (if w.len() <= NUMBER_LEN {
            1int
        } else {
            0int
        }),
        tally_tries(cs, ws.push(w)) == tally_tries(cs, ws) + word_tries(cs, w),
        tally_matches(cs, ws.push(w)) == tally_matches(cs, ws) + word_match_count(cs, w),
{
    assert(ws.push(w).drop_last() =~= ws);
    assert(ws.push(w).last() == w);
}

/// Running the pipeline twice with identical inputs changes nothing:
/// two matchers whose combinations come from the same raw number and
/// that have consumed the same words hold the same tallies, scan the
/// same combinations in the same order, and would report any further
/// word against the same combination.
pub proof fn lemma_pipeline_idempotent(
    raw: Seq<char>,
    ws: Seq<Seq<char>>,
    m1: Matcher,
    m2: Matcher,
)
    requires
        m1.wf(),
        m2.wf(),
        m1.combo_views() == combos_spec(normalize_spec(raw)),
        m2.combo_views() == combos_spec(normalize_spec(raw)),
        m1.history@ == ws,
        m2.history@ == ws,
    ensures
        m1.combo_views() == m2.combo_views(),
        m1.wordcnt == m2.wordcnt,
        m1.trycnt == m2.trycnt,
        m1.matchcnt == m2.matchcnt,
        forall|w: Seq<char>|
            first_match_from(m1.combo_views(), w, 0) == first_match_from(m2.combo_views(), w, 0),
{
}

/// The matcher: the combination sequence it scans, the running tallies,
/// and, as ghost state, the words it has consumed so far.
pub struct Matcher {
    /// The combinations, scanned in this order for every word.
    pub combos: Vec<String>,
    /// Words considered so far (words longer than the combination length
    /// are skipped and not counted).
    pub wordcnt: usize,
    /// Containment tests performed so far.
    pub trycnt: usize,
    /// Matches reported so far, at most one per word.
    pub matchcnt: u32,
    /// The words consumed so far, oldest first.
    pub history: Ghost<Seq<Seq<char>>>,
}

impl Matcher {
    /// The character sequences of the combinations.
    pub open spec fn combo_views(self) -> Seq<Seq<char>> {
        views_of(self.combos@)
    }

    /// The tallies are exactly what the consumed words call for.
    pub open spec fn wf(self) -> bool {
        &&& self.wordcnt as int == tally_words(self.history@)
        &&& self.trycnt as int == tally_tries(self.combo_views(), self.history@)
        &&& self.matchcnt as int == tally_matches(self.combo_views(), self.history@)
    }

    /// A fresh matcher over a combination sequence: nothing consumed,
    /// all tallies zero.
    pub fn new(combos: Vec<String>) -> (m: Matcher)
        ensures
            m.wf(),
            m.combos@ == combos@,
            m.history@ == Seq::<Seq<char>>::empty(),
            m.wordcnt == 0,
            m.trycnt == 0,
            m.matchcnt == 0,
    {
        Matcher {
            combos,
            wordcnt: 0,
            trycnt: 0,
            matchcnt: 0,
            history: Ghost(Seq::empty()),
        }
    }

    /// Consumes one word.  A word longer than the combination length is
    /// skipped entirely: not counted, not scanned.  Any other word is
    /// counted, then tested against the combinations in order; the first
    /// combination that contains it is returned and ends the scan, so at
    /// most one match is reported per word.
    pub fn feed(&mut self, word: &str) -> (r: Option<String>)
        requires
            old(self).wf(),
            old(self).wordcnt < usize::MAX,
            old(self).trycnt + old(self).combos@.len() <= usize::MAX,
            old(self).matchcnt < u32::MAX,
        ensures
            final(self).wf(),
            final(self).combos@ == old(self).combos@,
            final(self).history@ == old(self).history@.push(word@),
            word@.len() > NUMBER_LEN ==> {
                &&& final(self).wordcnt == old(self).wordcnt
                &&& final(self).trycnt == old(self).trycnt
                &&& final(self).matchcnt == old(self).matchcnt
                &&& r is None
            },
            word@.len() <= NUMBER_LEN ==> {
                &&& final(self).wordcnt == old(self).wordcnt + 1
                &&& match first_match_from(old(self).combo_views(), word@, 0) {
                    Some(i) => {
                        &&& final(self).trycnt == old(self).trycnt + i + 1
                        &&& final(self).matchcnt == old(self).matchcnt + 1
                        &&& match r {
                            Some(c) => c@ == old(self).combo_views()[i] && is_substring(
                                word@,
                                c@,
                            ),
                            None => false,
                        }
                    },
                    None => {
                        &&& final(self).trycnt == old(self).trycnt + old(self).combos@.len()
                        &&& final(self).matchcnt == old(self).matchcnt
                        &&& r is None
                    },
                }
            },
    {
        let ghost cv = self.combo_views();
        let ghost oldh = self.history@;
        if word.unicode_len() > NUMBER_LEN {
            proof {
                lemma_tally_push(cv, oldh, word@);
            }
            self.history = Ghost(oldh.push(word@));
            return None;
        }
        self.wordcnt = self.wordcnt + 1;
        let mut i: usize = 0;
        while i < self.combos.len()
            invariant
                self.combos@ == old(self).combos@,
                cv == self.combo_views(),
                oldh == self.history@,
                oldh == old(self).history@,
                self.wordcnt == old(self).wordcnt + 1,
                self.trycnt == old(self).trycnt + i,
                self.matchcnt == old(self).matchcnt,
                old(self).trycnt + old(self).combos@.len() <= usize::MAX,
                old(self).wordcnt < usize::MAX,
                old(self).matchcnt < u32::MAX,
                old(self).wf(),
                word@.len() <= NUMBER_LEN,
                i <= self.combos@.len(),
                first_match_from(cv, word@, 0) == first_match_from(cv, word@, i as int),
            decreases self.combos@.len() - i,
        {
            self.trycnt = self.trycnt + 1;
            if str_contains_word(self.combos[i].as_str(), word) {
                self.matchcnt = self.matchcnt + 1;
                let found = self.combos[i].clone();
                proof {
                    assert(first_match_from(cv, word@, i as int) == Some(i as int));
                    lemma_tally_push(cv, oldh, word@);
                }
                self.history = Ghost(oldh.push(word@));
                return Some(found);
            }
            i = i + 1;
            proof {
                assert(first_match_from(cv, word@, i - 1) == first_match_from(cv, word@, i as int));
            }
        }
        proof {
            assert(first_match_from(cv, word@, cv.len() as int) is None);
            lemma_tally_push(cv, oldh, word@);
        }
        self.history = Ghost(oldh.push(word@));
        None
    }
}

} // verus!
