//! The statistics aggregator: per-item latest response times, session
//! history, and the running weighted accuracy that the progression
//! gates read.

use vstd::prelude::*;
use vstd::arithmetic::mul::lemma_mul_upper_bound;
use crate::ratio::{Ratio, fold_result, fold_accuracy};

verus! {

/// The key of each stored pair.
pub open spec fn char_keys(s: Seq<(char, u32)>) -> Seq<char> {
    s.map_values(|p: (char, u32)| p.0)
}

/// The stored pairs with the sample for `c` overwritten (or appended
/// if `c` had no sample yet): only the latest timing per key is kept.
pub open spec fn insert_time(s: Seq<(char, u32)>, c: char, ms: u32) -> Seq<(char, u32)> {
    if char_keys(s).contains(c) {
        s.update(char_keys(s).index_of(c), (c, ms))
    } else {
        s.push((c, ms))
    }
}

/// Sum of all stored samples, in milliseconds.
pub open spec fn sum_times(s: Seq<(char, u32)>) -> int
    decreases s.len(),
{
    if s.len() == 0 {
        0
    } else {
        sum_times(s.drop_last()) + s.last().1
    }
}

/// Latest response time per symbol: one sample per key, overwritten on
/// each new observation.
#[derive(Debug)]
pub struct CharTimes {
    pub pairs: Vec<(char, u32)>,
}

impl View for CharTimes {
    type V = Seq<(char, u32)>;

    open spec fn view(&self) -> Seq<(char, u32)> {
        self.pairs@
    }
}

impl CharTimes {
    /// Keys are unique, so the store is a map from symbol to its
    /// latest sample.
    pub open spec fn wf(self) -> bool {
        char_keys(self@).no_duplicates()
    }

    /// An empty store.
    pub fn new() -> (r: CharTimes)
        ensures
            r@ == Seq::<(char, u32)>::empty(),
            r.wf(),
    {
        let r = CharTimes { pairs: Vec::new() };
        proof {
            assert(char_keys(r@) =~= Seq::<char>::empty());
        }
        r
    }

    /// Number of symbols with a stored sample.
    pub fn len(&self) -> (n: usize)
        ensures
            n == self@.len(),
    {
        self.pairs.len()
    }

    /// Stores the latest sample for `c`, overwriting any earlier one.
    pub fn insert(&mut self, c: char, ms: u32)
        requires
            old(self).wf(),
        ensures
            final(self)@ == insert_time(old(self)@, c, ms),
            final(self).wf(),
            final(self)@.len() == old(self)@.len() + (if char_keys(old(self)@).contains(c) {
                0int
            } else {
                1int
            }),
    {
        let ghost orig = self.pairs@;
        let n = self.pairs.len();
        for i in 0..n
            invariant
                n == self.pairs@.len(),
                self.pairs@ == orig,
                orig == old(self)@,
                char_keys(orig).no_duplicates(),
                forall|j: int| 0 <= j < i ==> char_keys(orig)[j] != c,
        {
            if self.pairs[i].0 == c {
                proof {
                    assert(char_keys(orig)[i as int] == c);
                    assert(char_keys(orig).contains(c));
                    let k = char_keys(orig).index_of(c);
                    assert(char_keys(orig)[k] == c);
                    assert(k == i);
                }
                self.pairs.set(i, (c, ms));
                proof {
                    assert(char_keys(self.pairs@) =~= char_keys(orig));
                }
                return ;
            }
            proof {
                assert(char_keys(orig)[i as int] == orig[i as int].0);
            }
        }
        proof {
            assert(forall|j: int|
                0 <= j < orig.len() ==> #[trigger] char_keys(orig)[j] != c);
            assert(!char_keys(orig).contains(c));
        }
        self.pairs.push((c, ms));
        proof {
            assert(char_keys(self.pairs@) =~= char_keys(orig).push(c));
            let ks = char_keys(orig).push(c);
            assert forall|i: int, j: int|
                0 <= i < ks.len() && 0 <= j < ks.len() && i != j implies ks[i] != ks[j] by {
                if i < ks.len() - 1 && j < ks.len() - 1 {
                    assert(ks[i] == char_keys(orig)[i]);
                    assert(ks[j] == char_keys(orig)[j]);
                } else if i == ks.len() - 1 {
                    assert(ks[j] == char_keys(orig)[j]);
                    assert(char_keys(orig).contains(char_keys(orig)[j]));
                } else {
                    assert(ks[i] == char_keys(orig)[i]);
                    assert(char_keys(orig).contains(char_keys(orig)[i]));
                }
            }
        }
    }

    /// Adds up all stored samples.
    pub fn sum_ms(&self) -> (s: u128)
        ensures
            s == sum_times(self@),
    {
        let n = self.pairs.len();
        let mut s: u128 = 0;
        proof {
            assert(self.pairs@.take(0) =~= Seq::<(char, u32)>::empty());
            lemma_mul_upper_bound(n as int, u64::MAX as int, u32::MAX as int, u32::MAX as int);
        }
        for i in 0..n
            invariant
                n == self.pairs@.len(),
                s == sum_times(self.pairs@.take(i as int)),
                s <= i as int * u32::MAX as int,
                n as int * u32::MAX as int <= u64::MAX as int * u32::MAX as int,
        {
            proof {
                assert(self.pairs@.take(i + 1).drop_last() =~= self.pairs@.take(i as int));
                assert(self.pairs@.take(i + 1).last() == self.pairs@[i as int]);
                lemma_mul_upper_bound(i as int, n as int - 1, u32::MAX as int, u32::MAX as int);
            }
            s = s + self.pairs[i].1 as u128;
        }
        proof {
            assert(self.pairs@.take(n as int) =~= self.pairs@);
        }
        s
    }
}

/// The word key views of each stored pair.
pub open spec fn word_keys(s: Seq<(String, u32)>) -> Seq<Seq<char>> {
    s.map_values(|p: (String, u32)| p.0@)
}

/// The stored pairs with the sample for the word `w` overwritten (or
/// appended if `w` had no sample yet).
pub open spec fn insert_word_time(s: Seq<(String, u32)>, w: String, ms: u32) -> Seq<
    (String, u32),
> {
    if word_keys(s).contains(w@) {
        s.update(word_keys(s).index_of(w@), (w, ms))
    } else {
        s.push((w, ms))
    }
}

/// Latest response time per word, keyed by the word's characters.
#[derive(Debug)]
pub struct WordTimes {
    pub pairs: Vec<(String, u32)>,
}

impl View for WordTimes {
    type V = Seq<(String, u32)>;

    open spec fn view(&self) -> Seq<(String, u32)> {
        self.pairs@
    }
}

impl WordTimes {
    /// Word keys are unique.
    pub open spec fn wf(self) -> bool {
        word_keys(self@).no_duplicates()
    }

    /// An empty store.
    pub fn new() -> (r: WordTimes)
        ensures
            r@ == Seq::<(String, u32)>::empty(),
            r.wf(),
    {
        let r = WordTimes { pairs: Vec::new() };
        proof {
            assert(word_keys(r@) =~= Seq::<Seq<char>>::empty());
        }
        r
    }

    /// Number of words with a stored sample.
    pub fn len(&self) -> (n: usize)
        ensures
            n == self@.len(),
    {
        self.pairs.len()
    }

    /// Stores the latest sample for `w`, overwriting any earlier one.
    pub fn insert(&mut self, w: String, ms: u32)
        requires
            old(self).wf(),
        ensures
            final(self)@ == insert_word_time(old(self)@, w, ms),
            final(self).wf(),
    {
        let ghost orig = self.pairs@;
        let n = self.pairs.len();
        for i in 0..n
            invariant
                n == self.pairs@.len(),
                self.pairs@ == orig,
                orig == old(self)@,
                word_keys(orig).no_duplicates(),
                forall|j: int| 0 <= j < i ==> word_keys(orig)[j] != w@,
        {
            let hit = self.pairs[i].0 == w;
            if hit {
                proof {
                    assert(word_keys(orig)[i as int] == w@);
                    assert(word_keys(orig).contains(w@));
                    let k = word_keys(orig).index_of(w@);
                    assert(word_keys(orig)[k] == w@);
                    assert(k == i);
                }
                self.pairs.set(i, (w, ms));
                proof {
                    assert(word_keys(self.pairs@) =~= word_keys(orig));
                }
                return ;
            }
            proof {
                assert(word_keys(orig)[i as int] == orig[i as int].0@);
            }
        }
        proof {
            assert(forall|j: int|
                0 <= j < orig.len() ==> #[trigger] word_keys(orig)[j] != w@);
            assert(!word_keys(orig).contains(w@));
        }
        self.pairs.push((w, ms));
        proof {
            assert(word_keys(self.pairs@) =~= word_keys(orig).push(w@));
            let ks = word_keys(orig).push(w@);
            assert forall|i: int, j: int|
                0 <= i < ks.len() && 0 <= j < ks.len() && i != j implies ks[i] != ks[j] by {
                if i < ks.len() - 1 && j < ks.len() - 1 {
                    assert(ks[i] == word_keys(orig)[i]);
                    assert(ks[j] == word_keys(orig)[j]);
                } else if i == ks.len() - 1 {
                    assert(ks[j] == word_keys(orig)[j]);
                    assert(word_keys(orig).contains(word_keys(orig)[j]));
                } else {
                    assert(ks[i] == word_keys(orig)[i]);
                    assert(word_keys(orig).contains(word_keys(orig)[i]));
                }
            }
        }
    }
}

/// One closed session as it is logged: when it ran, how long, what was
/// still queued at its end, how accurate it was, and at which tier.
#[derive(Debug)]
pub struct LearningSession {
    pub timestamp: String,
    pub duration: u32,
    pub chars_practiced: Vec<char>,
    pub words_practiced: Vec<String>,
    pub accuracy: Ratio,
    pub difficulty: u8,
}

/// The persisted cumulative record: session count, exposure counters,
/// running weighted accuracy, latest response time per item, and the
/// append-only session log.
#[derive(Debug)]
pub struct UserStats {
    pub sessions_completed: u32,
    pub chars_learned: u32,
    pub words_learned: u32,
    pub accuracy: Ratio,
    pub response_times: CharTimes,
    pub word_response_times: WordTimes,
    pub session_history: Vec<LearningSession>,
}

impl UserStats {
    /// The record invariant: the running accuracy is a well-formed
    /// fraction and both sample stores keep one sample per key.
    pub open spec fn wf(self) -> bool {
        self.accuracy.wf() && self.response_times.wf() && self.word_response_times.wf()
    }

    /// Name of the file the record is stored under.
    pub fn stats_path() -> (r: String)
        ensures
            r@ == "morse_stats.toml"@,
    {
        String::from_str("morse_stats.toml")
    }

    /// Folds one finished session into the record: the session counter
    /// goes up by one and the session's accuracy `correct / total` is
    /// folded into the running weighted average
    /// `(old * (n - 1) + session) / n`, kept in lowest terms (see
    /// `fold_result` for the halving fallback when even the reduced
    /// fraction exceeds 64-bit words).  The average is recomputed on
    /// every session.
    pub fn commit_session(&mut self, correct: u32, total: u32)
        requires
            old(self).wf(),
            correct <= total,
            old(self).sessions_completed < u32::MAX,
        ensures
            final(self).wf(),
            final(self).sessions_completed == old(self).sessions_completed + 1,
            final(self).accuracy == fold_result(
                old(self).accuracy,
                (old(self).sessions_completed + 1) as u32,
                correct,
                total,
            ),
            final(self).chars_learned == old(self).chars_learned,
            final(self).words_learned == old(self).words_learned,
            final(self).response_times@ == old(self).response_times@,
            final(self).word_response_times@ == old(self).word_response_times@,
            final(self).session_history@ == old(self).session_history@,
    {
        let n = self.sessions_completed + 1;
        self.accuracy = fold_accuracy(self.accuracy, n, correct, total);
        self.sessions_completed = n;
    }
}

impl Default for UserStats {
    /// An empty record: no sessions, no samples, accuracy zero.
    fn default() -> (r: UserStats)
        ensures
            r.wf(),
            r.sessions_completed == 0,
            r.chars_learned == 0,
            r.words_learned == 0,
            r.accuracy == (Ratio { num: 0, den: 1 }),
            r.response_times@ == Seq::<(char, u32)>::empty(),
            r.word_response_times@ == Seq::<(String, u32)>::empty(),
            r.session_history@ == Seq::<LearningSession>::empty(),
    {
        UserStats {
            sessions_completed: 0,
            chars_learned: 0,
            words_learned: 0,
            accuracy: Ratio { num: 0, den: 1 },
            response_times: CharTimes::new(),
            word_response_times: WordTimes::new(),
            session_history: Vec::new(),
        }
    }
}

} // verus!
