//! The session controller: seeds the practice queue from the current
//! tier, scores one answer at a time, closes a session into the
//! statistics record, and applies the progression decision.
//!
//! Everything here works on plain values; reading the learner's input
//! and the clock, printing, and persistence live outside the crate.
//! Randomness enters only through the shuffle wrapper, whose contract
//! says no more than that the elements are permuted.

use vstd::prelude::*;
use vstd::seq_lib::group_to_multiset_ensures;
use vstd::multiset::group_multiset_axioms;
use rand::seq::SliceRandom;
use crate::config::{AppConfig, contains_char};
use crate::encoder::{
    char_to_morse, char_string, encode_word, encode_word_spec, morse_of, normalize_answer,
    normalize_spec,
};
use crate::progression::{
    ProgressionSystem, advance_ok, contains_word, lemma_no_dup_push, word_views,
};
use crate::queue::PracticeQueue;
use crate::ratio::{accuracy_den, accuracy_num, accuracy_of, fold_result, Ratio};
use crate::stats::{
    insert_time, sum_times, word_keys, LearningSession, UserStats,
};

verus! {

/// Tier ordinal at which gated symbol practice gives way to the
/// terminal open-ended word practice.
pub const WORD_LEVEL_ORDINAL: u8 = 9;

/// Most words a terminal-mode session draws from the word list.
pub const WORDS_PER_SESSION: usize = 10;

#[verifier::external_type_specification]
#[verifier::external_body]
pub struct ExThreadRng(rand::rngs::ThreadRng);

/// Relies on rand::rng: a handle to the thread-local random number
/// generator.  Nothing is assumed about the numbers it produces.
#[verifier::external_body]
fn fresh_rng() -> rand::rngs::ThreadRng {
    rand::rng()
}

/// Relies on rand::seq::SliceRandom::shuffle: the slice is permuted in
/// place, so its elements form the same multiset as before; which
/// permutation comes out is not assumed.
#[verifier::external_body]
fn shuffle_chars(v: &mut Vec<char>, rng: &mut rand::rngs::ThreadRng)
    ensures
        final(v)@.to_multiset() == old(v)@.to_multiset(),
        final(v)@.len() == old(v)@.len(),
{
    v.as_mut_slice().shuffle(rng);
}

/// Relies on rand::seq::SliceRandom::shuffle: the slice is permuted in
/// place, so its elements (and hence their character views) form the
/// same multiset as before; which permutation comes out is not
/// assumed.
#[verifier::external_body]
fn shuffle_words(v: &mut Vec<String>, rng: &mut rand::rngs::ThreadRng)
    ensures
        word_views(final(v)@).to_multiset() == word_views(old(v)@).to_multiset(),
        final(v)@.len() == old(v)@.len(),
{
    v.as_mut_slice().shuffle(rng);
}

/// Relies on chrono::Local::now and chrono::DateTime::to_rfc3339: the
/// current local time as an RFC 3339 string.  Nothing is assumed about
/// its value, which depends on the clock.
#[verifier::external_body]
fn now_rfc3339() -> String {
    chrono::Local::now().to_rfc3339()
}

/// Sequences with equal multisets have the same length and members,
/// and freedom from duplicates carries over.
pub proof fn lemma_same_multiset_facts<A>(a: Seq<A>, b: Seq<A>)
    requires
        a.to_multiset() == b.to_multiset(),
    ensures
        a.len() == b.len(),
        forall|x: A| a.contains(x) <==> b.contains(x),
        a.no_duplicates() ==> b.no_duplicates(),
{
    broadcast use group_to_multiset_ensures;

    assert(a.len() == a.to_multiset().len());
    assert(b.len() == b.to_multiset().len());
    assert forall|x: A| a.contains(x) <==> b.contains(x) by {
        assert(a.contains(x) <==> a.to_multiset().count(x) > 0);
        assert(b.contains(x) <==> b.to_multiset().count(x) > 0);
    }
    if a.no_duplicates() {
        a.lemma_multiset_has_no_duplicates();
        b.lemma_multiset_has_no_duplicates_conv();
    }
}

/// Appending one item changes exactly one count in the queue's view
/// multiset.
pub proof fn lemma_word_count_push(items: Seq<String>, s: String, x: Seq<char>)
    ensures
        word_views(items.push(s)).to_multiset().count(x) == word_views(items).to_multiset().count(
            x,
        ) + (if s@ == x {
            1nat
        } else {
            0nat
        }),
{
    broadcast use group_to_multiset_ensures;
    broadcast use group_multiset_axioms;

    assert(word_views(items.push(s)) =~= word_views(items).push(s@));
}

/// The first tier of the table carrying the given ordinal introduces
/// the character `c`.
pub open spec fn in_level_chars(prog: ProgressionSystem, ord: u8, c: char) -> bool {
    exists|i: int|
        0 <= i < prog.levels@.len() && (#[trigger] prog.levels@[i]).level == ord && (forall|j: int|
            0 <= j < i ==> (#[trigger] prog.levels@[j]).level != ord)
            && prog.levels@[i].chars_to_learn@.contains(c)
}

/// What a freshly seeded queue holds.  In word mode: at most
/// `WORDS_PER_SESSION` distinct words drawn from the configured list.
/// In symbol mode: every symbol of the learner's known set and of the
/// current tier, each exactly once, as a one-character item; the order
/// is left to the shuffle.  Repetition within a session comes from the
/// queue's retry-on-failure policy, not from the seed.
pub open spec fn well_seeded(
    q: Seq<String>,
    config: AppConfig,
    prog: ProgressionSystem,
    word_mode: bool,
) -> bool {
    if word_mode {
        &&& q.len() == (if prog.common_words@.len() < WORDS_PER_SESSION as int {
            prog.common_words@.len() as int
        } else {
            WORDS_PER_SESSION as int
        })
        &&& word_views(q).no_duplicates()
        &&& forall|i: int|
            0 <= i < q.len() ==> word_views(prog.common_words@).contains(#[trigger] q[i]@)
    } else {
        &&& forall|i: int| 0 <= i < q.len() ==> (#[trigger] q[i])@.len() == 1
        &&& forall|c: char|
            word_views(q).to_multiset().count(seq![c]) == (
            if config.known_chars@.contains(c) || in_level_chars(
                prog,
                config.difficulty_level,
                c,
            ) {
                1nat
            } else {
                0nat
            })
    }
}

/// Law: progression is monotonic.  The known set only ever changes by
/// appending (`update_progression` promises that the new known list is
/// the old one followed by `added_chars`), so no member is ever lost
/// and the list never shrinks; together with its promise that the tier
/// ordinal never decreases, no sequence of operations loses progress.
pub proof fn lemma_known_set_monotonic(before: Seq<char>, added: Seq<char>)
    ensures
        forall|c: char| before.contains(c) ==> #[trigger] (before + added).contains(c),
        before.len() <= (before + added).len(),
{
    assert forall|c: char| before.contains(c) implies #[trigger] (before + added).contains(
        c,
    ) by {
        let i = choose|i: int| 0 <= i < before.len() && before[i] == c;
        assert((before + added)[i] == c);
    }
}

/// The code a presented item is expected to be answered with: the
/// word's joined code in word mode, else the code of the item's first
/// symbol (empty if that symbol is outside the alphabet).
pub open spec fn expected_code(word_mode: bool, item: Seq<char>) -> Seq<char> {
    if word_mode {
        encode_word_spec(item)
    } else {
        morse_of(item[0])
    }
}

/// What scoring one answer yields: whether it was right, and the code
/// that was expected.
pub struct PracticeOutcome {
    pub correct: bool,
    pub expected: String,
}

/// What the end-of-session progression decision did.
pub struct ProgressionReport {
    /// A tier with the profile's ordinal existed and was gated.
    pub evaluated: bool,
    /// Whether the unlock gate held, so the ordinal went up.
    pub advanced: bool,
    /// The tier ordinal after the decision.
    pub new_level: u8,
    /// Advancement crossed into terminal word practice.
    pub reached_word_level: bool,
    /// The symbols that joined the known set, in order.
    pub added_chars: Vec<char>,
}

/// A first match in the tier table is unique.
proof fn lemma_first_match_unique(levels: Seq<crate::progression::ProgressionLevel>, ord: u8, i: int)
    requires
        0 <= i < levels.len(),
        levels[i].level == ord,
        forall|j: int| 0 <= j < i ==> (#[trigger] levels[j]).level != ord,
    ensures
        forall|x: int|
            (0 <= x < levels.len() && (#[trigger] levels[x]).level == ord && (forall|j: int|
                0 <= j < x ==> (#[trigger] levels[j]).level != ord)) ==> x == i,
{
    assert forall|x: int|
        (0 <= x < levels.len() && (#[trigger] levels[x]).level == ord && (forall|j: int|
            0 <= j < x ==> (#[trigger] levels[j]).level != ord)) implies x == i by {
        if x < i {
            assert(levels[x].level != ord);
        } else if x > i {
            assert(levels[i].level != ord);
        }
    }
}

/// A base list extended by the new members of `add`, in order: each
/// element of `add` is appended unless already present.
pub open spec fn extend_new(base: Seq<char>, add: Seq<char>) -> Seq<char>
    decreases add.len(),
{
    if add.len() == 0 {
        base
    } else {
        let p = extend_new(base, add.drop_last());
        if p.contains(add.last()) {
            p
        } else {
            p.push(add.last())
        }
    }
}

/// Extending a duplicate-free list keeps it duplicate-free, keeps the
/// base as a prefix, and makes the members exactly the union.
pub proof fn lemma_extend_new_props(base: Seq<char>, add: Seq<char>)
    requires
        base.no_duplicates(),
    ensures
        extend_new(base, add).no_duplicates(),
        base.len() <= extend_new(base, add).len(),
        extend_new(base, add).take(base.len() as int) == base,
        forall|c: char|
            extend_new(base, add).contains(c) <==> (base.contains(c) || add.contains(c)),
    decreases add.len(),
{
    if add.len() == 0 {
        assert(extend_new(base, add).take(base.len() as int) =~= base);
        assert forall|c: char|
            extend_new(base, add).contains(c) <==> (base.contains(c) || add.contains(c)) by {
            if add.contains(c) {
                let x = choose|x: int| 0 <= x < add.len() && add[x] == c;
            }
        }
    } else {
        let pre = add.drop_last();
        lemma_extend_new_props(base, pre);
        let p = extend_new(base, pre);
        let e = extend_new(base, add);
        if p.contains(add.last()) {
        } else {
            lemma_no_dup_push(p, add.last());
            assert(e.take(base.len() as int) =~= p.take(base.len() as int));
        }
        assert forall|c: char|
            e.contains(c) <==> (base.contains(c) || add.contains(c)) by {
            if add.contains(c) {
                let x = choose|x: int| 0 <= x < add.len() && add[x] == c;
                if x < add.len() - 1 {
                    assert(pre[x] == c);
                    assert(pre.contains(c));
                    assert(p.contains(c));
                    let y = choose|y: int| 0 <= y < p.len() && p[y] == c;
                    if !p.contains(add.last()) {
                        assert(e[y] == c);
                    }
                    assert(e.contains(c));
                } else {
                    assert(c == add.last());
                    if p.contains(c) {
                        let y = choose|y: int| 0 <= y < p.len() && p[y] == c;
                        if !p.contains(add.last()) {
                            assert(e[y] == c);
                        }
                        assert(e.contains(c));
                    } else {
                        assert(e[e.len() - 1] == c);
                        assert(e.contains(c));
                    }
                }
            }
            if base.contains(c) {
                assert(p.contains(c));
                let y = choose|y: int| 0 <= y < p.len() && p[y] == c;
                if !p.contains(add.last()) {
                    assert(e[y] == c);
                }
                assert(e.contains(c));
            }
            if e.contains(c) {
                let y = choose|y: int| 0 <= y < e.len() && e[y] == c;
                if p.contains(add.last()) {
                    assert(p.contains(c));
                } else {
                    if y < e.len() - 1 {
                        assert(p[y] == c);
                        assert(p.contains(c));
                    } else {
                        assert(c == add.last());
                        assert(add.contains(add.last()));
                    }
                }
                if p.contains(c) {
                    assert(base.contains(c) || pre.contains(c));
                    if pre.contains(c) {
                        let x = choose|x: int| 0 <= x < pre.len() && pre[x] == c;
                        assert(add[x] == c);
                        assert(add.contains(c));
                    }
                }
            }
        }
    }
}

/// The whole tutor: profile, record, tier table, session worklist and
/// the running session's counters.
pub struct MorseTutor {
    pub config: AppConfig,
    pub stats: UserStats,
    pub progression: ProgressionSystem,
    pub practice_queue: PracticeQueue,
    pub correct_answers: u32,
    pub total_answers: u32,
    pub is_word_level: bool,
    /// The distinct symbols presented so far this session, in order of
    /// first presentation; what the session log lists as practiced.
    pub practiced_chars: Vec<char>,
    /// The distinct words presented so far this session, in order of
    /// first presentation; what the session log lists as practiced.
    pub practiced_words: Vec<String>,
}

impl MorseTutor {
    /// The controller invariant: all parts well-formed, the mode flag
    /// agrees with the tier ordinal, no empty item is ever queued, and
    /// no more answers are correct than were given.
    pub open spec fn wf(self) -> bool {
        &&& self.config.wf()
        &&& self.stats.wf()
        &&& self.progression.wf()
        &&& (self.is_word_level <==> self.config.difficulty_level >= WORD_LEVEL_ORDINAL)
        &&& forall|i: int|
            0 <= i < self.practice_queue@.len() ==> (#[trigger] self.practice_queue@[i])@.len()
                >= 1
        &&& self.correct_answers <= self.total_answers
    }

    /// Builds a tutor from a loaded profile, record and tier table and
    /// seeds the first session's queue.
    pub fn new(config: AppConfig, stats: UserStats, progression: ProgressionSystem) -> (r:
        MorseTutor)
        requires
            config.wf(),
            stats.wf(),
            progression.wf(),
        ensures
            r.wf(),
            r.config == config,
            r.stats == stats,
            r.progression == progression,
            r.correct_answers == 0,
            r.total_answers == 0,
            r.is_word_level == (config.difficulty_level >= WORD_LEVEL_ORDINAL),
            r.practiced_chars@ == Seq::<char>::empty(),
            r.practiced_words@ == Seq::<String>::empty(),
            well_seeded(r.practice_queue@, config, progression, r.is_word_level),
    {
        let is_word_level = config.difficulty_level >= WORD_LEVEL_ORDINAL;
        let mut tutor = MorseTutor {
            config,
            stats,
            progression,
            practice_queue: PracticeQueue::new(),
            correct_answers: 0,
            total_answers: 0,
            is_word_level,
            practiced_chars: Vec::new(),
            practiced_words: Vec::new(),
        };
        tutor.generate_practice_queue();
        tutor
    }

    /// Seeds the session worklist from the current state: in word mode
    /// a fresh shuffled sample of the word list, otherwise one shuffled
    /// round over the known symbols plus the current tier's symbols,
    /// each seeded once.
    pub fn generate_practice_queue(&mut self)
        requires
            old(self).wf(),
        ensures
            final(self).wf(),
            well_seeded(
                final(self).practice_queue@,
                final(self).config,
                final(self).progression,
                final(self).is_word_level,
            ),
            final(self).config == old(self).config,
            final(self).stats == old(self).stats,
            final(self).progression == old(self).progression,
            final(self).correct_answers == old(self).correct_answers,
            final(self).total_answers == old(self).total_answers,
            final(self).is_word_level == old(self).is_word_level,
            final(self).practiced_chars@ == old(self).practiced_chars@,
            final(self).practiced_words@ == old(self).practiced_words@,
    {
        let mut rng = fresh_rng();
        if self.is_word_level {
            let cw = &self.progression.common_words;
            let cwn = cw.len();
            let mut words: Vec<String> = Vec::new();
            for i in 0..cwn
                invariant
                    cwn == cw@.len(),
                    cw == &self.progression.common_words,
                    words@.len() == i,
                    forall|j: int| 0 <= j < i ==> (#[trigger] words@[j]) == cw@[j],
            {
                words.push(cw[i].clone());
            }
            proof {
                assert(words@ =~= cw@);
            }
            shuffle_words(&mut words, &mut rng);
            proof {
                lemma_same_multiset_facts(word_views(cw@), word_views(words@));
                assert(word_views(cw@).no_duplicates());
                assert(word_views(words@).no_duplicates());
            }
            let limit = if words.len() < WORDS_PER_SESSION {
                words.len()
            } else {
                WORDS_PER_SESSION
            };
            let mut items: Vec<String> = Vec::new();
            for i in 0..limit
                invariant
                    limit <= words@.len(),
                    items@.len() == i,
                    forall|j: int| 0 <= j < i ==> (#[trigger] items@[j]) == words@[j],
            {
                items.push(words[i].clone());
            }
            proof {
                assert(items@ =~= words@.take(limit as int));
                assert(word_views(items@) =~= word_views(words@).take(limit as int));
                let wv = word_views(words@);
                let iv = word_views(items@);
                assert forall|i: int, j: int|
                    0 <= i < iv.len() && 0 <= j < iv.len() && i != j implies iv[i] != iv[j] by {
                    assert(iv[i] == wv[i]);
                    assert(iv[j] == wv[j]);
                }
                assert forall|i: int| 0 <= i < items@.len() implies word_views(
                    self.progression.common_words@,
                ).contains(#[trigger] items@[i]@) by {
                    assert(word_views(items@)[i] == items@[i]@);
                    assert(word_views(words@)[i] == items@[i]@);
                    assert(word_views(words@).contains(items@[i]@));
                }
            }
            self.practice_queue.seed(items);
            proof {
                assert forall|i: int| 0 <= i < self.practice_queue@.len() implies (
                #[trigger] self.practice_queue@[i])@.len() >= 1 by {
                    let v = self.practice_queue@[i]@;
                    assert(word_views(self.progression.common_words@).contains(v));
                    let k = choose|k: int|
                        0 <= k < word_views(self.progression.common_words@).len() && word_views(
                            self.progression.common_words@,
                        )[k] == v;
                    assert(self.progression.common_words@[k]@ == v);
                }
            }
        } else {
            let known = &self.config.known_chars;
            let kn = known.len();
            let mut chars: Vec<char> = Vec::new();
            for i in 0..kn
                invariant
                    kn == known@.len(),
                    known == &self.config.known_chars,
                    chars@.len() == i,
                    forall|j: int| 0 <= j < i ==> (#[trigger] chars@[j]) == known@[j],
            {
                chars.push(known[i]);
            }
            proof {
                assert(chars@ =~= known@);
            }
            shuffle_chars(&mut chars, &mut rng);
            proof {
                lemma_same_multiset_facts(self.config.known_chars@, chars@);
            }
            let found = self.progression.find_level(self.config.difficulty_level);
            let ghost target = |c: char|
                self.config.known_chars@.contains(c) || in_level_chars(
                    self.progression,
                    self.config.difficulty_level,
                    c,
                );
            match found {
                Some(li) => {
                    let level_chars = &self.progression.levels[li].chars_to_learn;
                    let lm = level_chars.len();
                    proof {
                        assert forall|c: char|
                            in_level_chars(
                                self.progression,
                                self.config.difficulty_level,
                                c,
                            ) <==> level_chars@.contains(c) by {
                            if level_chars@.contains(c) {
                                assert(in_level_chars(
                                    self.progression,
                                    self.config.difficulty_level,
                                    c,
                                ));
                            }
                        }
                    }
                    for k in 0..lm
                        invariant
                            lm == level_chars@.len(),
                            level_chars == &self.progression.levels@[li as int].chars_to_learn,
                            li < self.progression.levels@.len(),
                            chars@.no_duplicates(),
                            forall|c: char|
                                chars@.contains(c) <==> (self.config.known_chars@.contains(c)
                                    || level_chars@.take(k as int).contains(c)),
                    {
                        let c = level_chars[k];
                        proof {
                            assert(level_chars@.take(k + 1) =~= level_chars@.take(
                                k as int,
                            ).push(level_chars@[k as int]));
                        }
                        if !contains_char(&chars, c) {
                            let ghost before = chars@;
                            chars.push(c);
                            proof {
                                lemma_no_dup_push(before, c);
                                assert forall|d: char|
                                    chars@.contains(d) <==> (self.config.known_chars@.contains(d)
                                        || level_chars@.take(k + 1).contains(d)) by {
                                    if chars@.contains(d) {
                                        let x = choose|x: int|
                                            0 <= x < chars@.len() && chars@[x] == d;
                                        if x < chars@.len() - 1 {
                                            assert(before[x] == d);
                                            assert(before.contains(d));
                                        } else {
                                            assert(d == c);
                                            assert(level_chars@.take(k + 1)[k as int] == c);
                                            assert(level_chars@.take(k + 1).contains(c));
                                        }
                                    }
                                    if before.contains(d) {
                                        let x = choose|x: int|
                                            0 <= x < before.len() && before[x] == d;
                                        assert(chars@[x] == d);
                                        assert(chars@.contains(d));
                                    }
                                    if level_chars@.take(k as int).contains(d) {
                                        let x = choose|x: int|
                                            0 <= x < k && #[trigger] level_chars@.take(
                                                k as int,
                                            )[x] == d;
                                        assert(level_chars@.take(k + 1)[x] == d);
                                        assert(level_chars@.take(k + 1).contains(d));
                                    }
                                    if level_chars@.take(k + 1).contains(d) {
                                        let x = choose|x: int|
                                            0 <= x < k + 1 && #[trigger] level_chars@.take(k + 1)[x] == d;
                                        if x < k {
                                            assert(level_chars@.take(k as int)[x] == d);
                                            assert(level_chars@.take(k as int).contains(d));
                                        } else {
                                            assert(d == c);
                                            assert(chars@[chars@.len() - 1] == c);
                                            assert(chars@.contains(d));
                                        }
                                    }
                                }
                            }
                        } else {
                            proof {
                                assert forall|d: char|
                                    chars@.contains(d) <==> (self.config.known_chars@.contains(d)
                                        || level_chars@.take(k + 1).contains(d)) by {
                                    if level_chars@.take(k as int).contains(d) {
                                        let x = choose|x: int|
                                            0 <= x < k && #[trigger] level_chars@.take(
                                                k as int,
                                            )[x] == d;
                                        assert(level_chars@.take(k + 1)[x] == d);
                                        assert(level_chars@.take(k + 1).contains(d));
                                    }
                                    if level_chars@.take(k + 1).contains(d) {
                                        let x = choose|x: int|
                                            0 <= x < k + 1 && #[trigger] level_chars@.take(k + 1)[x] == d;
                                        if x < k {
                                            assert(level_chars@.take(k as int)[x] == d);
                                            assert(level_chars@.take(k as int).contains(d));
                                        } else {
                                            assert(d == c);
                                        }
                                    }
                                }
                            }
                        }
                    }
                    proof {
                        assert(level_chars@.take(lm as int) =~= level_chars@);
                        assert(forall|c: char| chars@.contains(c) <==> target(c));
                    }
                },
                None => {
                    proof {
                        assert forall|c: char| chars@.contains(c) <==> target(c) by {
                            assert(!in_level_chars(
                                self.progression,
                                self.config.difficulty_level,
                                c,
                            ));
                        }
                    }
                },
            }
            let m = chars.len();
            let mut items: Vec<String> = Vec::new();
            proof {
                broadcast use group_to_multiset_ensures;
                broadcast use group_multiset_axioms;

                assert(word_views(items@) =~= Seq::<Seq<char>>::empty());
            }
            for k in 0..m
                invariant
                    m == chars@.len(),
                    chars@.no_duplicates(),
                    forall|c: char| chars@.contains(c) <==> target(c),
                    forall|i: int|
                        0 <= i < items@.len() ==> (#[trigger] items@[i])@.len() == 1,
                    forall|c: char|
                        word_views(items@).to_multiset().count(seq![c]) == (
                        if chars@.take(k as int).contains(c) {
                            1nat
                        } else {
                            0nat
                        }),
            {
                let s = char_string(chars[k]);
                let ghost before = items@;
                items.push(s);
                proof {
                    assert(chars@.take(k + 1) =~= chars@.take(k as int).push(
                        chars@[k as int],
                    ));
                    assert forall|c: char|
                        word_views(items@).to_multiset().count(seq![c]) == (
                        if chars@.take(k + 1).contains(c) {
                            1nat
                        } else {
                            0nat
                        }) by {
                            lemma_word_count_push(before, items@.last(), seq![c]);
                            assert(items@.last()@ == seq![chars@[k as int]]);
                            if c == chars@[k as int] {
                                assert(seq![chars@[k as int]] == seq![c]);
                                assert(!chars@.take(k as int).contains(c)) by {
                                    if chars@.take(k as int).contains(c) {
                                        let x = choose|x: int|
                                            0 <= x < k && #[trigger] chars@.take(k as int)[x] == c;
                                        assert(chars@[x] == chars@[k as int]);
                                    }
                                }
                                assert(chars@.take(k + 1).contains(c)) by {
                                    assert(chars@.take(k + 1)[k as int] == c);
                                }
                            } else {
                                assert(seq![chars@[k as int]] != seq![c]) by {
                                    assert(seq![chars@[k as int]][0] == chars@[k as int]);
                                    assert(seq![c][0] == c);
                                }
                                assert(chars@.take(k + 1).contains(c) <==> chars@.take(
                                    k as int,
                                ).contains(c)) by {
                                    if chars@.take(k + 1).contains(c) {
                                        let x = choose|x: int|
                                            0 <= x < k + 1 && #[trigger] chars@.take(k + 1)[x] == c;
                                        if x < k {
                                            assert(chars@.take(k as int)[x] == c);
                                        }
                                    }
                                    if chars@.take(k as int).contains(c) {
                                        let x = choose|x: int|
                                            0 <= x < k && #[trigger] chars@.take(k as int)[x] == c;
                                        assert(chars@.take(k + 1)[x] == c);
                                    }
                                }
                            }
                        }
                    }
                }
            proof {
                assert(chars@.take(m as int) =~= chars@);
                assert forall|c: char|
                    word_views(items@).to_multiset().count(seq![c]) == (
                    if target(c) {
                        1nat
                    } else {
                        0nat
                    }) by {
                    if target(c) {
                        assert(chars@.contains(c));
                    } else {
                        assert(!chars@.contains(c));
                    }
                }
            }
            self.practice_queue.seed(items);
        }
    }

    /// Opens a session: resets the counters and appends a fresh open
    /// log entry at the current tier, timestamped from the clock.
    pub fn start_session(&mut self)
        requires
            old(self).wf(),
        ensures
            final(self).wf(),
            final(self).correct_answers == 0,
            final(self).total_answers == 0,
            final(self).practiced_chars@ == Seq::<char>::empty(),
            final(self).practiced_words@ == Seq::<String>::empty(),
            final(self).stats.session_history@.len() == old(self).stats.session_history@.len()
                + 1,
            final(self).stats.session_history@.take(
                old(self).stats.session_history@.len() as int,
            ) == old(self).stats.session_history@,
            ({
                let e = final(self).stats.session_history@.last();
                &&& e.duration == 0
                &&& e.accuracy == (Ratio { num: 0, den: 1 })
                &&& e.difficulty == old(self).config.difficulty_level
                &&& e.chars_practiced@ == Seq::<char>::empty()
                &&& e.words_practiced@ == Seq::<String>::empty()
            }),
            final(self).config == old(self).config,
            final(self).progression == old(self).progression,
            final(self).practice_queue@ == old(self).practice_queue@,
            final(self).is_word_level == old(self).is_word_level,
            final(self).stats.sessions_completed == old(self).stats.sessions_completed,
            final(self).stats.chars_learned == old(self).stats.chars_learned,
            final(self).stats.words_learned == old(self).stats.words_learned,
            final(self).stats.accuracy == old(self).stats.accuracy,
            final(self).stats.response_times@ == old(self).stats.response_times@,
            final(self).stats.word_response_times@ == old(self).stats.word_response_times@,
    {
        let ghost orig_hist = self.stats.session_history@;
        let entry = LearningSession {
            timestamp: now_rfc3339(),
            duration: 0,
            chars_practiced: Vec::new(),
            words_practiced: Vec::new(),
            accuracy: Ratio::zero(),
            difficulty: self.config.difficulty_level,
        };
        self.stats.session_history.push(entry);
        self.correct_answers = 0;
        self.total_answers = 0;
        self.practiced_chars = Vec::new();
        self.practiced_words = Vec::new();
        proof {
            assert(self.stats.session_history@.take(orig_hist.len() as int) =~= orig_hist);
        }
    }

    /// Scores one presented item: computes the expected code, compares
    /// the learner's answer (trimmed and uppercased) against it,
    /// counts the attempt, stores the response time as the item's
    /// latest sample, and notes the item among those practiced this
    /// session.  The queue itself is settled separately through
    /// [`PracticeQueue::resolve`].
    pub fn practice_item(&mut self, item: &str, answer: &str, response_ms: u32) -> (r:
        PracticeOutcome)
        requires
            old(self).wf(),
            item@.len() >= 1,
            old(self).total_answers < u32::MAX,
            old(self).is_word_level ==> old(self).stats.words_learned < u32::MAX,
            !old(self).is_word_level ==> old(self).stats.chars_learned < u32::MAX,
        ensures
            final(self).wf(),
            r.expected@ == expected_code(old(self).is_word_level, item@),
            r.correct == (normalize_spec(answer@) == expected_code(
                old(self).is_word_level,
                item@,
            )),
            final(self).total_answers == old(self).total_answers + 1,
            final(self).correct_answers == old(self).correct_answers + (if r.correct {
                1int
            } else {
                0int
            }),
            old(self).is_word_level ==> ({
                let wt = final(self).stats.word_response_times@;
                let ot = old(self).stats.word_response_times@;
                &&& word_keys(wt) == (if word_keys(ot).contains(item@) {
                    word_keys(ot)
                } else {
                    word_keys(ot).push(item@)
                })
                &&& word_keys(wt).contains(item@)
                &&& wt[word_keys(wt).index_of(item@)].1 == response_ms
                &&& wt[word_keys(wt).index_of(item@)].0@ == item@
                &&& forall|j: int|
                    0 <= j < ot.len() && word_keys(ot)[j] != item@ ==> wt[j] == ot[j]
                &&& final(self).stats.words_learned == old(self).stats.words_learned + 1
                &&& final(self).stats.chars_learned == old(self).stats.chars_learned
                &&& final(self).stats.response_times@ == old(self).stats.response_times@
                &&& (word_views(old(self).practiced_words@).contains(item@) ==> final(self).practiced_words@ == old(self).practiced_words@)
                &&& (!word_views(old(self).practiced_words@).contains(item@) ==> word_views(
                    final(self).practiced_words@,
                ) == word_views(old(self).practiced_words@).push(item@) && forall|j: int|
                    0 <= j < old(self).practiced_words@.len() ==> final(self).practiced_words@[j]
                        == old(self).practiced_words@[j])
                &&& final(self).practiced_chars@ == old(self).practiced_chars@
            }),
            !old(self).is_word_level ==> ({
                &&& final(self).stats.response_times@ == insert_time(
                    old(self).stats.response_times@,
                    item@[0],
                    response_ms,
                )
                &&& final(self).stats.chars_learned == old(self).stats.chars_learned + 1
                &&& final(self).stats.words_learned == old(self).stats.words_learned
                &&& final(self).stats.word_response_times@ == old(self).stats.word_response_times@
                &&& final(self).practiced_chars@ == (if old(self).practiced_chars@.contains(
                    item@[0],
                ) {
                    old(self).practiced_chars@
                } else {
                    old(self).practiced_chars@.push(item@[0])
                })
                &&& final(self).practiced_words@ == old(self).practiced_words@
            }),
            final(self).config == old(self).config,
            final(self).progression == old(self).progression,
            final(self).practice_queue@ == old(self).practice_queue@,
            final(self).is_word_level == old(self).is_word_level,
            final(self).stats.sessions_completed == old(self).stats.sessions_completed,
            final(self).stats.accuracy == old(self).stats.accuracy,
            final(self).stats.session_history@ == old(self).stats.session_history@,
    {
        let expected: String = if self.is_word_level {
            encode_word(item)
        } else {
            match char_to_morse(item.get_char(0)) {
                Some(code) => String::from_str(code),
                None => String::new(),
            }
        };
        let normalized = normalize_answer(answer);
        let correct = normalized == expected;
        self.total_answers = self.total_answers + 1;
        if correct {
            self.correct_answers = self.correct_answers + 1;
        }
        if self.is_word_level {
            let pw = String::from_str(item);
            if !contains_word(&self.practiced_words, &pw) {
                let ghost before = self.practiced_words@;
                self.practiced_words.push(pw);
                proof {
                    assert(word_views(self.practiced_words@) =~= word_views(before).push(item@));
                }
            }
            let w = String::from_str(item);
            let ghost ot = self.stats.word_response_times@;
            self.stats.word_response_times.insert(w, response_ms);
            self.stats.words_learned = self.stats.words_learned + 1;
            proof {
                let wt = self.stats.word_response_times@;
                if word_keys(ot).contains(item@) {
                    let k = word_keys(ot).index_of(item@);
                    assert(word_keys(wt) =~= word_keys(ot));
                    assert(wt[word_keys(wt).index_of(item@)].1 == response_ms) by {
                        let k2 = word_keys(wt).index_of(item@);
                        assert(word_keys(wt)[k2] == item@);
                        assert(word_keys(wt)[k] == item@);
                        assert(k2 == k);
                    }
                } else {
                    assert(word_keys(wt) =~= word_keys(ot).push(item@));
                    assert(word_keys(wt)[word_keys(wt).len() - 1] == item@);
                    assert(word_keys(wt).contains(item@));
                    let k2 = word_keys(wt).index_of(item@);
                    assert(word_keys(wt)[k2] == item@);
                    assert(k2 == word_keys(wt).len() - 1);
                }
            }
        } else {
            let c = item.get_char(0);
            if !contains_char(&self.practiced_chars, c) {
                self.practiced_chars.push(c);
            }
            self.stats.response_times.insert(c, response_ms);
            self.stats.chars_learned = self.stats.chars_learned + 1;
        }
        PracticeOutcome { correct, expected }
    }

    /// Closes the session's bookkeeping: writes duration, accuracy and
    /// the items practiced into the open log entry, then folds the
    /// session into the cumulative record (session counter and running
    /// weighted accuracy).  An early end — quit or timeout — commits
    /// the partial result the same way.  A session with zero attempts
    /// closes with accuracy exactly zero: no division happens.
    pub fn end_session(&mut self, duration_secs: u32)
        requires
            old(self).wf(),
            old(self).stats.sessions_completed < u32::MAX,
        ensures
            final(self).wf(),
            final(self).stats.sessions_completed == old(self).stats.sessions_completed + 1,
            final(self).stats.accuracy == fold_result(
                old(self).stats.accuracy,
                (old(self).stats.sessions_completed + 1) as u32,
                old(self).correct_answers,
                old(self).total_answers,
            ),
            old(self).total_answers == 0 ==> accuracy_num(
                old(self).correct_answers,
                old(self).total_answers,
            ) == 0 && accuracy_den(old(self).total_answers) == 1,
            final(self).stats.session_history@.len() == old(self).stats.session_history@.len(),
            old(self).stats.session_history@.len() == 0 ==> final(self).stats.session_history@
                == old(self).stats.session_history@,
            old(self).stats.session_history@.len() > 0 ==> ({
                let e = final(self).stats.session_history@.last();
                let o = old(self).stats.session_history@.last();
                &&& final(self).stats.session_history@.take(
                    old(self).stats.session_history@.len() - 1,
                ) == old(self).stats.session_history@.take(
                    old(self).stats.session_history@.len() - 1,
                )
                &&& e.timestamp == o.timestamp
                &&& e.difficulty == o.difficulty
                &&& e.duration == duration_secs
                &&& e.accuracy.num == accuracy_num(
                    old(self).correct_answers,
                    old(self).total_answers,
                )
                &&& e.accuracy.den == accuracy_den(old(self).total_answers)
                &&& (old(self).is_word_level ==> e.words_practiced@ == old(self).practiced_words@ && e.chars_practiced@ == Seq::<char>::empty())
                &&& (!old(self).is_word_level ==> e.chars_practiced@ == old(self).practiced_chars@ && e.words_practiced@ == Seq::<String>::empty())
            }),
            final(self).config == old(self).config,
            final(self).progression == old(self).progression,
            final(self).practice_queue@ == old(self).practice_queue@,
            final(self).is_word_level == old(self).is_word_level,
            final(self).correct_answers == old(self).correct_answers,
            final(self).total_answers == old(self).total_answers,
            final(self).stats.chars_learned == old(self).stats.chars_learned,
            final(self).stats.words_learned == old(self).stats.words_learned,
            final(self).stats.response_times@ == old(self).stats.response_times@,
            final(self).stats.word_response_times@ == old(self).stats.word_response_times@,
            final(self).practiced_chars@ == old(self).practiced_chars@,
            final(self).practiced_words@ == old(self).practiced_words@,
    {
        let correct = self.correct_answers;
        let total = self.total_answers;
        let acc = accuracy_of(correct, total);
        let hn = self.stats.session_history.len();
        if hn > 0 {
            let idx = hn - 1;
            let ts = self.stats.session_history[idx].timestamp.clone();
            let diff = self.stats.session_history[idx].difficulty;
            let mut chars_p: Vec<char> = Vec::new();
            let mut words_p: Vec<String> = Vec::new();
            if self.is_word_level {
                let pn = self.practiced_words.len();
                for i in 0..pn
                    invariant
                        pn == self.practiced_words@.len(),
                        self.practiced_words@ == old(self).practiced_words@,
                        words_p@.len() == i,
                        forall|j: int|
                            0 <= j < i ==> (#[trigger] words_p@[j]) == self.practiced_words@[j],
                {
                    words_p.push(self.practiced_words[i].clone());
                }
                proof {
                    assert(words_p@ =~= self.practiced_words@);
                }
            } else {
                let pn = self.practiced_chars.len();
                for i in 0..pn
                    invariant
                        pn == self.practiced_chars@.len(),
                        self.practiced_chars@ == old(self).practiced_chars@,
                        chars_p@.len() == i,
                        forall|j: int|
                            0 <= j < i ==> (#[trigger] chars_p@[j]) == self.practiced_chars@[j],
                {
                    chars_p.push(self.practiced_chars[i]);
                }
                proof {
                    assert(chars_p@ =~= self.practiced_chars@);
                }
            }
            let entry = LearningSession {
                timestamp: ts,
                duration: duration_secs,
                chars_practiced: chars_p,
                words_practiced: words_p,
                accuracy: acc,
                difficulty: diff,
            };
            let ghost orig_hist = self.stats.session_history@;
            self.stats.session_history.set(idx, entry);
            proof {
                assert(self.stats.session_history@.take(idx as int) =~= orig_hist.take(
                    idx as int,
                ));
            }
        }
        self.stats.commit_session(correct, total);
    }

    /// Applies the end-of-session progression decision.  In terminal
    /// word mode nothing is gated.  Otherwise, at the current tier,
    /// the session advances exactly when it meets both the accuracy
    /// and the speed requirement; on advancement the tier ordinal goes
    /// up by one, the symbols of the passed tier and of the newly
    /// unlocked tier join the known set, and the queue is reseeded.
    /// The tier ordinal never decreases and the known set never loses
    /// a member: `known_chars` only ever grows by `added_chars`.
    pub fn update_progression(&mut self) -> (r: ProgressionReport)
        requires
            old(self).wf(),
        ensures
            final(self).wf(),
            final(self).config.difficulty_level >= old(self).config.difficulty_level,
            final(self).config.known_chars@ == old(self).config.known_chars@ + r.added_chars@,
            final(self).stats == old(self).stats,
            final(self).progression == old(self).progression,
            final(self).correct_answers == old(self).correct_answers,
            final(self).total_answers == old(self).total_answers,
            final(self).config.session_duration == old(self).config.session_duration,
            final(self).practiced_chars@ == old(self).practiced_chars@,
            final(self).practiced_words@ == old(self).practiced_words@,
            r.advanced ==> r.evaluated,
            old(self).is_word_level ==> final(self).config == old(self).config && final(self).practice_queue@ == old(self).practice_queue@ && final(self).is_word_level
                && !r.advanced && !r.evaluated && r.added_chars@.len() == 0 && r.new_level
                == old(self).config.difficulty_level && !r.reached_word_level,
            (!old(self).is_word_level && (forall|j: int|
                0 <= j < old(self).progression.levels@.len()
                    ==> (#[trigger] old(self).progression.levels@[j]).level != old(self).config.difficulty_level)) ==> final(self).config == old(self).config && final(self).practice_queue@ == old(self).practice_queue@ && !r.advanced && !r.evaluated
                && r.added_chars@.len() == 0 && r.new_level == old(self).config.difficulty_level && !r.reached_word_level,
            !old(self).is_word_level ==> forall|i: int|
                (0 <= i < old(self).progression.levels@.len() && (#[trigger] old(self).progression.levels@[i]).level == old(self).config.difficulty_level && (forall|
                    j: int,
                |
                    0 <= j < i ==> (#[trigger] old(self).progression.levels@[j]).level != old(self).config.difficulty_level)) ==> ({
                    let lvl = old(self).progression.levels@[i];
                    let adv = advance_ok(
                        lvl,
                        old(self).correct_answers,
                        old(self).total_answers,
                        sum_times(old(self).stats.response_times@),
                        old(self).stats.response_times@.len() as int,
                    );
                    &&& r.evaluated
                    &&& r.advanced == adv
                    &&& (!adv ==> final(self).config == old(self).config && final(self).practice_queue@ == old(self).practice_queue@ && r.added_chars@.len() == 0
                        && r.new_level == old(self).config.difficulty_level
                        && !r.reached_word_level)
                    &&& (adv ==> ({
                        &&& final(self).config.difficulty_level == old(self).config.difficulty_level + 1
                        &&& r.new_level == final(self).config.difficulty_level
                        &&& r.reached_word_level == (final(self).config.difficulty_level
                            >= WORD_LEVEL_ORDINAL)
                        &&& final(self).is_word_level == (final(self).config.difficulty_level
                            >= WORD_LEVEL_ORDINAL)
                        &&& well_seeded(
                            final(self).practice_queue@,
                            final(self).config,
                            final(self).progression,
                            final(self).is_word_level,
                        )
                        &&& forall|c: char|
                            final(self).config.known_chars@.contains(c) <==> (old(self).config.known_chars@.contains(c) || lvl.chars_to_learn@.contains(c)
                                || in_level_chars(
                                old(self).progression,
                                (old(self).config.difficulty_level + 1) as u8,
                                c,
                            ))
                    }))
                }),
    {
        if self.is_word_level {
            let r = ProgressionReport {
                evaluated: false,
                advanced: false,
                new_level: self.config.difficulty_level,
                reached_word_level: false,
                added_chars: Vec::new(),
            };
            proof {
                assert(self.config.known_chars@ =~= old(self).config.known_chars@
                    + r.added_chars@);
            }
            return r;
        }
        let found = self.progression.find_level(self.config.difficulty_level);
        match found {
            None => {
                let r = ProgressionReport {
                    evaluated: false,
                    advanced: false,
                    new_level: self.config.difficulty_level,
                    reached_word_level: false,
                    added_chars: Vec::new(),
                };
                proof {
                    assert(self.config.known_chars@ =~= old(self).config.known_chars@
                        + r.added_chars@);
                }
                r
            },
            Some(li) => {
                proof {
                    lemma_first_match_unique(
                        self.progression.levels@,
                        self.config.difficulty_level,
                        li as int,
                    );
                }
                let sum = self.stats.response_times.sum_ms();
                let samples = self.stats.response_times.len();
                let adv = self.progression.levels[li].evaluate_advancement(
                    self.correct_answers,
                    self.total_answers,
                    sum,
                    samples,
                );
                if !adv {
                    let r = ProgressionReport {
                        evaluated: true,
                        advanced: false,
                        new_level: self.config.difficulty_level,
                        reached_word_level: false,
                        added_chars: Vec::new(),
                    };
                    proof {
                        assert(self.config.known_chars@ =~= old(self).config.known_chars@
                            + r.added_chars@);
                    }
                    r
                } else {
                    let cur_level = self.config.difficulty_level;
                    let new_level = cur_level + 1;
                    self.config.difficulty_level = new_level;
                    let ghost known0 = self.config.known_chars@;
                    let base_len = self.config.known_chars.len();
                    let cur_chars = &self.progression.levels[li].chars_to_learn;
                    let cm = cur_chars.len();
                    proof {
                        assert(cur_chars@.take(0) =~= Seq::<char>::empty());
                        assert(self.config.known_chars@ == extend_new(known0, cur_chars@.take(0)));
                    }
                    for k in 0..cm
                        invariant
                            cm == cur_chars@.len(),
                            cur_chars == &self.progression.levels@[li as int].chars_to_learn,
                            li < self.progression.levels@.len(),
                            self.stats == old(self).stats,
                            self.progression == old(self).progression,
                            self.practice_queue@ == old(self).practice_queue@,
                            self.correct_answers == old(self).correct_answers,
                            self.total_answers == old(self).total_answers,
                            self.config.session_duration == old(self).config.session_duration,
                            self.config.difficulty_level == new_level,
                            self.is_word_level == old(self).is_word_level,
                            self.practiced_chars@ == old(self).practiced_chars@,
                            self.practiced_words@ == old(self).practiced_words@,
                            self.config.known_chars@ == extend_new(
                                known0,
                                cur_chars@.take(k as int),
                            ),
                    {
                        proof {
                            assert(cur_chars@.take(k + 1).drop_last() =~= cur_chars@.take(
                                k as int,
                            ));
                            assert(cur_chars@.take(k + 1).last() == cur_chars@[k as int]);
                        }
                        let c = cur_chars[k];
                        if !contains_char(&self.config.known_chars, c) {
                            self.config.known_chars.push(c);
                        }
                    }
                    proof {
                        assert(cur_chars@.take(cm as int) =~= cur_chars@);
                    }
                    let ghost cur_seq = self.progression.levels@[li as int].chars_to_learn@;
                    let ghost known1 = self.config.known_chars@;
                    proof {
                        lemma_extend_new_props(known0, cur_seq);
                        assert(known1 == extend_new(known0, cur_seq));
                    }
                    let next_found = self.progression.find_level(new_level);
                    match next_found {
                        Some(ni) => {
                            proof {
                                lemma_first_match_unique(
                                    self.progression.levels@,
                                    new_level,
                                    ni as int,
                                );
                            }
                            let next_chars = &self.progression.levels[ni].chars_to_learn;
                            let nm = next_chars.len();
                            proof {
                                assert(next_chars@.take(0) =~= Seq::<char>::empty());
                            }
                            for k in 0..nm
                                invariant
                                    nm == next_chars@.len(),
                                    next_chars == &self.progression.levels@[
                                        ni as int].chars_to_learn,
                                    ni < self.progression.levels@.len(),
                                    self.stats == old(self).stats,
                                    self.progression == old(self).progression,
                                    self.practice_queue@ == old(self).practice_queue@,
                                    self.correct_answers == old(self).correct_answers,
                                    self.total_answers == old(self).total_answers,
                                    self.config.session_duration == old(self).config.session_duration,
                                    self.config.difficulty_level == new_level,
                                    self.is_word_level == old(self).is_word_level,
                                    self.practiced_chars@ == old(self).practiced_chars@,
                                    self.practiced_words@ == old(self).practiced_words@,
                                    self.config.known_chars@ == extend_new(
                                        known1,
                                        next_chars@.take(k as int),
                                    ),
                            {
                                proof {
                                    assert(next_chars@.take(k + 1).drop_last() =~= next_chars@.take(
                                        k as int,
                                    ));
                                    assert(next_chars@.take(k + 1).last() == next_chars@[
                                        k as int]);
                                }
                                let c = next_chars[k];
                                if !contains_char(&self.config.known_chars, c) {
                                    self.config.known_chars.push(c);
                                }
                            }
                            proof {
                                assert(next_chars@.take(nm as int) =~= next_chars@);
                                lemma_extend_new_props(
                                    known1,
                                    self.progression.levels@[ni as int].chars_to_learn@,
                                );
                            }
                        },
                        None => {},
                    }
                    let ghost known2 = self.config.known_chars@;
                    proof {
                        assert(known2.take(base_len as int) =~= known0) by {
                            assert(known1.take(base_len as int) == known0);
                            if next_found is Some {
                                let ni = next_found->0;
                                let nseq = self.progression.levels@[
                                    ni as int].chars_to_learn@;
                                assert(known2.take(known1.len() as int) == known1);
                                assert forall|x: int| 0 <= x < base_len implies known2[x]
                                    == known0[x] by {
                                    assert(known2.take(known1.len() as int)[x] == known1[x]);
                                    assert(known1.take(base_len as int)[x] == known0[x]);
                                }
                            }
                        }
                    }
                    let mut added: Vec<char> = Vec::new();
                    let kn2 = self.config.known_chars.len();
                    proof {
                        assert(added@ =~= known2.subrange(base_len as int, base_len as int));
                    }
                    for i in base_len..kn2
                        invariant
                            base_len <= kn2,
                            kn2 == self.config.known_chars@.len(),
                            self.config.known_chars@ == known2,
                            self.stats == old(self).stats,
                            self.progression == old(self).progression,
                            self.practice_queue@ == old(self).practice_queue@,
                            self.correct_answers == old(self).correct_answers,
                            self.total_answers == old(self).total_answers,
                            self.config.session_duration == old(self).config.session_duration,
                            self.config.difficulty_level == new_level,
                            self.is_word_level == old(self).is_word_level,
                            self.practiced_chars@ == old(self).practiced_chars@,
                            self.practiced_words@ == old(self).practiced_words@,
                            added@ == known2.subrange(base_len as int, i as int),
                    {
                        added.push(self.config.known_chars[i]);
                        proof {
                            assert(added@ =~= known2.subrange(base_len as int, i + 1));
                        }
                    }
                    proof {
                        assert(added@ == known2.subrange(base_len as int, kn2 as int));
                        assert(self.config.known_chars@ =~= known0 + added@);
                    }
                    let reached_word_level = new_level >= WORD_LEVEL_ORDINAL;
                    self.is_word_level = reached_word_level;
                    proof {
                        assert(self.wf());
                        assert forall|c: char|
                            self.config.known_chars@.contains(c) <==> (known0.contains(c)
                                || cur_seq.contains(c) || in_level_chars(
                                self.progression,
                                new_level,
                                c,
                            )) by {
                            match next_found {
                                Some(ni) => {
                                    let nseq = self.progression.levels@[
                                        ni as int].chars_to_learn@;
                                    assert(known2.contains(c) <==> (known1.contains(c)
                                        || nseq.contains(c)));
                                    assert(known1.contains(c) <==> (known0.contains(c)
                                        || cur_seq.contains(c)));
                                    assert(in_level_chars(self.progression, new_level, c)
                                        <==> nseq.contains(c)) by {
                                        if nseq.contains(c) {
                                            assert(in_level_chars(
                                                self.progression,
                                                new_level,
                                                c,
                                            ));
                                        }
                                        if in_level_chars(self.progression, new_level, c) {
                                            let x = choose|x: int|
                                                0 <= x < self.progression.levels@.len() && (
                                                #[trigger] self.progression.levels@[x]).level
                                                    == new_level && (forall|j: int|
                                                    0 <= j < x ==> (
                                                    #[trigger] self.progression.levels@[j]).level
                                                        != new_level)
                                                    && self.progression.levels@[
                                                x].chars_to_learn@.contains(c);
                                            lemma_first_match_unique(
                                                self.progression.levels@,
                                                new_level,
                                                x,
                                            );
                                        }
                                    }
                                },
                                None => {
                                    assert(known2 == known1);
                                    assert(known1.contains(c) <==> (known0.contains(c)
                                        || cur_seq.contains(c)));
                                    assert(!in_level_chars(self.progression, new_level, c))
                                        by {
                                        if in_level_chars(self.progression, new_level, c) {
                                            let x = choose|x: int|
                                                0 <= x < self.progression.levels@.len() && (
                                                #[trigger] self.progression.levels@[x]).level
                                                    == new_level && (forall|j: int|
                                                    0 <= j < x ==> (
                                                    #[trigger] self.progression.levels@[j]).level
                                                        != new_level)
                                                    && self.progression.levels@[
                                                x].chars_to_learn@.contains(c);
                                        }
                                    }
                                },
                            }
                        }
                    }
                    self.generate_practice_queue();
                    let r = ProgressionReport {
                        evaluated: true,
                        advanced: true,
                        new_level,
                        reached_word_level,
                        added_chars: added,
                    };
                    r
                }
            },
        }
    }

    /// Whether the session budget has run out: only gated symbol
    /// practice is time-limited, and the budget is given in minutes.
    pub fn time_expired(&self, elapsed_secs: u64) -> (r: bool)
        ensures
            r == (!self.is_word_level && elapsed_secs > self.config.session_duration as int * 60),
    {
        !self.is_word_level && elapsed_secs > (self.config.session_duration as u64) * 60
    }
}

} // verus!
