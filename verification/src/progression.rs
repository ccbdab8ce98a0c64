//! The progression system: the ordered table of difficulty tiers with
//! their unlock gates, and the advancement decision.
//!
//! A tier is passed only when session accuracy reaches the tier's
//! requirement *and* the average response time is within the tier's
//! speed requirement — both bounds inclusive.

use vstd::prelude::*;
use crate::encoder::normalize_spec;
use crate::encoder::normalize_answer;
use crate::ratio::{accuracy_num, accuracy_den};
use vstd::arithmetic::mul::lemma_mul_upper_bound;

verus! {

/// One difficulty tier: its ordinal, the symbols it introduces, and
/// its unlock gate.  Accuracy is required as a percentage (an exact
/// rational bound), speed as a maximum average response time in
/// milliseconds.
#[derive(Debug)]
pub struct ProgressionLevel {
    pub level: u8,
    pub chars_to_learn: Vec<char>,
    pub speed_requirement_ms: u32,
    pub accuracy_requirement_pct: u32,
}

impl ProgressionLevel {
    /// A meaningful accuracy requirement is a percentage.
    pub open spec fn wf(self) -> bool {
        self.accuracy_requirement_pct <= 100
    }
}

/// The session accuracy `correct / total` (zero for an empty session)
/// reaches `pct` percent, bound inclusive.
pub open spec fn accuracy_meets(correct: u32, total: u32, pct: u32) -> bool {
    accuracy_num(correct, total) * 100 >= pct * accuracy_den(total)
}

/// The average of the stored samples (zero when there are none) is at
/// most `req_ms` milliseconds, bound inclusive.
pub open spec fn speed_meets(sum_ms: int, samples: int, req_ms: u32) -> bool {
    samples == 0 || sum_ms <= req_ms * samples
}

/// The advancement predicate: exactly the conjunction of the accuracy
/// gate and the speed gate.
pub open spec fn advance_ok(
    level: ProgressionLevel,
    correct: u32,
    total: u32,
    sum_ms: int,
    samples: int,
) -> bool {
    accuracy_meets(correct, total, level.accuracy_requirement_pct) && speed_meets(
        sum_ms,
        samples,
        level.speed_requirement_ms,
    )
}

/// Law: advancement is exactly the conjunction of the two gates.  A
/// session meeting only one of them never advances, and a session
/// whose accuracy equals the requirement exactly (with the speed gate
/// met) does advance: both bounds are inclusive.
pub proof fn lemma_advancement_is_exact_conjunction(
    level: ProgressionLevel,
    correct: u32,
    total: u32,
    sum_ms: int,
    samples: int,
)
    ensures
        advance_ok(level, correct, total, sum_ms, samples) <==> (accuracy_meets(
            correct,
            total,
            level.accuracy_requirement_pct,
        ) && speed_meets(sum_ms, samples, level.speed_requirement_ms)),
        !accuracy_meets(correct, total, level.accuracy_requirement_pct) ==> !advance_ok(
            level,
            correct,
            total,
            sum_ms,
            samples,
        ),
        !speed_meets(sum_ms, samples, level.speed_requirement_ms) ==> !advance_ok(
            level,
            correct,
            total,
            sum_ms,
            samples,
        ),
        accuracy_num(correct, total) * 100 == level.accuracy_requirement_pct * accuracy_den(total)
            && speed_meets(sum_ms, samples, level.speed_requirement_ms) ==> advance_ok(
            level,
            correct,
            total,
            sum_ms,
            samples,
        ),
{
}

impl ProgressionLevel {
    /// Decides advancement for this tier from the session's counters
    /// and the stored response-time samples: accuracy `correct/total`
    /// must reach the accuracy requirement and the mean sample must
    /// not exceed the speed requirement.
    pub fn evaluate_advancement(&self, correct: u32, total: u32, sum_ms: u128, samples: usize) -> (r:
        bool)
        requires
            self.wf(),
            correct <= total,
        ensures
            r == advance_ok(*self, correct, total, sum_ms as int, samples as int),
    {
        proof {
            lemma_mul_upper_bound(
                self.accuracy_requirement_pct as int,
                100int,
                total as int,
                u32::MAX as int,
            );
            lemma_mul_upper_bound(
                self.speed_requirement_ms as int,
                u32::MAX as int,
                samples as int,
                u64::MAX as int,
            );
        }
        let acc_ok = if total == 0 {
            self.accuracy_requirement_pct == 0
        } else {
            (correct as u64) * 100 >= (self.accuracy_requirement_pct as u64) * (total as u64)
        };
        let speed_ok = samples == 0 || sum_ms <= (self.speed_requirement_ms as u128) * (
        samples as u128);
        acc_ok && speed_ok
    }
}

/// The views of a word list.
pub open spec fn word_views(s: Seq<String>) -> Seq<Seq<char>> {
    s.map_values(|w: String| w@)
}

/// Whether the list contains a word with the same characters.
pub fn contains_word(v: &Vec<String>, w: &String) -> (r: bool)
    ensures
        r == word_views(v@).contains(w@),
{
    let n = v.len();
    for i in 0..n
        invariant
            n == v@.len(),
            forall|j: int| 0 <= j < i ==> word_views(v@)[j] != w@,
    {
        let hit = v[i] == *w;
        proof {
            assert(word_views(v@)[i as int] == v@[i as int]@);
        }
        if hit {
            proof {
                assert(word_views(v@).contains(w@));
            }
            return true;
        }
    }
    proof {
        assert(forall|j: int| 0 <= j < v@.len() ==> #[trigger] word_views(v@)[j] != w@);
    }
    false
}

/// Appending an element that is not yet present keeps a sequence
/// duplicate-free.
pub proof fn lemma_no_dup_push<A>(s: Seq<A>, x: A)
    requires
        s.no_duplicates(),
        !s.contains(x),
    ensures
        s.push(x).no_duplicates(),
{
    let p = s.push(x);
    assert forall|i: int, j: int|
        0 <= i < p.len() && 0 <= j < p.len() && i != j implies p[i] != p[j] by {
        if i < p.len() - 1 && j < p.len() - 1 {
            assert(p[i] == s[i]);
            assert(p[j] == s[j]);
        } else if i == p.len() - 1 {
            assert(p[j] == s[j]);
            assert(s.contains(s[j]));
        } else {
            assert(p[i] == s[i]);
            assert(s.contains(s[i]));
        }
    }
}

/// A raw word list as it is cleaned for practice: each entry trimmed
/// and uppercased, empty results dropped, and later repetitions of a
/// word removed, keeping first occurrences in order.  Collapsing
/// repetitions goes beyond plain line filtering: it restores the word
/// list's invariant, so a session's word draw holds no duplicates even
/// when the stored file repeats a word.
pub open spec fn sanitize_spec(s: Seq<Seq<char>>) -> Seq<Seq<char>>
    decreases s.len(),
{
    if s.len() == 0 {
        Seq::empty()
    } else {
        let rest = sanitize_spec(s.drop_last());
        let nw = normalize_spec(s.last());
        if nw.len() == 0 || rest.contains(nw) {
            rest
        } else {
            rest.push(nw)
        }
    }
}

/// The cleaned word list is duplicate-free and holds no empty words.
pub proof fn lemma_sanitize_spec_props(s: Seq<Seq<char>>)
    ensures
        sanitize_spec(s).no_duplicates(),
        forall|i: int| 0 <= i < sanitize_spec(s).len() ==> #[trigger] sanitize_spec(s)[i].len()
            >= 1,
    decreases s.len(),
{
    if s.len() == 0 {
    } else {
        let pre = s.drop_last();
        lemma_sanitize_spec_props(pre);
        let rest = sanitize_spec(pre);
        let nw = normalize_spec(s.last());
        if nw.len() == 0 || rest.contains(nw) {
        } else {
            lemma_no_dup_push(rest, nw);
            assert forall|i: int|
                0 <= i < sanitize_spec(s).len() implies #[trigger] sanitize_spec(s)[i].len()
                >= 1 by {
                if i < rest.len() {
                    assert(sanitize_spec(s)[i] == rest[i]);
                }
            }
        }
    }
}

/// Cleans a raw word list: trims and uppercases each word, drops the
/// ones that come out empty, and removes repeated words, keeping first
/// occurrences in order.  Dropping repeats restores the list invariant
/// the word-practice draw relies on: no duplicates within one seed.
pub fn sanitize_word_list(words: &Vec<String>) -> (r: Vec<String>)
    ensures
        word_views(r@) == sanitize_spec(word_views(words@)),
        word_views(r@).no_duplicates(),
        forall|i: int| 0 <= i < r@.len() ==> #[trigger] r@[i]@.len() >= 1,
{
    let n = words.len();
    let mut out: Vec<String> = Vec::new();
    proof {
        assert(word_views(words@).take(0) =~= Seq::<Seq<char>>::empty());
        assert(word_views(out@) =~= Seq::<Seq<char>>::empty());
    }
    for j in 0..n
        invariant
            n == words@.len(),
            word_views(out@) == sanitize_spec(word_views(words@).take(j as int)),
    {
        proof {
            assert(word_views(words@).take(j + 1).drop_last() =~= word_views(words@).take(
                j as int,
            ));
            assert(word_views(words@).take(j + 1).last() == word_views(words@)[j as int]);
            assert(word_views(words@)[j as int] == words@[j as int]@);
        }
        let nw = normalize_answer(words[j].as_str());
        let keep = nw.as_str().unicode_len() >= 1 && !contains_word(&out, &nw);
        if keep {
            let ghost before = out@;
            out.push(nw);
            proof {
                assert(word_views(out@) =~= word_views(before).push(
                    normalize_spec(words@[j as int]@),
                ));
            }
        }
    }
    proof {
        assert(word_views(words@).take(n as int) =~= word_views(words@));
        lemma_sanitize_spec_props(word_views(words@));
        assert(forall|i: int|
            0 <= i < out@.len() ==> word_views(out@)[i] == (#[trigger] out@[i])@);
    }
    out
}

/// The static tier table and the word list for terminal word practice.
#[derive(Debug)]
pub struct ProgressionSystem {
    pub levels: Vec<ProgressionLevel>,
    pub common_words: Vec<String>,
}

/// The symbols each standard tier introduces.
pub open spec fn standard_chars(ord: int) -> Seq<char> {
    if ord == 1 {
        seq!['E', 'T']
    } else if ord == 2 {
        seq!['A', 'I', 'M', 'N']
    } else if ord == 3 {
        seq!['D', 'G', 'K', 'O']
    } else if ord == 4 {
        seq!['R', 'S', 'U', 'W']
    } else if ord == 5 {
        seq!['B', 'C', 'F', 'H', 'J', 'L']
    } else if ord == 6 {
        seq!['P', 'Q', 'V', 'X', 'Y', 'Z']
    } else if ord == 7 {
        seq!['0', '1', '2', '3', '4']
    } else if ord == 8 {
        seq!['5', '6', '7', '8', '9']
    } else {
        Seq::empty()
    }
}

/// The speed requirement of each standard tier, in milliseconds.
pub open spec fn standard_speed_ms(ord: int) -> u32 {
    if ord == 1 {
        5000
    } else if ord == 2 {
        4000
    } else if ord == 3 || ord == 4 {
        3500
    } else if ord == 5 || ord == 6 {
        3000
    } else {
        2500
    }
}

/// The accuracy requirement of each standard tier, in percent.
pub open spec fn standard_acc_pct(ord: int) -> u32 {
    if ord == 1 {
        80
    } else if ord == 2 {
        85
    } else if ord == 3 || ord == 4 {
        90
    } else {
        95
    }
}

/// The fixed eight-tier table the tutor ships with.
pub open spec fn is_standard_table(levels: Seq<ProgressionLevel>) -> bool {
    &&& levels.len() == 8
    &&& forall|i: int|
        0 <= i < 8 ==> {
            &&& (#[trigger] levels[i]).level == i + 1
            &&& levels[i].chars_to_learn@ == standard_chars(i + 1)
            &&& levels[i].speed_requirement_ms == standard_speed_ms(i + 1)
            &&& levels[i].accuracy_requirement_pct == standard_acc_pct(i + 1)
        }
}

impl ProgressionSystem {
    /// Every tier's gate is a percentage; the word list is clean:
    /// no duplicates, no empty words.
    pub open spec fn wf(self) -> bool {
        &&& forall|i: int| 0 <= i < self.levels@.len() ==> (#[trigger] self.levels@[i]).wf()
        &&& word_views(self.common_words@).no_duplicates()
        &&& forall|i: int| 0 <= i < self.common_words@.len() ==> (#[trigger] self.common_words@[i])@.len() >= 1
    }

    /// Builds the standard eight-tier table and the built-in fallback
    /// word list for terminal word practice.
    pub fn new() -> (r: ProgressionSystem)
        ensures
            is_standard_table(r.levels@),
            word_views(r.common_words@) == sanitize_spec(builtin_word_views()),
            r.wf(),
    {
        let mut levels: Vec<ProgressionLevel> = Vec::new();
        levels.push(
            ProgressionLevel {
                level: 1,
                chars_to_learn: chars2('E', 'T'),
                speed_requirement_ms: 5000,
                accuracy_requirement_pct: 80,
            },
        );
        levels.push(
            ProgressionLevel {
                level: 2,
                chars_to_learn: chars4('A', 'I', 'M', 'N'),
                speed_requirement_ms: 4000,
                accuracy_requirement_pct: 85,
            },
        );
        levels.push(
            ProgressionLevel {
                level: 3,
                chars_to_learn: chars4('D', 'G', 'K', 'O'),
                speed_requirement_ms: 3500,
                accuracy_requirement_pct: 90,
            },
        );
        levels.push(
            ProgressionLevel {
                level: 4,
                chars_to_learn: chars4('R', 'S', 'U', 'W'),
                speed_requirement_ms: 3500,
                accuracy_requirement_pct: 90,
            },
        );
        levels.push(
            ProgressionLevel {
                level: 5,
                chars_to_learn: chars6('B', 'C', 'F', 'H', 'J', 'L'),
                speed_requirement_ms: 3000,
                accuracy_requirement_pct: 95,
            },
        );
        levels.push(
            ProgressionLevel {
                level: 6,
                chars_to_learn: chars6('P', 'Q', 'V', 'X', 'Y', 'Z'),
                speed_requirement_ms: 3000,
                accuracy_requirement_pct: 95,
            },
        );
        levels.push(
            ProgressionLevel {
                level: 7,
                chars_to_learn: chars5('0', '1', '2', '3', '4'),
                speed_requirement_ms: 2500,
                accuracy_requirement_pct: 95,
            },
        );
        levels.push(
            ProgressionLevel {
                level: 8,
                chars_to_learn: chars5('5', '6', '7', '8', '9'),
                speed_requirement_ms: 2500,
                accuracy_requirement_pct: 95,
            },
        );
        let raw = builtin_words();
        let common_words = sanitize_word_list(&raw);
        ProgressionSystem { levels, common_words }
    }

    /// First tier in the table with the given ordinal, if any.
    /// Ordinals past the table denote the terminal word-practice mode,
    /// which is a valid state, not an error.
    pub fn find_level(&self, ord: u8) -> (r: Option<usize>)
        ensures
            r matches Some(i) ==> i < self.levels@.len() && self.levels@[i as int].level == ord
                && forall|j: int| 0 <= j < i ==> (#[trigger] self.levels@[j]).level != ord,
            r is None ==> forall|j: int|
                0 <= j < self.levels@.len() ==> (#[trigger] self.levels@[j]).level != ord,
    {
        let n = self.levels.len();
        for i in 0..n
            invariant
                n == self.levels@.len(),
                forall|j: int| 0 <= j < i ==> (#[trigger] self.levels@[j]).level != ord,
        {
            if self.levels[i].level == ord {
                return Some(i);
            }
        }
        None
    }
}

/// A two-character list.
fn chars2(a: char, b: char) -> (r: Vec<char>)
    ensures
        r@ == seq![a, b],
{
    let mut v: Vec<char> = Vec::new();
    v.push(a);
    v.push(b);
    proof {
        assert(v@ =~= seq![a, b]);
    }
    v
}

/// A four-character list.
fn chars4(a: char, b: char, c: char, d: char) -> (r: Vec<char>)
    ensures
        r@ == seq![a, b, c, d],
{
    let mut v: Vec<char> = Vec::new();
    v.push(a);
    v.push(b);
    v.push(c);
    v.push(d);
    proof {
        assert(v@ =~= seq![a, b, c, d]);
    }
    v
}

/// A five-character list.
fn chars5(a: char, b: char, c: char, d: char, e: char) -> (r: Vec<char>)
    ensures
        r@ == seq![a, b, c, d, e],
{
    let mut v: Vec<char> = Vec::new();
    v.push(a);
    v.push(b);
    v.push(c);
    v.push(d);
    v.push(e);
    proof {
        assert(v@ =~= seq![a, b, c, d, e]);
    }
    v
}

/// A six-character list.
fn chars6(a: char, b: char, c: char, d: char, e: char, f: char) -> (r: Vec<char>)
    ensures
        r@ == seq![a, b, c, d, e, f],
{
    let mut v: Vec<char> = Vec::new();
    v.push(a);
    v.push(b);
    v.push(c);
    v.push(d);
    v.push(e);
    v.push(f);
    proof {
        assert(v@ =~= seq![a, b, c, d, e, f]);
    }
    v
}

/// The views of the built-in fallback word list, in order.
pub open spec fn builtin_word_views() -> Seq<Seq<char>> {
    seq![
        "THE"@,
        "BE"@,
        "TO"@,
        "OF"@,
        "AND"@,
        "A"@,
        "IN"@,
        "THAT"@,
        "HAVE"@,
        "I"@,
        "IT"@,
        "FOR"@,
        "NOT"@,
        "ON"@,
        "WITH"@,
        "HE"@,
        "AS"@,
        "YOU"@,
        "DO"@,
        "AT"@,
    ]
}

/// The built-in fallback word list, used when no word file is given.
pub fn builtin_words() -> (r: Vec<String>)
    ensures
        word_views(r@) == builtin_word_views(),
{
    let mut v: Vec<String> = Vec::new();
    v.push(String::from_str("THE"));
    v.push(String::from_str("BE"));
    v.push(String::from_str("TO"));
    v.push(String::from_str("OF"));
    v.push(String::from_str("AND"));
    v.push(String::from_str("A"));
    v.push(String::from_str("IN"));
    v.push(String::from_str("THAT"));
    v.push(String::from_str("HAVE"));
    v.push(String::from_str("I"));
    v.push(String::from_str("IT"));
    v.push(String::from_str("FOR"));
    v.push(String::from_str("NOT"));
    v.push(String::from_str("ON"));
    v.push(String::from_str("WITH"));
    v.push(String::from_str("HE"));
    v.push(String::from_str("AS"));
    v.push(String::from_str("YOU"));
    v.push(String::from_str("DO"));
    v.push(String::from_str("AT"));
    proof {
        assert(word_views(v@) =~= builtin_word_views());
    }
    v
}

} // verus!
