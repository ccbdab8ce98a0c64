//! The learner profile: current tier ordinal, the cumulative set of
//! known symbols, and the session time budget.  The profile is
//! persisted by the surrounding application; this module holds the
//! bare data with its invariant.

use vstd::prelude::*;

verus! {

/// The persisted learner profile.  `known_chars` is a mathematical
/// set carried as an ordered list without duplicates; it only ever
/// grows.
#[derive(Debug)]
pub struct AppConfig {
    /// Current tier ordinal; ordinals at or beyond the word-practice
    /// bound denote the terminal open-ended mode.
    pub difficulty_level: u8,
    /// Session time budget, in minutes.
    pub session_duration: u32,
    /// Symbols the learner already knows, without duplicates.
    pub known_chars: Vec<char>,
}

impl AppConfig {
    /// The profile invariant: the known-symbol list holds no
    /// duplicates, so it faithfully represents a set.
    pub open spec fn wf(self) -> bool {
        self.known_chars@.no_duplicates()
    }

    /// Name of the file the profile is stored under.
    pub fn config_path() -> (r: String)
        ensures
            r@ == "morse_config.toml"@,
    {
        String::from_str("morse_config.toml")
    }
}

impl Default for AppConfig {
    /// A fresh profile: first tier, one-minute budget, nothing known.
    fn default() -> (c: AppConfig)
        ensures
            c.wf(),
            c.difficulty_level == 1,
            c.session_duration == 1,
            c.known_chars@ == Seq::<char>::empty(),
    {
        AppConfig { difficulty_level: 1, session_duration: 1, known_chars: Vec::new() }
    }
}

/// Whether a character list contains the given character.
pub fn contains_char(v: &Vec<char>, c: char) -> (r: bool)
    ensures
        r == v@.contains(c),
{
    let n = v.len();
    for i in 0..n
        invariant
            n == v@.len(),
            forall|j: int| 0 <= j < i ==> v@[j] != c,
    {
        if v[i] == c {
            return true;
        }
    }
    false
}

/// The list with later repetitions of a character removed: each
/// character keeps its first occurrence only.
pub open spec fn dedup_spec(s: Seq<char>) -> Seq<char>
    decreases s.len(),
{
    if s.len() == 0 {
        Seq::empty()
    } else {
        let rest = dedup_spec(s.drop_last());
        if rest.contains(s.last()) {
            rest
        } else {
            rest.push(s.last())
        }
    }
}

/// Deduplication yields a duplicate-free list with exactly the
/// characters of the input.
pub proof fn lemma_dedup_spec_props(s: Seq<char>)
    ensures
        dedup_spec(s).no_duplicates(),
        forall|c: char| dedup_spec(s).contains(c) <==> s.contains(c),
    decreases s.len(),
{
    if s.len() == 0 {
        assert(dedup_spec(s) =~= Seq::<char>::empty());
        assert forall|c: char| dedup_spec(s).contains(c) <==> s.contains(c) by {
            if s.contains(c) {
                let i = choose|i: int| 0 <= i < s.len() && s[i] == c;
            }
        }
    } else {
        let pre = s.drop_last();
        lemma_dedup_spec_props(pre);
        let rest = dedup_spec(pre);
        assert forall|c: char| dedup_spec(s).contains(c) <==> s.contains(c) by {
            let ds = dedup_spec(s);
            if s.contains(c) {
                let i = choose|i: int| 0 <= i < s.len() && s[i] == c;
                if i < s.len() - 1 {
                    assert(pre[i] == c);
                    assert(pre.contains(c));
                    assert(rest.contains(c));
                    let k = choose|k: int| 0 <= k < rest.len() && rest[k] == c;
                    if rest.contains(s.last()) {
                        assert(ds.contains(c));
                    } else {
                        assert(ds[k] == c);
                        assert(ds.contains(c));
                    }
                } else {
                    assert(c == s.last());
                    if rest.contains(c) {
                        assert(ds.contains(c));
                    } else {
                        assert(ds[rest.len() as int] == c);
                        assert(ds.contains(c));
                    }
                }
            }
            if dedup_spec(s).contains(c) {
                if rest.contains(c) {
                    assert(pre.contains(c));
                    let j = choose|j: int| 0 <= j < pre.len() && pre[j] == c;
                    assert(s[j] == c);
                    assert(s.contains(c));
                } else {
                    assert(c == s.last());
                    assert(s.contains(s.last()));
                }
            }
            if pre.contains(c) {
                let j = choose|j: int| 0 <= j < pre.len() && pre[j] == c;
                assert(s[j] == c);
                assert(s.contains(c));
            }
        }
    }
}

/// Removes later repetitions from a character list, keeping first
/// occurrences and their order.  Used to restore the profile
/// invariant on data read back from storage.
pub fn dedup_chars(v: &Vec<char>) -> (r: Vec<char>)
    ensures
        r@ == dedup_spec(v@),
        r@.no_duplicates(),
        forall|c: char| r@.contains(c) <==> v@.contains(c),
{
    let n = v.len();
    let mut out: Vec<char> = Vec::new();
    assert(v@.take(0) =~= Seq::<char>::empty());
    for i in 0..n
        invariant
            n == v@.len(),
            out@ == dedup_spec(v@.take(i as int)),
    {
        proof {
            assert(v@.take(i + 1).drop_last() =~= v@.take(i as int));
            assert(v@.take(i + 1).last() == v@[i as int]);
        }
        if !contains_char(&out, v[i]) {
            out.push(v[i]);
        }
    }
    proof {
        assert(v@.take(n as int) =~= v@);
        lemma_dedup_spec_props(v@);
    }
    out
}

} // verus!
