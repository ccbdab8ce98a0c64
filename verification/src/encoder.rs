//! The code table and the item encoder: a fixed mapping from symbols
//! (letters and digits) to pulse strings over the alphabet `.` / `-`,
//! with case-insensitive lookup, plus the helpers that normalise a
//! learner's typed answer before comparison.

use vstd::prelude::*;

verus! {

/// Folds a lowercase ASCII letter to its uppercase form; every other
/// character is left unchanged.
pub open spec fn case_fold(c: char) -> char {
    match c {
        'a' => 'A',
        'b' => 'B',
        'c' => 'C',
        'd' => 'D',
        'e' => 'E',
        'f' => 'F',
        'g' => 'G',
        'h' => 'H',
        'i' => 'I',
        'j' => 'J',
        'k' => 'K',
        'l' => 'L',
        'm' => 'M',
        'n' => 'N',
        'o' => 'O',
        'p' => 'P',
        'q' => 'Q',
        'r' => 'R',
        's' => 'S',
        't' => 'T',
        'u' => 'U',
        'v' => 'V',
        'w' => 'W',
        'x' => 'X',
        'y' => 'Y',
        'z' => 'Z',
        _ => c,
    }
}

/// The code of a symbol, or the empty sequence if the character is not
/// in the supported alphabet.  Lookup is case-insensitive.
pub open spec fn morse_of(c: char) -> Seq<char> {
    match case_fold(c) {
        'A' => seq!['.', '-'],
        'B' => seq!['-', '.', '.', '.'],
        'C' => seq!['-', '.', '-', '.'],
        'D' => seq!['-', '.', '.'],
        'E' => seq!['.'],
        'F' => seq!['.', '.', '-', '.'],
        'G' => seq!['-', '-', '.'],
        'H' => seq!['.', '.', '.', '.'],
        'I' => seq!['.', '.'],
        'J' => seq!['.', '-', '-', '-'],
        'K' => seq!['-', '.', '-'],
        'L' => seq!['.', '-', '.', '.'],
        'M' => seq!['-', '-'],
        'N' => seq!['-', '.'],
        'O' => seq!['-', '-', '-'],
        'P' => seq!['.', '-', '-', '.'],
        'Q' => seq!['-', '-', '.', '-'],
        'R' => seq!['.', '-', '.'],
        'S' => seq!['.', '.', '.'],
        'T' => seq!['-'],
        'U' => seq!['.', '.', '-'],
        'V' => seq!['.', '.', '.', '-'],
        'W' => seq!['.', '-', '-'],
        'X' => seq!['-', '.', '.', '-'],
        'Y' => seq!['-', '.', '-', '-'],
        'Z' => seq!['-', '-', '.', '.'],
        '1' => seq!['.', '-', '-', '-', '-'],
        '2' => seq!['.', '.', '-', '-', '-'],
        '3' => seq!['.', '.', '.', '-', '-'],
        '4' => seq!['.', '.', '.', '.', '-'],
        '5' => seq!['.', '.', '.', '.', '.'],
        '6' => seq!['-', '.', '.', '.', '.'],
        '7' => seq!['-', '-', '.', '.', '.'],
        '8' => seq!['-', '-', '-', '.', '.'],
        '9' => seq!['-', '-', '-', '-', '.'],
        '0' => seq!['-', '-', '-', '-', '-'],
        _ => Seq::empty(),
    }
}

/// A character is encodable exactly when it is one of the 26 letters
/// (either case) or 10 digits of the table.
pub open spec fn mappable(c: char) -> bool {
    morse_of(c).len() > 0
}

/// Case folding is idempotent: folding an already folded character
/// changes nothing.
pub proof fn lemma_case_fold_idempotent(c: char)
    ensures
        case_fold(case_fold(c)) == case_fold(c),
{
}

/// Encoding is case-insensitive: a symbol and its case-folded form have
/// the same code.  Together with the fact that `morse_of` is a function
/// (equal inputs give equal outputs), this is the determinism and
/// case-insensitivity of the encoder, e.g. `morse_of('a') == morse_of('A')`.
pub proof fn lemma_encode_case_insensitive(c: char)
    ensures
        morse_of(c) == morse_of(case_fold(c)),
{
    lemma_case_fold_idempotent(c);
}

/// Uppercases a lowercase ASCII letter; anything else passes through.
pub fn to_upper_char(c: char) -> (r: char)
    ensures
        r == case_fold(c),
{
    match c {
        'a' => 'A',
        'b' => 'B',
        'c' => 'C',
        'd' => 'D',
        'e' => 'E',
        'f' => 'F',
        'g' => 'G',
        'h' => 'H',
        'i' => 'I',
        'j' => 'J',
        'k' => 'K',
        'l' => 'L',
        'm' => 'M',
        'n' => 'N',
        'o' => 'O',
        'p' => 'P',
        'q' => 'Q',
        'r' => 'R',
        's' => 'S',
        't' => 'T',
        'u' => 'U',
        'v' => 'V',
        'w' => 'W',
        'x' => 'X',
        'y' => 'Y',
        'z' => 'Z',
        _ => c,
    }
}

/// Looks a single symbol up in the code table.  Returns `None` exactly
/// when the character is outside the supported alphabet.
pub fn char_to_morse(c: char) -> (r: Option<&'static str>)
    ensures
        r is Some <==> mappable(c),
        r matches Some(code) ==> code@ == morse_of(c),
{
    let u = to_upper_char(c);
    match u {
        'A' => {
            proof { reveal_strlit(".-"); }
            Some(".-")
        },
        'B' => {
            proof { reveal_strlit("-..."); }
            Some("-...")
        },
        'C' => {
            proof { reveal_strlit("-.-."); }
            Some("-.-.")
        },
        'D' => {
            proof { reveal_strlit("-.."); }
            Some("-..")
        },
        'E' => {
            proof { reveal_strlit("."); }
            Some(".")
        },
        'F' => {
            proof { reveal_strlit("..-."); }
            Some("..-.")
        },
        'G' => {
            proof { reveal_strlit("--."); }
            Some("--.")
        },
        'H' => {
            proof { reveal_strlit("...."); }
            Some("....")
        },
        'I' => {
            proof { reveal_strlit(".."); }
            Some("..")
        },
        'J' => {
            proof { reveal_strlit(".---"); }
            Some(".---")
        },
        'K' => {
            proof { reveal_strlit("-.-"); }
            Some("-.-")
        },
        'L' => {
            proof { reveal_strlit(".-.."); }
            Some(".-..")
        },
        'M' => {
            proof { reveal_strlit("--"); }
            Some("--")
        },
        'N' => {
            proof { reveal_strlit("-."); }
            Some("-.")
        },
        'O' => {
            proof { reveal_strlit("---"); }
            Some("---")
        },
        'P' => {
            proof { reveal_strlit(".--."); }
            Some(".--.")
        },
        'Q' => {
            proof { reveal_strlit("--.-"); }
            Some("--.-")
        },
        'R' => {
            proof { reveal_strlit(".-."); }
            Some(".-.")
        },
        'S' => {
            proof { reveal_strlit("..."); }
            Some("...")
        },
        'T' => {
            proof { reveal_strlit("-"); }
            Some("-")
        },
        'U' => {
            proof { reveal_strlit("..-"); }
            Some("..-")
        },
        'V' => {
            proof { reveal_strlit("...-"); }
            Some("...-")
        },
        'W' => {
            proof { reveal_strlit(".--"); }
            Some(".--")
        },
        'X' => {
            proof { reveal_strlit("-..-"); }
            Some("-..-")
        },
        'Y' => {
            proof { reveal_strlit("-.--"); }
            Some("-.--")
        },
        'Z' => {
            proof { reveal_strlit("--.."); }
            Some("--..")
        },
        '1' => {
            proof { reveal_strlit(".----"); }
            Some(".----")
        },
        '2' => {
            proof { reveal_strlit("..---"); }
            Some("..---")
        },
        '3' => {
            proof { reveal_strlit("...--"); }
            Some("...--")
        },
        '4' => {
            proof { reveal_strlit("....-"); }
            Some("....-")
        },
        '5' => {
            proof { reveal_strlit("....."); }
            Some(".....")
        },
        '6' => {
            proof { reveal_strlit("-...."); }
            Some("-....")
        },
        '7' => {
            proof { reveal_strlit("--..."); }
            Some("--...")
        },
        '8' => {
            proof { reveal_strlit("---.."); }
            Some("---..")
        },
        '9' => {
            proof { reveal_strlit("----."); }
            Some("----.")
        },
        '0' => {
            proof { reveal_strlit("-----"); }
            Some("-----")
        },
        _ => None,
    }
}

/// The codes of a word's encodable symbols, in order.  Symbols outside
/// the alphabet contribute nothing (they are silently skipped).
pub open spec fn codes_of(w: Seq<char>) -> Seq<Seq<char>>
    decreases w.len(),
{
    if w.len() == 0 {
        Seq::empty()
    } else {
        let rest = codes_of(w.drop_last());
        if mappable(w.last()) {
            rest.push(morse_of(w.last()))
        } else {
            rest
        }
    }
}

/// Joins a list of codes with single spaces between them.
pub open spec fn join_codes(cs: Seq<Seq<char>>) -> Seq<char>
    decreases cs.len(),
{
    if cs.len() == 0 {
        Seq::empty()
    } else if cs.len() == 1 {
        cs[0]
    } else {
        join_codes(cs.drop_last()) + seq![' '] + cs.last()
    }
}

/// The code of a whole word: the space-joined codes of its encodable
/// symbols, in order.
pub open spec fn encode_word_spec(w: Seq<char>) -> Seq<char> {
    join_codes(codes_of(w))
}

/// A word's code is the space-joined sequence of its constituent
/// symbols' codes, in order: the code list has one entry per encodable
/// symbol, each entry is that symbol's own code, and encoding is
/// case-insensitive symbol by symbol.
pub proof fn lemma_word_code_joins_symbol_codes(w: Seq<char>)
    ensures
        encode_word_spec(w) == join_codes(codes_of(w)),
        codes_of(w) == w.filter(|c: char| mappable(c)).map_values(|c: char| morse_of(c)),
        codes_of(w.map_values(|c: char| case_fold(c))) == codes_of(w),
    decreases w.len(),
{
    reveal(Seq::filter);
    if w.len() == 0 {
        assert(w.filter(|c: char| mappable(c)).map_values(|c: char| morse_of(c)) =~= Seq::empty());
        assert(w.map_values(|c: char| case_fold(c)) =~= Seq::<char>::empty());
    } else {
        let prefix = w.drop_last();
        lemma_word_code_joins_symbol_codes(prefix);
        assert(w.filter(|c: char| mappable(c)) == prefix.filter(|c: char| mappable(c)).push(
            w.last(),
        ) || w.filter(|c: char| mappable(c)) == prefix.filter(|c: char| mappable(c)));
        assert(w.filter(|c: char| mappable(c)).map_values(|c: char| morse_of(c)) =~= codes_of(w));
        let folded = w.map_values(|c: char| case_fold(c));
        assert(folded.drop_last() =~= prefix.map_values(|c: char| case_fold(c)));
        assert(folded.last() == case_fold(w.last()));
        lemma_encode_case_insensitive(w.last());
        assert(codes_of(folded) == codes_of(w));
    }
}

/// Encodes a word by table lookup and space-joined concatenation.
/// Symbols outside the alphabet are silently skipped.
pub fn encode_word(word: &str) -> (r: String)
    ensures
        r@ == encode_word_spec(word@),
{
    let n = word.unicode_len();
    let mut out = String::new();
    let mut first = true;
    assert(word@.take(0) =~= Seq::empty());
    for i in 0..n
        invariant
            n == word@.len(),
            out@ == join_codes(codes_of(word@.take(i as int))),
            first <==> codes_of(word@.take(i as int)).len() == 0,
    {
        let c = word.get_char(i);
        proof {
            assert(word@.take(i + 1).drop_last() =~= word@.take(i as int));
            assert(word@.take(i + 1).last() == word@[i as int]);
        }
        match char_to_morse(c) {
            Some(code) => {
                if !first {
                    push_char(&mut out, ' ');
                }
                out.append(code);
                first = false;
                proof {
                    let cs = codes_of(word@.take(i + 1));
                    assert(cs == codes_of(word@.take(i as int)).push(morse_of(word@[i as int])));
                    if cs.len() == 1 {
                        assert(out@ =~= join_codes(cs));
                    } else {
                        assert(cs.drop_last() =~= codes_of(word@.take(i as int)));
                        assert(out@ =~= join_codes(cs));
                    }
                }
            },
            None => {
                proof {
                    assert(codes_of(word@.take(i + 1)) == codes_of(word@.take(i as int)));
                }
            },
        }
    }
    proof {
        assert(word@.take(n as int) =~= word@);
    }
    out
}

/// Relies on String::push: appends exactly one character at the end of
/// the string.
#[verifier::external_body]
fn push_char(s: &mut String, c: char)
    ensures
        final(s)@ == old(s)@.push(c),
{
    s.push(c);
}

/// A one-character string.
pub fn char_string(c: char) -> (r: String)
    ensures
        r@ == seq![c],
{
    let mut s = String::new();
    push_char(&mut s, c);
    proof {
        assert(s@ =~= seq![c]);
    }
    s
}

/// One of the whitespace characters an answer is trimmed of: the
/// characters with the Unicode `White_Space` property.
pub open spec fn is_space(c: char) -> bool {
    c == '\u{0009}' || c == '\u{000A}' || c == '\u{000B}' || c == '\u{000C}' || c == '\u{000D}'
        || c == '\u{0020}' || c == '\u{0085}' || c == '\u{00A0}' || c == '\u{1680}' || ('\u{2000}'
        <= c && c <= '\u{200A}') || c == '\u{2028}' || c == '\u{2029}' || c == '\u{202F}' || c
        == '\u{205F}' || c == '\u{3000}'
}

/// The input without its leading whitespace.
pub open spec fn drop_leading(s: Seq<char>) -> Seq<char>
    decreases s.len(),
{
    if s.len() > 0 && is_space(s.first()) {
        drop_leading(s.drop_first())
    } else {
        s
    }
}

/// The input without its trailing whitespace.
pub open spec fn drop_trailing(s: Seq<char>) -> Seq<char>
    decreases s.len(),
{
    if s.len() > 0 && is_space(s.last()) {
        drop_trailing(s.drop_last())
    } else {
        s
    }
}

/// A typed answer as it is compared: Unicode whitespace trimmed off
/// both ends, then every character case-folded to uppercase.  Folding
/// covers the ASCII letters; code answers hold only dots, dashes and
/// spaces, so nothing else needs a case.
pub open spec fn normalize_spec(s: Seq<char>) -> Seq<char> {
    drop_trailing(drop_leading(s)).map_values(|c: char| case_fold(c))
}

/// Trims whitespace from both ends of a typed line and uppercases what
/// remains, the form in which answers are compared against codes.
pub fn normalize_answer(s: &str) -> (r: String)
    ensures
        r@ == normalize_spec(s@),
{
    let n = s.unicode_len();
    let mut lo: usize = 0;
    assert(s@.skip(0) =~= s@);
    while lo < n && is_space_char(s.get_char(lo))
        invariant
            n == s@.len(),
            lo <= n,
            drop_leading(s@) == drop_leading(s@.skip(lo as int)),
        decreases n - lo,
    {
        proof {
            assert(s@.skip(lo as int).drop_first() =~= s@.skip(lo + 1));
        }
        lo = lo + 1;
    }
    proof {
        if lo < n {
            assert(!is_space(s@.skip(lo as int).first()));
        }
        assert(drop_leading(s@) == s@.skip(lo as int));
    }
    let t = Ghost(s@.skip(lo as int));
    let mut hi: usize = n;
    assert(t@.take(n - lo) =~= t@);
    while hi > lo && is_space_char(s.get_char(hi - 1))
        invariant
            n == s@.len(),
            lo <= hi <= n,
            t@ == s@.skip(lo as int),
            drop_leading(s@) == t@,
            drop_trailing(t@) == drop_trailing(t@.take(hi - lo)),
        decreases hi,
    {
        proof {
            assert(t@.take(hi - lo).last() == s@[hi - 1]);
            assert(t@.take(hi - lo).drop_last() =~= t@.take(hi - 1 - lo));
        }
        hi = hi - 1;
    }
    proof {
        if hi > lo {
            assert(t@.take(hi - lo).last() == s@[hi - 1]);
            assert(!is_space(t@.take(hi - lo).last()));
        }
        assert(drop_trailing(t@) == t@.take(hi - lo));
    }
    let mut out = String::new();
    let trimmed = Ghost(drop_trailing(drop_leading(s@)));
    assert(trimmed@ =~= s@.subrange(lo as int, hi as int));
    assert(out@ =~= trimmed@.map_values(|c: char| case_fold(c)).take(0));
    for k in lo..hi
        invariant
            n == s@.len(),
            lo <= k <= hi <= n,
            trimmed@ == drop_trailing(drop_leading(s@)),
            trimmed@ == s@.subrange(lo as int, hi as int),
            out@ == trimmed@.map_values(|c: char| case_fold(c)).take(k - lo),
    {
        let c = to_upper_char(s.get_char(k));
        push_char(&mut out, c);
        proof {
            assert(trimmed@[k - lo] == s@[k as int]);
            assert(out@ =~= trimmed@.map_values(|c: char| case_fold(c)).take(k + 1 - lo));
        }
    }
    proof {
        assert(trimmed@.map_values(|c: char| case_fold(c)).take(hi - lo) =~= normalize_spec(s@));
    }
    out
}

/// Executable test for the trimming predicate.
fn is_space_char(c: char) -> (r: bool)
    ensures
        r == is_space(c),
{
    c == '\u{0009}' || c == '\u{000A}' || c == '\u{000B}' || c == '\u{000C}' || c == '\u{000D}'
        || c == '\u{0020}' || c == '\u{0085}' || c == '\u{00A0}' || c == '\u{1680}' || ('\u{2000}'
        <= c && c <= '\u{200A}') || c == '\u{2028}' || c == '\u{2029}' || c == '\u{202F}' || c
        == '\u{205F}' || c == '\u{3000}'
}

/// Recognises the quit token: a line that, trimmed and uppercased, is
/// exactly `Q`.
pub fn is_quit(s: &str) -> (r: bool)
    ensures
        r == (normalize_spec(s@) == seq!['Q']),
{
    let n = normalize_answer(s);
    proof {
        reveal_strlit("Q");
        assert("Q"@ =~= seq!['Q']);
    }
    let r = n.as_str().unicode_len() == 1 && n.as_str().get_char(0) == 'Q';
    proof {
        if r {
            assert(n@ =~= seq!['Q']);
        }
    }
    r
}

} // verus!
