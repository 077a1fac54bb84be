use rayon::iter::{IntoParallelRefIterator, ParallelIterator};
use vstd::prelude::*;

verus! {

/// The symbol that stands for an unrevealed position in a pattern.
pub const BLANK: char = '_';

/// A word is consistent with a pattern when it has the pattern's length, agrees
/// with every revealed position, and hides no already-guessed letter behind a blank.
pub open spec fn consistent(word: Seq<char>, pattern: Seq<char>, guessed: Seq<char>) -> bool {
    &&& word.len() == pattern.len()
    &&& forall|i: int|
        0 <= i < pattern.len() ==> if pattern[i] == BLANK {
            !guessed.contains(#[trigger] word[i])
        } else {
            word[i] == pattern[i]
        }
}

/// The words of `dictionary` consistent with `pattern` and `guessed`, in dictionary order.
pub open spec fn candidates(dictionary: Seq<Seq<char>>, pattern: Seq<char>, guessed: Seq<char>) -> Seq<
    Seq<char>,
> {
    dictionary.filter(fits(pattern, guessed))
}

/// `consistent` as a predicate on words.
pub open spec fn fits(pattern: Seq<char>, guessed: Seq<char>) -> spec_fn(Seq<char>) -> bool {
    |w: Seq<char>| consistent(w, pattern, guessed)
}

/// The words that contain `c`, as a predicate.
pub open spec fn holding(c: char) -> spec_fn(Seq<char>) -> bool {
    |w: Seq<char>| w.contains(c)
}

/// How many of `words` contain the letter `c`.
pub open spec fn coverage(words: Seq<Seq<char>>, c: char) -> nat {
    words.filter(holding(c)).len()
}

/// A letter worth suggesting: a lowercase letter not yet guessed that some
/// candidate lacks (a letter every candidate holds tells nothing apart).
pub open spec fn eligible(c: char, cands: Seq<Seq<char>>, guessed: Seq<char>) -> bool {
    &&& 'a' <= c <= 'z'
    &&& !guessed.contains(c)
    &&& coverage(cands, c) < cands.len()
}

/// An eligible letter of greatest coverage, the earliest in the alphabet among equals.
pub open spec fn is_best(c: char, cands: Seq<Seq<char>>, guessed: Seq<char>) -> bool {
    &&& eligible(c, cands, guessed)
    &&& forall|d: char| #[trigger]
        eligible(d, cands, guessed) ==> {
            ||| coverage(cands, d) < coverage(cands, c)
            ||| (coverage(cands, d) == coverage(cands, c) && c <= d)
        }
}

/// What a suggestion carries besides its letter, as a mathematical value.
pub enum DetailModel {
    Candidates(Seq<Seq<char>>),
    Count(nat),
}

/// The outcome of a turn, as a mathematical value.
pub enum OutcomeModel {
    Solved(Seq<char>),
    Exhausted(bool),
    Suggestion(char, DetailModel),
    Stuck,
}

/// Fewer candidates than this are listed in a suggestion; otherwise only counted.
pub const LIST_LIMIT: usize = 5;

/// The outcome of one turn: the unique candidate, no candidate (flagging a
/// likely unknown word when nothing was guessed yet), the best letter, or no
/// letter that can tell the candidates apart.
pub open spec fn expected_outcome(
    dictionary: Seq<Seq<char>>,
    pattern: Seq<char>,
    guessed: Seq<char>,
) -> OutcomeModel {
    let cands = candidates(dictionary, pattern, guessed);
    if cands.len() == 1 {
        OutcomeModel::Solved(cands[0])
    } else if cands.len() == 0 {
        OutcomeModel::Exhausted(guessed.len() == 0)
    } else if exists|c: char| is_best(c, cands, guessed) {
        OutcomeModel::Suggestion(
            choose|c: char| is_best(c, cands, guessed),
            if cands.len() < LIST_LIMIT {
                DetailModel::Candidates(cands)
            } else {
                DetailModel::Count(cands.len())
            },
        )
    } else {
        OutcomeModel::Stuck
    }
}

/// What a suggestion carries besides its letter: the few remaining
/// candidates, or only how many there are.
#[derive(Debug, PartialEq, Eq)]
pub enum Detail {
    Candidates(Vec<String>),
    Count(usize),
}

/// The outcome of one turn.
#[derive(Debug, PartialEq, Eq)]
pub enum Outcome {
    /// Exactly one candidate remains.
    Solved(String),
    /// No candidate remains; the flag is set when no letter had been guessed.
    Exhausted(bool),
    /// The letter to guess next.
    Suggestion(char, Detail),
    /// Several candidates remain but no letter can tell them apart.
    Stuck,
}

impl View for Detail {
    type V = DetailModel;

    open spec fn view(&self) -> DetailModel {
        match self {
            Detail::Candidates(v) => DetailModel::Candidates(v.deep_view()),
            Detail::Count(n) => DetailModel::Count(*n as nat),
        }
    }
}

impl View for Outcome {
    type V = OutcomeModel;

    open spec fn view(&self) -> OutcomeModel {
        match self {
            Outcome::Solved(w) => OutcomeModel::Solved(w@),
            Outcome::Exhausted(b) => OutcomeModel::Exhausted(*b),
            Outcome::Suggestion(c, d) => OutcomeModel::Suggestion(*c, d@),
            Outcome::Stuck => OutcomeModel::Stuck,
        }
    }
}

/// Two letters that are both best are the same letter.
pub proof fn lemma_best_unique(c: char, d: char, cands: Seq<Seq<char>>, guessed: Seq<char>)
    requires
        is_best(c, cands, guessed),
        is_best(d, cands, guessed),
    ensures
        c == d,
{
    assert(eligible(d, cands, guessed));
    assert(eligible(c, cands, guessed));
}

/// Whether `c` occurs in `letters`.
pub fn has_letter(letters: &Vec<char>, c: char) -> (r: bool)
    ensures
        r == letters@.contains(c),
{
    let mut i: usize = 0;
    while i < letters.len()
        invariant
            i <= letters.len(),
            forall|j: int| 0 <= j < i ==> letters@[j] != c,
        decreases letters.len() - i,
    {
        if letters[i] == c {
            return true;
        }
        i += 1;
    }
    false
}

/// Decides `consistent` for one word.
pub fn is_consistent(word: &String, pattern: &str, guessed: &Vec<char>) -> (r: bool)
    ensures
        r == consistent(word@, pattern@, guessed@),
{
    let w = word.as_str();
    let n = pattern.unicode_len();
    if w.unicode_len() != n {
        return false;
    }
    let mut i: usize = 0;
    while i < n
        invariant
            i <= n,
            n == pattern@.len(),
            w@ == word@,
            w@.len() == n,
            forall|j: int|
                0 <= j < i ==> if pattern@[j] == BLANK {
                    !guessed@.contains(#[trigger] word@[j])
                } else {
                    word@[j] == pattern@[j]
                },
        decreases n - i,
    {
        let p = pattern.get_char(i);
        let c = w.get_char(i);
        if p == BLANK {
            if has_letter(guessed, c) {
                return false;
            }
        } else if c != p {
            return false;
        }
        i += 1;
    }
    true
}

/// The letter at position `i` of the alphabet.
fn letter_at(i: u8) -> (c: char)
    requires
        i < 26,
    ensures
        'a' <= c <= 'z',
        c as u32 == 97 + i,
{
    (97u8 + i) as char
}

/// Whether `c` occurs in `word`.
pub fn contains_char(word: &String, c: char) -> (r: bool)
    ensures
        r == word@.contains(c),
{
    let w = word.as_str();
    let n = w.unicode_len();
    let mut i: usize = 0;
    while i < n
        invariant
            i <= n,
            n == word@.len(),
            w@ == word@,
            forall|j: int| 0 <= j < i ==> word@[j] != c,
        decreases n - i,
    {
        if w.get_char(i) == c {
            return true;
        }
        i += 1;
    }
    false
}

/// Counts the words that contain `c`.
pub fn count_containing(words: &Vec<String>, c: char) -> (r: usize)
    ensures
        r == coverage(words.deep_view(), c),
{
    let ghost ws = words.deep_view();
    let ghost pred = holding(c);
    let mut count: usize = 0;
    let mut i: usize = 0;
    while i < words.len()
        invariant
            i <= words.len(),
            ws == words.deep_view(),
            pred == holding(c),
            count == ws.subrange(0, i as int).filter(pred).len(),
            count <= i,
        decreases words.len() - i,
    {
        let has = contains_char(&words[i], c);
        proof {
            reveal(Seq::filter);
            let s = ws.subrange(0, i + 1);
            assert(s.drop_last() =~= ws.subrange(0, i as int));
            assert(s.last() == ws[i as int]);
            assert(ws[i as int] == words@[i as int]@);
            assert(has == pred(s.last()));
            assert(s.filter(pred) == if pred(s.last()) {
                s.drop_last().filter(pred).push(s.last())
            } else {
                s.drop_last().filter(pred)
            });
        }
        if has {
            count += 1;
        }
        i += 1;
    }
    assert(ws.subrange(0, words.len() as int) =~= ws);
    count
}

/// Relies on rayon's `par_iter().filter(..).cloned().collect()` over a `Vec`:
/// collecting into a `Vec` keeps the items that pass, in their original order.
#[verifier::external_body]
fn par_candidates(dictionary: &Vec<String>, pattern: &str, guessed: &Vec<char>) -> (r: Vec<String>)
    ensures
        r.deep_view() == candidates(dictionary.deep_view(), pattern@, guessed@),
{
    dictionary.par_iter().filter(|w| is_consistent(w, pattern, guessed)).cloned().collect()
}

/// Relies on rayon's `par_iter().map(..).collect()` over a `Vec`: one result
/// per item, in the items' order.
#[verifier::external_body]
fn par_coverage(words: &Vec<String>, letters: &Vec<char>) -> (r: Vec<usize>)
    ensures
        r@.len() == letters@.len(),
        forall|i: int| 0 <= i < letters@.len() ==> r@[i] == coverage(words.deep_view(), letters@[i]),
{
    letters.par_iter().map(|c| count_containing(words, *c)).collect()
}

/// The lowercase letters not in `guessed`, in alphabetical order.
fn unguessed_letters(guessed: &Vec<char>) -> (r: Vec<char>)
    ensures
        forall|j: int, k: int| 0 <= j < k < r@.len() ==> r@[j] < r@[k],
        forall|j: int| 0 <= j < r@.len() ==> 'a' <= #[trigger] r@[j] <= 'z' && !guessed@.contains(r@[j]),
        forall|c: char| 'a' <= c <= 'z' && !guessed@.contains(c) ==> r@.contains(c),
{
    let mut r: Vec<char> = Vec::new();
    let mut i: u8 = 0;
    while i < 26
        invariant
            i <= 26,
            forall|j: int, k: int| 0 <= j < k < r@.len() ==> r@[j] < r@[k],
            forall|j: int| 0 <= j < r@.len() ==> 'a' <= #[trigger] r@[j] <= 'z' && !guessed@.contains(r@[j])
                && (r@[j] as u32) < 97 + i,
            forall|c: char| 'a' <= c <= 'z' && (c as u32) < 97 + i && !guessed@.contains(c) ==> r@.contains(c),
        decreases 26 - i,
    {
        let c = letter_at(i);
        if !has_letter(guessed, c) {
            let ghost before = r@;
            r.push(c);
            proof {
                assert forall|d: char| 'a' <= d <= 'z' && (d as u32) < 97 + i + 1 && !guessed@.contains(d)
                    implies r@.contains(d) by {
                    if d == c {
                        assert(r@[r@.len() - 1] == c);
                    } else {
                        assert(before.contains(d));
                        let k = choose|k: int| 0 <= k < before.len() && before[k] == d;
                        assert(r@[k] == d);
                    }
                }
            }
        }
        i += 1;
    }
    r
}

/// One turn of the solver: filters the dictionary against the pattern and the
/// guessed letters, then reports the unique candidate, the lack of any, or the
/// letter held by the most candidates short of all of them.
pub fn suggest(dictionary: &Vec<String>, pattern: &str, guessed: &Vec<char>) -> (r: Outcome)
    ensures
        r@ == expected_outcome(dictionary.deep_view(), pattern@, guessed@),
        r is Stuck <==> {
            let cands = candidates(dictionary.deep_view(), pattern@, guessed@);
            &&& cands.len() >= 2
            &&& forall|c: char| !eligible(c, cands, guessed@)
        },
{
    let ghost g = guessed@;
    let cands = par_candidates(dictionary, pattern, guessed);
    let ghost cs = cands.deep_view();
    let n = cands.len();
    if n == 1 {
        return Outcome::Solved(cands[0].clone());
    } else if n == 0 {
        return Outcome::Exhausted(guessed.len() == 0);
    }
    let letters = unguessed_letters(guessed);
    let covs = par_coverage(&cands, &letters);
    let mut best: Option<usize> = None;
    let mut j: usize = 0;
    while j < letters.len()
        invariant
            j <= letters.len(),
            covs@.len() == letters@.len(),
            n == cands.len(),
            cs == cands.deep_view(),
            forall|k: int| 0 <= k < letters@.len() ==> covs@[k] == coverage(cs, letters@[k]),
            match best {
                Some(b) => {
                    &&& b < j
                    &&& covs@[b as int] < n
                    &&& forall|k: int|
                        0 <= k < j && covs@[k] < n ==> covs@[k] <= covs@[b as int]
                            && (covs@[k] == covs@[b as int] ==> b <= k)
                },
                None => forall|k: int| 0 <= k < j ==> covs@[k] >= n,
            },
        decreases letters.len() - j,
    {
        if covs[j] < n {
            match best {
                Some(b) => {
                    if covs[j] > covs[b] {
                        best = Some(j);
                    }
                },
                None => {
                    best = Some(j);
                },
            }
        }
        j += 1;
    }
    match best {
        None => {
            proof {
                assert forall|c: char| !eligible(c, cs, g) by {
                    if eligible(c, cs, g) {
                        assert(letters@.contains(c));
                        let k = choose|k: int| 0 <= k < letters@.len() && letters@[k] == c;
                        assert(covs@[k] >= n);
                    }
                }
            }
            Outcome::Stuck
        },
        Some(b) => {
            let c = letters[b];
            proof {
                assert forall|d: char| #[trigger] eligible(d, cs, g) implies {
                    ||| coverage(cs, d) < coverage(cs, c)
                    ||| (coverage(cs, d) == coverage(cs, c) && c <= d)
                } by {
                    assert(letters@.contains(d));
                    let k = choose|k: int| 0 <= k < letters@.len() && letters@[k] == d;
                    assert(covs@[k] < n);
                    if covs@[k] == covs@[b as int] {
                        assert(b <= k);
                        if b < k {
                            assert(letters@[b as int] < letters@[k]);
                        }
                    }
                }
                assert(is_best(c, cs, g));
                assert(eligible(c, cs, g));
                let chosen = choose|x: char| is_best(x, cs, g);
                lemma_best_unique(c, chosen, cs, g);
            }
            if n < LIST_LIMIT {
                Outcome::Suggestion(c, Detail::Candidates(cands))
            } else {
                Outcome::Suggestion(c, Detail::Count(n))
            }
        },
    }
}

} // verus!
