use crate::solver::{
    candidates, consistent, coverage, eligible, expected_outcome, fits, is_best, OutcomeModel,
    BLANK,
};
use crate::dictionary::is_word;
use vstd::prelude::*;

verus! {

/// The pattern that the word `w` shows once the letters of `guessed` are revealed.
pub open spec fn shown_pattern(w: Seq<char>, guessed: Seq<char>) -> Seq<char> {
    Seq::new(w.len(), |i: int| if guessed.contains(w[i]) { w[i] } else { BLANK })
}

/// `after` is `before` with the letter `c` written into some of its blanks.
pub open spec fn filled_in(before: Seq<char>, after: Seq<char>, c: char) -> bool {
    &&& after.len() == before.len()
    &&& forall|i: int|
        0 <= i < before.len() ==> if before[i] == BLANK {
            #[trigger] after[i] == BLANK || after[i] == c
        } else {
            after[i] == before[i]
        }
}

/// Filtering by a stronger predicate keeps fewer items, all of them kept by the weaker one.
proof fn lemma_filter_stronger(s: Seq<Seq<char>>, p: spec_fn(Seq<char>) -> bool, q: spec_fn(Seq<char>) -> bool)
    requires
        forall|x: Seq<char>| #[trigger] p(x) ==> q(x),
    ensures
        s.filter(p).len() <= s.filter(q).len(),
        forall|x: Seq<char>| s.filter(p).contains(x) ==> s.filter(q).contains(x),
    decreases s.len(),
{
    reveal(Seq::filter);
    if s.len() > 0 {
        lemma_filter_stronger(s.drop_last(), p, q);
        let fp = s.drop_last().filter(p);
        let fq = s.drop_last().filter(q);
        assert forall|x: Seq<char>| s.filter(p).contains(x) implies s.filter(q).contains(x) by {
            let fq2 = s.filter(q);
            if p(s.last()) {
                assert(q(s.last()));
                assert(fq2 == fq.push(s.last()));
                if x == s.last() {
                    assert(fq2[fq2.len() - 1] == x);
                } else {
                    let fp2 = fp.push(s.last());
                    let k = choose|k: int| 0 <= k < fp2.len() && fp2[k] == x;
                    assert(fp[k] == x);
                    assert(fp.contains(x));
                    let m = choose|m: int| 0 <= m < fq.len() && fq[m] == x;
                    assert(fq2[m] == x);
                }
            } else if q(s.last()) {
                assert(fp.contains(x));
                let m = choose|m: int| 0 <= m < fq.len() && fq[m] == x;
                assert(fq.push(s.last())[m] == x);
            }
        }
    }
}

/// The word being guessed is never filtered out: whatever letters were
/// guessed, the pattern it shows keeps it among the candidates, so the solver
/// never reports no candidates for it and can only solve it as itself.
pub proof fn lemma_true_word_kept(dictionary: Seq<Seq<char>>, w: Seq<char>, guessed: Seq<char>)
    requires
        dictionary.contains(w),
        is_word(w),
    ensures
        candidates(dictionary, shown_pattern(w, guessed), guessed).contains(w),
        !(expected_outcome(dictionary, shown_pattern(w, guessed), guessed) is Exhausted),
        expected_outcome(dictionary, shown_pattern(w, guessed), guessed) is Solved ==> expected_outcome(
            dictionary,
            shown_pattern(w, guessed),
            guessed,
        )->Solved_0 == w,
{
    let p = shown_pattern(w, guessed);
    assert forall|i: int| 0 <= i < p.len() implies if p[i] == BLANK {
        !guessed.contains(#[trigger] w[i])
    } else {
        w[i] == p[i]
    } by {
        assert('a' <= w[i] <= 'z');
    }
    assert(consistent(w, p, guessed));
    let k = choose|k: int| 0 <= k < dictionary.len() && dictionary[k] == w;
    dictionary.lemma_filter_contains(fits(p, guessed), k);
    let cands = candidates(dictionary, p, guessed);
    assert(cands.contains(w));
    if cands.len() == 1 {
        let m = choose|m: int| 0 <= m < cands.len() && cands[m] == w;
        assert(m == 0);
    }
}

/// Guessing a new letter and filling it into the pattern where it occurs only
/// narrows the candidates: each later candidate was a candidate before, and
/// there are no more of them than before.
pub proof fn lemma_guess_narrows(
    dictionary: Seq<Seq<char>>,
    before: Seq<char>,
    after: Seq<char>,
    guessed: Seq<char>,
    c: char,
)
    requires
        !guessed.contains(c),
        filled_in(before, after, c),
    ensures
        candidates(dictionary, after, guessed.push(c)).len() <= candidates(
            dictionary,
            before,
            guessed,
        ).len(),
        forall|w: Seq<char>|
            candidates(dictionary, after, guessed.push(c)).contains(w) ==> candidates(
                dictionary,
                before,
                guessed,
            ).contains(w),
{
    let g2 = guessed.push(c);
    let p = fits(after, g2);
    let q = fits(before, guessed);
    assert forall|x: Seq<char>| #[trigger] p(x) implies q(x) by {
        assert forall|i: int| 0 <= i < before.len() implies if before[i] == BLANK {
            !guessed.contains(#[trigger] x[i])
        } else {
            x[i] == before[i]
        } by {
            assert(after[i] == BLANK || after[i] == c || after[i] == before[i]);
            if before[i] == BLANK && after[i] == BLANK {
                if guessed.contains(x[i]) {
                    let k = choose|k: int| 0 <= k < guessed.len() && guessed[k] == x[i];
                    assert(g2[k] == x[i]);
                }
            }
        }
    }
    lemma_filter_stronger(dictionary, p, q);
}

/// Feeding the suggested letter back through a correctly updated pattern never
/// brings back a word that was already ruled out.
pub proof fn lemma_suggestion_narrows(
    dictionary: Seq<Seq<char>>,
    before: Seq<char>,
    after: Seq<char>,
    guessed: Seq<char>,
)
    requires
        expected_outcome(dictionary, before, guessed) is Suggestion,
        filled_in(before, after, expected_outcome(dictionary, before, guessed)->Suggestion_0),
    ensures
        ({
            let c = expected_outcome(dictionary, before, guessed)->Suggestion_0;
            forall|w: Seq<char>|
                candidates(dictionary, after, guessed.push(c)).contains(w) ==> candidates(
                    dictionary,
                    before,
                    guessed,
                ).contains(w)
        }),
{
    let cands = candidates(dictionary, before, guessed);
    let c = expected_outcome(dictionary, before, guessed)->Suggestion_0;
    assert(is_best(c, cands, guessed));
    lemma_guess_narrows(dictionary, before, after, guessed, c);
}

/// A suggested letter is a lowercase letter not guessed before, so a game
/// that keeps counting its suggestions as guessed ends within 26 suggestions.
pub proof fn lemma_suggestion_is_new(dictionary: Seq<Seq<char>>, pattern: Seq<char>, guessed: Seq<char>)
    requires
        expected_outcome(dictionary, pattern, guessed) is Suggestion,
    ensures
        ({
            let c = expected_outcome(dictionary, pattern, guessed)->Suggestion_0;
            &&& 'a' <= c <= 'z'
            &&& !guessed.contains(c)
        }),
{
    let cands = candidates(dictionary, pattern, guessed);
    let c = expected_outcome(dictionary, pattern, guessed)->Suggestion_0;
    assert(is_best(c, cands, guessed));
}

/// Between two letters of equal coverage, the suggestion is never the later one.
pub proof fn lemma_tie_goes_to_earlier(
    dictionary: Seq<Seq<char>>,
    pattern: Seq<char>,
    guessed: Seq<char>,
    d: char,
)
    requires
        expected_outcome(dictionary, pattern, guessed) is Suggestion,
        eligible(d, candidates(dictionary, pattern, guessed), guessed),
        coverage(candidates(dictionary, pattern, guessed), d) == coverage(
            candidates(dictionary, pattern, guessed),
            expected_outcome(dictionary, pattern, guessed)->Suggestion_0,
        ),
    ensures
        expected_outcome(dictionary, pattern, guessed)->Suggestion_0 <= d,
{
    let cands = candidates(dictionary, pattern, guessed);
    let c = expected_outcome(dictionary, pattern, guessed)->Suggestion_0;
    assert(is_best(c, cands, guessed));
}

/// A letter that every remaining candidate holds is never suggested.
pub proof fn lemma_full_coverage_excluded(
    dictionary: Seq<Seq<char>>,
    pattern: Seq<char>,
    guessed: Seq<char>,
    d: char,
)
    requires
        coverage(candidates(dictionary, pattern, guessed), d) == candidates(
            dictionary,
            pattern,
            guessed,
        ).len(),
        expected_outcome(dictionary, pattern, guessed) is Suggestion,
    ensures
        expected_outcome(dictionary, pattern, guessed)->Suggestion_0 != d,
{
    let cands = candidates(dictionary, pattern, guessed);
    let c = expected_outcome(dictionary, pattern, guessed)->Suggestion_0;
    assert(is_best(c, cands, guessed));
}

/// The outcome depends on the dictionary, the pattern and the guessed letters
/// alone: the same inputs always give the same outcome.
pub proof fn lemma_outcome_repeatable(
    dictionary: Seq<Seq<char>>,
    pattern: Seq<char>,
    guessed: Seq<char>,
    dictionary2: Seq<Seq<char>>,
    pattern2: Seq<char>,
    guessed2: Seq<char>,
)
    requires
        dictionary == dictionary2,
        pattern == pattern2,
        guessed == guessed2,
    ensures
        expected_outcome(dictionary, pattern, guessed) == expected_outcome(
            dictionary2,
            pattern2,
            guessed2,
        ),
{
}

} // verus!
