use crate::solver::{expected_outcome, has_letter, suggest, Outcome, BLANK};
use vstd::prelude::*;

verus! {

/// `guessed` with each letter shown in `pattern` added, once, in order of appearance.
pub open spec fn with_letters(guessed: Seq<char>, pattern: Seq<char>) -> Seq<char>
    decreases pattern.len(),
{
    if pattern.len() == 0 {
        guessed
    } else {
        let g = with_letters(guessed, pattern.drop_last());
        let c = pattern.last();
        if c == BLANK || g.contains(c) {
            g
        } else {
            g.push(c)
        }
    }
}

/// Whether `pattern` shows a letter that is not in `guessed`.
pub open spec fn shows_unguessed(pattern: Seq<char>, guessed: Seq<char>) -> bool {
    exists|i: int| 0 <= i < pattern.len() && pattern[i] != BLANK && !guessed.contains(#[trigger] pattern[i])
}

/// Whether a pattern has no blank left.
pub fn is_fully_revealed(pattern: &str) -> (r: bool)
    ensures
        r == !pattern@.contains(BLANK),
{
    let n = pattern.unicode_len();
    let mut i: usize = 0;
    while i < n
        invariant
            i <= n,
            n == pattern@.len(),
            forall|j: int| 0 <= j < i ==> pattern@[j] != BLANK,
        decreases n - i,
    {
        if pattern.get_char(i) == BLANK {
            return false;
        }
        i += 1;
    }
    true
}

/// What became of a pattern handed to a session.
#[derive(Debug, Clone, Copy, PartialEq, Eq, Structural)]
pub enum PatternCheck {
    /// The pattern is taken for this turn.
    Accepted,
    /// Its length differs from the length the session established.
    WrongLength,
    /// It shows a letter that was never guessed.
    UnguessedLetter,
}

/// The state of one game: the letters guessed so far and, once the first
/// pattern has been taken, the length of the word.
pub struct Session {
    pub guessed: Vec<char>,
    pub length: Option<usize>,
}

impl Session {
    /// A session before its first pattern.
    pub fn new() -> (r: Session)
        ensures
            r.guessed@.len() == 0,
            r.length is None,
    {
        Session { guessed: Vec::new(), length: None }
    }

    /// The letters guessed so far.
    pub fn guessed(&self) -> (r: &Vec<char>)
        ensures
            r == &self.guessed,
    {
        &self.guessed
    }

    /// The length of the word, once established.
    pub fn length(&self) -> (r: Option<usize>)
        ensures
            r == self.length,
    {
        self.length
    }

    /// Checks a pattern typed for this turn. The first pattern fixes the
    /// word's length and counts the letters it shows as guessed; a later one
    /// must have that length and show only guessed letters, and changes nothing.
    pub fn check_pattern(&mut self, pattern: &str) -> (r: PatternCheck)
        ensures
            old(self).length is None ==> {
                &&& r == PatternCheck::Accepted
                &&& final(self).length == Some(pattern@.len() as usize)
                &&& final(self).guessed@ == with_letters(old(self).guessed@, pattern@)
            },
            old(self).length is Some ==> {
                &&& final(self).length == old(self).length
                &&& final(self).guessed@ == old(self).guessed@
                &&& r == if old(self).length->Some_0 != pattern@.len() {
                    PatternCheck::WrongLength
                } else if shows_unguessed(pattern@, old(self).guessed@) {
                    PatternCheck::UnguessedLetter
                } else {
                    PatternCheck::Accepted
                }
            },
            old(self).guessed@.is_prefix_of(final(self).guessed@),
    {
        let n = pattern.unicode_len();
        match self.length {
            None => {
                let ghost g0 = self.guessed@;
                let mut i: usize = 0;
                while i < n
                    invariant
                        i <= n,
                        n == pattern@.len(),
                        self.guessed@ == with_letters(g0, pattern@.take(i as int)),
                        g0.is_prefix_of(self.guessed@),
                        g0 == old(self).guessed@,
                        self.length is None,
                    decreases n - i,
                {
                    let c = pattern.get_char(i);
                    assert(pattern@.take(i + 1).drop_last() =~= pattern@.take(i as int));
                    if c != BLANK && !has_letter(&self.guessed, c) {
                        self.guessed.push(c);
                    }
                    i += 1;
                }
                assert(pattern@.take(n as int) =~= pattern@);
                self.length = Some(n);
                PatternCheck::Accepted
            },
            Some(len) => {
                if len != n {
                    return PatternCheck::WrongLength;
                }
                let mut i: usize = 0;
                while i < n
                    invariant
                        i <= n,
                        n == pattern@.len(),
                        len == n,
                        self.length == Some(len),
                        self.length == old(self).length,
                        self.guessed@ == old(self).guessed@,
                        forall|j: int|
                            0 <= j < i && pattern@[j] != BLANK ==> self.guessed@.contains(
                                #[trigger] pattern@[j],
                            ),
                    decreases n - i,
                {
                    let c = pattern.get_char(i);
                    if c != BLANK && !has_letter(&self.guessed, c) {
                        return PatternCheck::UnguessedLetter;
                    }
                    i += 1;
                }
                PatternCheck::Accepted
            },
        }
    }

    /// Plays one turn on an accepted pattern: asks the solver, and counts a
    /// suggested letter as guessed.
    pub fn play_turn(&mut self, dictionary: &Vec<String>, pattern: &str) -> (r: Outcome)
        ensures
            r@ == expected_outcome(dictionary.deep_view(), pattern@, old(self).guessed@),
            final(self).length == old(self).length,
            final(self).guessed@ == match r {
                Outcome::Suggestion(c, _) => old(self).guessed@.push(c),
                _ => old(self).guessed@,
            },
    {
        let r = suggest(dictionary, pattern, &self.guessed);
        if let Outcome::Suggestion(c, _) = &r {
            self.guessed.push(*c);
        }
        r
    }
}

} // verus!
