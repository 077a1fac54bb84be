use vstd::prelude::*;

verus! {

/// A dictionary word: a non-empty sequence of lowercase ASCII letters.
pub open spec fn is_word(w: Seq<char>) -> bool {
    &&& w.len() > 0
    &&& forall|i: int| 0 <= i < w.len() ==> 'a' <= #[trigger] w[i] <= 'z'
}

/// The lines of `text`, split at each newline; a text without a newline is one line.
pub open spec fn split_lines(text: Seq<char>) -> Seq<Seq<char>>
    decreases text.len(),
{
    if text.len() == 0 {
        seq![Seq::empty()]
    } else {
        let prev = split_lines(text.drop_last());
        if text.last() == '\n' {
            prev.push(Seq::empty())
        } else {
            prev.update(prev.len() - 1, prev.last().push(text.last()))
        }
    }
}

/// A line without the carriage return that may end it.
pub open spec fn strip_cr(line: Seq<char>) -> Seq<char> {
    if line.len() > 0 && line.last() == '\r' {
        line.drop_last()
    } else {
        line
    }
}

/// The words of some lines, in order: each line without its carriage return,
/// kept when it is a word.
pub open spec fn words_of(lines: Seq<Seq<char>>) -> Seq<Seq<char>> {
    lines.map_values(|l: Seq<char>| strip_cr(l)).filter(|w: Seq<char>| is_word(w))
}

/// The words of a newline-separated word list.
pub open spec fn word_list(text: Seq<char>) -> Seq<Seq<char>> {
    words_of(split_lines(text))
}

proof fn lemma_split_lines_nonempty(text: Seq<char>)
    ensures
        split_lines(text).len() >= 1,
    decreases text.len(),
{
    if text.len() > 0 {
        lemma_split_lines_nonempty(text.drop_last());
    }
}

proof fn lemma_words_of_push(lines: Seq<Seq<char>>, line: Seq<char>)
    ensures
        words_of(lines.push(line)) == if is_word(strip_cr(line)) {
            words_of(lines).push(strip_cr(line))
        } else {
            words_of(lines)
        },
{
    reveal(Seq::filter);
    let f = |l: Seq<char>| strip_cr(l);
    let m = lines.push(line).map_values(f);
    assert(m.drop_last() =~= lines.map_values(f));
    assert(m.last() == strip_cr(line));
}

/// Relies on `String::push`: appends one character.
#[verifier::external_body]
fn push_char(s: &mut String, c: char)
    ensures
        final(s)@ == old(s)@.push(c),
{
    s.push(c);
}

/// Whether `w` is a word.
fn check_word(w: &Vec<char>) -> (r: bool)
    ensures
        r == is_word(w@),
{
    if w.len() == 0 {
        return false;
    }
    let mut i: usize = 0;
    while i < w.len()
        invariant
            i <= w.len(),
            forall|j: int| 0 <= j < i ==> 'a' <= #[trigger] w@[j] <= 'z',
        decreases w.len() - i,
    {
        if w[i] < 'a' || w[i] > 'z' {
            return false;
        }
        i += 1;
    }
    true
}

/// Appends the word of `line` to `words`, if it holds one.
fn finish_line(words: &mut Vec<String>, line: &mut Vec<char>)
    ensures
        final(words).deep_view() == if is_word(strip_cr(old(line)@)) {
            old(words).deep_view().push(strip_cr(old(line)@))
        } else {
            old(words).deep_view()
        },
{
    let ghost l = line@;
    if line.len() > 0 && line[line.len() - 1] == '\r' {
        line.pop();
    }
    assert(line@ == strip_cr(l));
    if check_word(line) {
        let mut s = String::new();
        let mut i: usize = 0;
        while i < line.len()
            invariant
                i <= line.len(),
                s@ == line@.take(i as int),
            decreases line.len() - i,
        {
            push_char(&mut s, line[i]);
            assert(line@.take(i + 1) =~= line@.take(i as int).push(line@[i as int]));
            i += 1;
        }
        assert(line@.take(line.len() as int) =~= line@);
        let ghost before = words.deep_view();
        words.push(s);
        assert(words.deep_view() =~= before.push(line@));
    }
}

/// Parses a newline-separated word list into its words, in order. Lines may
/// end in a carriage return; lines that are not made of lowercase ASCII
/// letters alone, and empty lines, are left out.
pub fn parse_word_list(text: &str) -> (r: Vec<String>)
    ensures
        r.deep_view() == word_list(text@),
{
    broadcast use vstd::string::group_string_axioms;

    let mut words: Vec<String> = Vec::new();
    let mut line: Vec<char> = Vec::new();
    for c in it: text.chars()
        invariant
            it.seq() == text@,
            ({
                let lines = split_lines(text@.take(it.index() as int));
                &&& words.deep_view() == words_of(lines.drop_last())
                &&& line@ == lines.last()
            }),
    {
        let ghost k = it.index() as int;
        proof {
            lemma_split_lines_nonempty(text@.take(k));
            assert(text@.take(k + 1).drop_last() =~= text@.take(k));
            assert(text@.take(k + 1).last() == c);
        }
        if c == '\n' {
            let ghost lines = split_lines(text@.take(k));
            proof {
                lemma_words_of_push(lines.drop_last(), lines.last());
                assert(lines.drop_last().push(lines.last()) =~= lines);
                assert(split_lines(text@.take(k + 1)).drop_last() =~= lines);
            }
            finish_line(&mut words, &mut line);
            line = Vec::new();
        } else {
            line.push(c);
            proof {
                let lines = split_lines(text@.take(k));
                assert(split_lines(text@.take(k + 1)).drop_last() =~= lines.drop_last());
            }
        }
    }
    proof {
        let lines = split_lines(text@);
        assert(text@.take(text@.len() as int) =~= text@);
        lemma_split_lines_nonempty(text@);
        lemma_words_of_push(lines.drop_last(), lines.last());
        assert(lines.drop_last().push(lines.last()) =~= lines);
    }
    finish_line(&mut words, &mut line);
    words
}

} // verus!
