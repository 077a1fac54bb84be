use rayon::iter::{IntoParallelRefIterator, ParallelIterator};
use snowman::dictionary::parse_word_list;
use snowman::solver::{suggest, Outcome};
use std::time::Instant;

const WORDS_LIST: &str = "cat\ncar\ncan\ncot\ndog\ndig\ndug\nbird\nbard\nword\nwork\nfork\nform\nfarm\nharm\nhello\nhelps\nyellow\nfellow\nmellow\nzebra\nSkip\nco-op\n";

#[test]
fn check_every_word() {
    let now = Instant::now();
    let words = parse_word_list(WORDS_LIST);
    let successes = words
        .par_iter()
        .map(|target| {
            let mut guessed: Vec<char> = vec![];
            let mut guesses: u8 = 0;
            let correct;
            loop {
                guesses += 1;
                let word = target
                    .chars()
                    .map(|ch| if guessed.contains(&ch) { ch } else { '_' })
                    .collect::<String>();
                match suggest(&words, &word, &guessed) {
                    Outcome::Suggestion(g, _) => guessed.push(g),
                    Outcome::Solved(w) => {
                        assert_eq!(&w, target);
                        correct = guesses <= 6;
                        break;
                    }
                    _ => {
                        correct = false;
                        break;
                    }
                }
            }
            (target.clone(), correct, guesses)
        })
        .collect::<Vec<(String, bool, u8)>>();
    println!("Finished in {}s", now.elapsed().as_secs());
    println!(
        "{} victories out of {} words",
        successes.iter().filter(|v| v.1 && v.2 < 5).count(),
        words.len()
    );
    let mut sorted = successes.clone();
    sorted.sort_by(|a, b| a.2.cmp(&b.2));
    println!("The hardest word was {}, with {} guesses.", sorted.last().unwrap().0, sorted.last().unwrap().2);
    println!("The easiest word was {}, with {} guess(es).", sorted.first().unwrap().0, sorted.first().unwrap().2);
    assert_eq!(words.len(), 21);
    assert!(successes.iter().all(|v| v.1));
}
