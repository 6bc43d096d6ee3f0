use wordle_solver::algorithms::Naive;
use wordle_solver::{Correctness, GameError, Guess, Guesser, RoundOutcome, Wordle};

#[test]
fn compute_is_deterministic() {
    let pairs = [
        ("abcde", "eabcd"),
        ("aabbb", "ccaac"),
        ("right", "wrong"),
        ("azzaz", "aaabb"),
    ];
    for (answer, guess) in pairs {
        assert_eq!(
            Correctness::compute(answer, guess),
            Correctness::compute(answer, guess)
        );
    }
}

#[test]
fn repeated_guess_letters_never_outnumber_answer() {
    // the answer holds two a's: at most two marks for 'a' are not Wrong
    let mask = Correctness::compute("aabbb", "aaaaa");
    assert_eq!(
        mask,
        [
            Correctness::Correct,
            Correctness::Correct,
            Correctness::Wrong,
            Correctness::Wrong,
            Correctness::Wrong,
        ]
    );
}

#[test]
fn filter_agrees_with_engine() {
    let past = "ccaac";
    let candidates = ["aabbb", "ccaac", "abcab", "bbbaa", "cacao"];
    for answer in ["aabbb", "abcab"] {
        let guess = Guess {
            word: past.to_string(),
            mask: Correctness::compute(answer, past),
        };
        for candidate in candidates {
            assert_eq!(
                guess.matches(candidate),
                Correctness::compute(candidate, past) == guess.mask,
                "candidate {candidate} against answer {answer}"
            );
        }
    }
}

#[test]
fn answer_satisfies_its_own_masks() {
    let answer = "aabbb";
    for guessed in ["aaccc", "ccaac", "caacc", "aabbb", "zzzzz"] {
        let record = Guess {
            word: guessed.to_string(),
            mask: Correctness::compute(answer, guessed),
        };
        assert!(record.matches(answer));
    }
}

struct Fixed {
    word: &'static str,
}

impl Guesser for Fixed {
    fn guess(&mut self, _history: &[Guess]) -> String {
        self.word.to_string()
    }
}

#[test]
fn off_dictionary_guess_is_a_fatal_error() {
    let w = Wordle::new(vec!["right".to_string()]);
    let guesser = Fixed { word: "wrong" };
    assert_eq!(
        w.play("right", guesser),
        Err(GameError::GuessNotInDictionary)
    );
}

#[test]
fn round_records_word_and_mask() {
    let w = Wordle::new(vec!["right".to_string(), "wrong".to_string()]);
    match w.round("right", "wrong".to_string()) {
        RoundOutcome::Continue(g) => {
            assert_eq!(g.word, "wrong");
            assert_eq!(g.mask, Correctness::compute("right", "wrong"));
        }
        _ => panic!("a valid non-winning guess must continue the game"),
    }
    assert!(matches!(
        w.round("right", "right".to_string()),
        RoundOutcome::Won
    ));
    assert!(matches!(
        w.round("right", "rigid".to_string()),
        RoundOutcome::NotInDictionary
    ));
}

#[test]
fn naive_narrows_its_pool_and_wins() {
    let w = Wordle::new(vec!["right".to_string(), "wrong".to_string()]);
    let guesser = Naive::new(vec![("wrong".to_string(), 10), ("right".to_string(), 5)]);
    // round one proposes "wrong"; its feedback rules "wrong" out and keeps
    // "right", which wins round two
    assert_eq!(w.play("right", guesser), Ok(Some(2)));
}

#[test]
fn naive_with_empty_pool_cannot_play() {
    let w = Wordle::new(vec!["right".to_string()]);
    let guesser = Naive::new(Vec::new());
    assert_eq!(
        w.play("right", guesser),
        Err(GameError::GuessNotInDictionary)
    );
}

#[test]
fn prune_keeps_exactly_the_consistent_words() {
    let mut guesser = Naive::new(vec![
        ("aabbb".to_string(), 3),
        ("ccaac".to_string(), 2),
        ("abcab".to_string(), 7),
        ("bbbaa".to_string(), 1),
    ]);
    let record = Guess {
        word: "ccaac".to_string(),
        mask: Correctness::compute("aabbb", "ccaac"),
    };
    guesser.prune(&record);
    // only the words that could still be the answer survive, in order:
    // propose them one by one by playing against each
    let w = Wordle::new(vec![
        "aabbb".to_string(),
        "ccaac".to_string(),
        "abcab".to_string(),
        "bbbaa".to_string(),
    ]);
    let first = guesser.guess(&[]);
    assert_eq!(first, "aabbb");
    assert_eq!(w.play("aabbb", guesser), Ok(Some(1)));
}
