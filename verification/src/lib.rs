//! A verified core for the word-guessing game Wordle.
//!
//! The crate centres on two algorithms that must agree exactly: computing
//! the per-letter feedback mask for a guess against a hidden answer
//! (including the subtle bookkeeping for repeated letters), and deciding
//! whether a candidate word is consistent with a previously observed mask.
//! The second is defined as "recompute the mask and compare", so the two
//! cannot drift apart. A bounded game loop drives pluggable guessers.

use vstd::prelude::*;

pub mod algorithms;

verus! {

/// Every word the game consumes is exactly this many letters long.
pub const WORD_LEN: usize = 5;

/// Feedback for one letter of a guess.
#[derive(Clone, Copy, Debug, PartialEq, Eq, Structural)]
pub enum Correctness {
    /// The letter stands at this position in the answer (green).
    Correct,
    /// The letter occurs elsewhere in the answer, at a position not already
    /// accounted for by another mark (yellow).
    Misplaced,
    /// The letter contributes no further match (gray).
    Wrong,
}

/// How many positions `j < n` hold letter `c` in the answer without the guess
/// matching it in place there. These occurrences are the ones a `Misplaced`
/// mark may consume.
pub open spec fn free_in_answer(answer: Seq<char>, guess: Seq<char>, c: char, n: int) -> nat
    decreases n,
{
    if n <= 0 {
        0
    } else {
        free_in_answer(answer, guess, c, n - 1) + (if answer[n - 1] == c && answer[n - 1]
            != guess[n - 1] {
            1nat
        } else {
            0nat
        })
    }
}

/// How many positions `k < n` hold letter `c` in the guess without matching
/// the answer in place. Scanning left to right, each such position claims one
/// free occurrence of `c` in the answer, as long as any remain.
pub open spec fn claims_before(answer: Seq<char>, guess: Seq<char>, c: char, n: int) -> nat
    decreases n,
{
    if n <= 0 {
        0
    } else {
        claims_before(answer, guess, c, n - 1) + (if guess[n - 1] == c && guess[n - 1] != answer[n
            - 1] {
            1nat
        } else {
            0nat
        })
    }
}

/// The feedback mark at position `i`: green when the letters match in place;
/// otherwise yellow exactly when the claims of earlier non-green guess
/// positions with the same letter have not yet exhausted the answer's free
/// occurrences of it; gray otherwise.
pub open spec fn mask_cell(answer: Seq<char>, guess: Seq<char>, i: int) -> Correctness {
    if answer[i] == guess[i] {
        Correctness::Correct
    } else if claims_before(answer, guess, guess[i], i) < free_in_answer(
        answer,
        guess,
        guess[i],
        answer.len() as int,
    ) {
        Correctness::Misplaced
    } else {
        Correctness::Wrong
    }
}

/// The whole feedback mask for a guess against an answer.
pub open spec fn mask_of(answer: Seq<char>, guess: Seq<char>) -> Seq<Correctness> {
    Seq::new(guess.len(), |i: int| mask_cell(answer, guess, i))
}

/// Counts the answer positions below `WORD_LEN` that `Misplaced` marks for
/// letter `c` may consume.
fn free_count(answer: &str, guess: &str, c: char) -> (r: usize)
    requires
        answer@.len() == WORD_LEN,
        guess@.len() == WORD_LEN,
    ensures
        r == free_in_answer(answer@, guess@, c, WORD_LEN as int),
{
    let mut r: usize = 0;
    let mut j: usize = 0;
    while j < WORD_LEN
        invariant
            answer@.len() == WORD_LEN,
            guess@.len() == WORD_LEN,
            j <= WORD_LEN,
            r == free_in_answer(answer@, guess@, c, j as int),
            r <= j,
        decreases WORD_LEN - j,
    {
        let a = answer.get_char(j);
        let g = guess.get_char(j);
        if a == c && a != g {
            r = r + 1;
        }
        j = j + 1;
    }
    r
}

/// Counts the guess positions below `n` whose letter `c` does not match the
/// answer in place: the earlier claims on the answer's free occurrences of `c`.
fn claims_count(answer: &str, guess: &str, c: char, n: usize) -> (r: usize)
    requires
        answer@.len() == WORD_LEN,
        guess@.len() == WORD_LEN,
        n <= WORD_LEN,
    ensures
        r == claims_before(answer@, guess@, c, n as int),
{
    let mut r: usize = 0;
    let mut k: usize = 0;
    while k < n
        invariant
            answer@.len() == WORD_LEN,
            guess@.len() == WORD_LEN,
            n <= WORD_LEN,
            k <= n,
            r == claims_before(answer@, guess@, c, k as int),
            r <= k,
        decreases n - k,
    {
        let a = answer.get_char(k);
        let g = guess.get_char(k);
        if g == c && g != a {
            r = r + 1;
        }
        k = k + 1;
    }
    r
}

/// The feedback mark for position `i` of the guess.
fn cell(answer: &str, guess: &str, i: usize) -> (r: Correctness)
    requires
        answer@.len() == WORD_LEN,
        guess@.len() == WORD_LEN,
        i < WORD_LEN,
    ensures
        r == mask_cell(answer@, guess@, i as int),
{
    let a = answer.get_char(i);
    let g = guess.get_char(i);
    if a == g {
        Correctness::Correct
    } else {
        let free = free_count(answer, guess, g);
        let claims = claims_count(answer, guess, g, i);
        if claims < free {
            Correctness::Misplaced
        } else {
            Correctness::Wrong
        }
    }
}

impl Correctness {
    /// Computes the feedback mask a Wordle game shows for `guess` against the
    /// hidden `answer`: greens where letters match in place, then yellows
    /// assigned left to right, each consuming one occurrence of the letter in
    /// the answer that no other mark has consumed.
    pub fn compute(answer: &str, guess: &str) -> (r: [Correctness; WORD_LEN])
        requires
            answer@.len() == WORD_LEN,
            guess@.len() == WORD_LEN,
        ensures
            r@ == mask_of(answer@, guess@),
    {
        let mut r = [Correctness::Wrong; WORD_LEN];
        let mut i: usize = 0;
        while i < WORD_LEN
            invariant
                answer@.len() == WORD_LEN,
                guess@.len() == WORD_LEN,
                i <= WORD_LEN,
                r@.len() == WORD_LEN,
                forall|k: int| 0 <= k < i ==> r@[k] == mask_cell(answer@, guess@, k),
            decreases WORD_LEN - i,
        {
            r[i] = cell(answer, guess, i);
            i = i + 1;
        }
        proof {
            assert(r@ =~= mask_of(answer@, guess@));
        }
        r
    }
}

/// Whether two strings hold the same characters.
fn words_equal(a: &str, b: &str) -> (r: bool)
    ensures
        r == (a@ == b@),
{
    let n = a.unicode_len();
    let m = b.unicode_len();
    if n != m {
        return false;
    }
    let mut i: usize = 0;
    while i < n
        invariant
            n == a@.len(),
            n == b@.len(),
            i <= n,
            forall|k: int| 0 <= k < i ==> a@[k] == b@[k],
        decreases n - i,
    {
        if a.get_char(i) != b.get_char(i) {
            return false;
        }
        i = i + 1;
    }
    proof {
        assert(a@ =~= b@);
    }
    true
}

/// A candidate answer `candidate` is consistent with one observed round —
/// guess word `past_word` answered with `past_mask` — exactly when the game
/// would have produced that very mask had `candidate` been the answer.
pub open spec fn matches_spec(
    past_word: Seq<char>,
    past_mask: Seq<Correctness>,
    candidate: Seq<char>,
) -> bool {
    mask_of(candidate, past_word) == past_mask
}

/// The record of one played round: the word that was guessed and the feedback
/// mask the game answered with.
pub struct Guess {
    pub word: String,
    pub mask: [Correctness; WORD_LEN],
}

impl Guess {
    /// Decides whether `word` could still be the hidden answer given this
    /// round: the feedback mask is recomputed with `word` as the answer and
    /// compared with the stored one, so the filter agrees with the feedback
    /// engine by construction.
    pub fn matches(&self, word: &str) -> (r: bool)
        requires
            self.word@.len() == WORD_LEN,
            word@.len() == WORD_LEN,
        ensures
            r == matches_spec(self.word@, self.mask@, word@),
    {
        let recomputed = Correctness::compute(word, self.word.as_str());
        let mut i: usize = 0;
        while i < WORD_LEN
            invariant
                recomputed@ == mask_of(word@, self.word@),
                recomputed@.len() == WORD_LEN,
                self.mask@.len() == WORD_LEN,
                i <= WORD_LEN,
                forall|k: int| 0 <= k < i ==> recomputed@[k] == self.mask@[k],
            decreases WORD_LEN - i,
        {
            if recomputed[i] != self.mask[i] {
                return false;
            }
            i = i + 1;
        }
        proof {
            assert(recomputed@ =~= self.mask@);
        }
        true
    }
}

/// How many positions `j < n` hold letter `c` in `s`.
pub open spec fn letter_count(s: Seq<char>, c: char, n: int) -> nat
    decreases n,
{
    if n <= 0 {
        0
    } else {
        letter_count(s, c, n - 1) + (if s[n - 1] == c {
            1nat
        } else {
            0nat
        })
    }
}

/// How many positions `i < n` of the guess hold letter `c` and earn a mark
/// other than `Wrong`.
pub open spec fn nonwrong_count(answer: Seq<char>, guess: Seq<char>, c: char, n: int) -> nat
    decreases n,
{
    if n <= 0 {
        0
    } else {
        nonwrong_count(answer, guess, c, n - 1) + (if guess[n - 1] == c && mask_cell(
            answer,
            guess,
            n - 1,
        ) != Correctness::Wrong {
            1nat
        } else {
            0nat
        })
    }
}

/// How many positions `i < n` hold letter `c` in the guess and match the
/// answer in place.
pub open spec fn green_count(answer: Seq<char>, guess: Seq<char>, c: char, n: int) -> nat
    decreases n,
{
    if n <= 0 {
        0
    } else {
        green_count(answer, guess, c, n - 1) + (if guess[n - 1] == c && answer[n - 1] == guess[n
            - 1] {
            1nat
        } else {
            0nat
        })
    }
}

/// How many positions `i < n` of the guess earn a `Misplaced` mark for
/// letter `c`.
pub open spec fn yellow_count(answer: Seq<char>, guess: Seq<char>, c: char, n: int) -> nat
    decreases n,
{
    if n <= 0 {
        0
    } else {
        yellow_count(answer, guess, c, n - 1) + (if guess[n - 1] == c && answer[n - 1] != guess[n
            - 1] && claims_before(answer, guess, c, n - 1) < free_in_answer(
            answer,
            guess,
            c,
            answer.len() as int,
        ) {
            1nat
        } else {
            0nat
        })
    }
}

/// The occurrences of `c` in the answer split into those the guess matches in
/// place and those left free for `Misplaced` marks.
proof fn lemma_letter_count_split(answer: Seq<char>, guess: Seq<char>, c: char, n: int)
    ensures
        letter_count(answer, c, n) == green_count(answer, guess, c, n) + free_in_answer(
            answer,
            guess,
            c,
            n,
        ),
    decreases n,
{
    if n > 0 {
        lemma_letter_count_split(answer, guess, c, n - 1);
    }
}

/// The non-`Wrong` marks for letter `c` are exactly the greens and the
/// yellows.
proof fn lemma_nonwrong_split(answer: Seq<char>, guess: Seq<char>, c: char, n: int)
    requires
        n <= answer.len(),
        n <= guess.len(),
    ensures
        nonwrong_count(answer, guess, c, n) == green_count(answer, guess, c, n) + yellow_count(
            answer,
            guess,
            c,
            n,
        ),
    decreases n,
{
    if n > 0 {
        lemma_nonwrong_split(answer, guess, c, n - 1);
    }
}

/// Yellows for letter `c` are granted left to right while free occurrences in
/// the answer remain, so their number is the smaller of the claims made and
/// the occurrences available.
proof fn lemma_yellow_count_min(answer: Seq<char>, guess: Seq<char>, c: char, n: int)
    ensures
        yellow_count(answer, guess, c, n) == if claims_before(answer, guess, c, n)
            < free_in_answer(answer, guess, c, answer.len() as int) {
            claims_before(answer, guess, c, n)
        } else {
            free_in_answer(answer, guess, c, answer.len() as int)
        },
    decreases n,
{
    if n > 0 {
        lemma_yellow_count_min(answer, guess, c, n - 1);
    }
}

/// Duplicate-letter conservation: however often a letter repeats in the
/// guess, its `Correct` and `Misplaced` marks together never outnumber its
/// occurrences in the answer.
pub proof fn lemma_letter_conservation(answer: Seq<char>, guess: Seq<char>, c: char)
    requires
        answer.len() == WORD_LEN,
        guess.len() == WORD_LEN,
    ensures
        nonwrong_count(answer, guess, c, WORD_LEN as int) <= letter_count(
            answer,
            c,
            WORD_LEN as int,
        ),
{
    lemma_letter_count_split(answer, guess, c, WORD_LEN as int);
    lemma_nonwrong_split(answer, guess, c, WORD_LEN as int);
    lemma_yellow_count_min(answer, guess, c, WORD_LEN as int);
}

/// Exact match: guessing the answer itself earns `Correct` at every position.
pub proof fn lemma_exact_match(w: Seq<char>)
    requires
        w.len() == WORD_LEN,
    ensures
        mask_of(w, w) == Seq::new(WORD_LEN as nat, |i: int| Correctness::Correct),
{
    assert(mask_of(w, w) =~= Seq::new(WORD_LEN as nat, |i: int| Correctness::Correct));
}

/// No `Misplaced` mark can point at a letter the answer does not hold.
proof fn lemma_free_zero(answer: Seq<char>, guess: Seq<char>, c: char, n: int)
    requires
        forall|j: int| 0 <= j < n ==> answer[j] != c,
    ensures
        free_in_answer(answer, guess, c, n) == 0,
    decreases n,
{
    if n > 0 {
        lemma_free_zero(answer, guess, c, n - 1);
    }
}

/// Disjointness: when the answer and the guess share no letter at all, every
/// position is marked `Wrong`.
pub proof fn lemma_disjoint_all_wrong(answer: Seq<char>, guess: Seq<char>)
    requires
        answer.len() == WORD_LEN,
        guess.len() == WORD_LEN,
        forall|i: int, j: int| 0 <= i < WORD_LEN && 0 <= j < WORD_LEN ==> answer[i] != guess[j],
    ensures
        mask_of(answer, guess) == Seq::new(WORD_LEN as nat, |i: int| Correctness::Wrong),
{
    assert forall|i: int| 0 <= i < WORD_LEN implies mask_cell(answer, guess, i)
        == Correctness::Wrong by {
        lemma_free_zero(answer, guess, guess[i], WORD_LEN as int);
    }
    assert(mask_of(answer, guess) =~= Seq::new(WORD_LEN as nat, |i: int| Correctness::Wrong));
}

/// Self-consistency: the true answer passes the consistency filter against
/// the mask any guess earned in its own game.
pub proof fn lemma_answer_self_consistent(answer: Seq<char>, guessed: Seq<char>)
    requires
        answer.len() == WORD_LEN,
        guessed.len() == WORD_LEN,
    ensures
        matches_spec(guessed, mask_of(answer, guessed), answer),
{
}

/// A game never runs past this many rounds. The bound is chosen well above
/// the canonical six so that exploratory guessers can keep probing without
/// the loop running away.
pub const MAX_ROUNDS: usize = 32;

/// A fatal contract violation by a caller or a guesser. Losing the game is
/// not an error: it is reported as a normal outcome.
#[derive(Clone, Copy, Debug, PartialEq, Eq, Structural)]
pub enum GameError {
    /// The guesser proposed a word that is not in the dictionary.
    GuessNotInDictionary,
}

/// What one round's guess led to.
pub enum RoundOutcome {
    /// The guess equals the answer: the game is won.
    Won,
    /// The guess is not a dictionary word: the guesser broke its contract.
    NotInDictionary,
    /// The guess is valid but not the answer: the game records this round.
    Continue(Guess),
}

/// A guessing strategy. The game loop calls `guess` exactly once per round;
/// the strategy must return a dictionary word, and may keep private state
/// (such as a shrinking candidate pool) for the lifetime of one game.
pub trait Guesser {
    /// Proposes the next guess given the rounds played so far.
    fn guess(&mut self, history: &[Guess]) -> String;
}

/// One game of Wordle over a fixed dictionary of valid guess words.
pub struct Wordle {
    dictionary: Vec<String>,
}

impl Wordle {
    /// The dictionary's words as character sequences, in order.
    pub closed spec fn words(&self) -> Seq<Seq<char>> {
        self.dictionary@.map_values(|w: String| w@)
    }

    /// Every dictionary word has exactly `WORD_LEN` letters.
    pub open spec fn wf(&self) -> bool {
        forall|k: int| 0 <= k < self.words().len() ==> (#[trigger] self.words()[k]).len()
            == WORD_LEN
    }

    /// Whether `w` is a dictionary word.
    pub open spec fn in_dict(&self, w: Seq<char>) -> bool {
        exists|k: int| 0 <= k < self.words().len() && #[trigger] self.words()[k] == w
    }

    /// Builds a game over the given dictionary of valid guess words.
    pub fn new(dictionary: Vec<String>) -> (w: Wordle)
        requires
            forall|k: int| 0 <= k < dictionary@.len() ==> (#[trigger] dictionary@[k])@.len()
                == WORD_LEN,
        ensures
            w.words() == dictionary@.map_values(|s: String| s@),
            w.wf(),
    {
        let w = Wordle { dictionary };
        proof {
            assert forall|k: int| 0 <= k < w.words().len() implies (#[trigger] w.words()[k]).len()
                == WORD_LEN by {
                assert(w.words()[k] == w.dictionary@[k]@);
            }
        }
        w
    }

    /// Whether `word` is in the dictionary.
    fn contains(&self, word: &str) -> (r: bool)
        ensures
            r == self.in_dict(word@),
    {
        let n = self.dictionary.len();
        let mut i: usize = 0;
        while i < n
            invariant
                n == self.dictionary@.len(),
                i <= n,
                forall|k: int| 0 <= k < i ==> #[trigger] self.words()[k] != word@,
            decreases n - i,
        {
            if words_equal(self.dictionary[i].as_str(), word) {
                proof {
                    assert(self.words()[i as int] == word@);
                }
                return true;
            }
            proof {
                assert(self.words()[i as int] == self.dictionary@[i as int]@);
            }
            i = i + 1;
        }
        false
    }

    /// Judges one guess against the answer: a win when they are equal, a
    /// contract violation when the guess is not a dictionary word, and
    /// otherwise the recorded round with its freshly computed feedback mask.
    pub fn round(&self, answer: &str, guess: String) -> (r: RoundOutcome)
        requires
            self.wf(),
            answer@.len() == WORD_LEN,
        ensures
            guess@ == answer@ ==> r == RoundOutcome::Won,
            guess@ != answer@ && !self.in_dict(guess@) ==> r == RoundOutcome::NotInDictionary,
            guess@ != answer@ && self.in_dict(guess@) ==> (r matches RoundOutcome::Continue(g)
                && g.word@ == guess@ && g.mask@ == mask_of(answer@, guess@)),
    {
        if words_equal(guess.as_str(), answer) {
            return RoundOutcome::Won;
        }
        if !self.contains(guess.as_str()) {
            return RoundOutcome::NotInDictionary;
        }
        proof {
            let k = choose|k: int|
                0 <= k < self.words().len() && #[trigger] self.words()[k] == guess@;
            assert(self.words()[k].len() == WORD_LEN);
        }
        let mask = Correctness::compute(answer, guess.as_str());
        RoundOutcome::Continue(Guess { word: guess, mask })
    }

    /// Plays one game: each round asks the guesser for a word, ends with
    /// `Ok(Some(round))` when the guess equals the answer, records the round's
    /// feedback otherwise, and gives up with `Ok(None)` after `MAX_ROUNDS`
    /// rounds. A guesser that leaves the dictionary aborts the game with an
    /// error instead.
    pub fn play<G: Guesser>(&self, answer: &str, guesser: G) -> (r: Result<
        Option<usize>,
        GameError,
    >)
        requires
            self.wf(),
            answer@.len() == WORD_LEN,
        ensures
            r matches Ok(Some(round)) ==> 1 <= round <= MAX_ROUNDS,
    {
        let mut guesser = guesser;
        let mut history: Vec<Guess> = Vec::new();
        let mut i: usize = 1;
        while i <= MAX_ROUNDS
            invariant
                self.wf(),
                answer@.len() == WORD_LEN,
                1 <= i <= MAX_ROUNDS + 1,
                // every recorded round carries the mask the feedback engine
                // computes for its word, and none of those words won
                forall|k: int|
                    0 <= k < history@.len() ==> {
                        let g = #[trigger] history@[k];
                        g.word@.len() == WORD_LEN && g.word@ != answer@ && g.mask@ == mask_of(
                            answer@,
                            g.word@,
                        )
                    },
            decreases MAX_ROUNDS + 1 - i,
        {
            let guess = guesser.guess(history.as_slice());
            match self.round(answer, guess) {
                RoundOutcome::Won => {
                    return Ok(Some(i));
                },
                RoundOutcome::NotInDictionary => {
                    return Err(GameError::GuessNotInDictionary);
                },
                RoundOutcome::Continue(g) => {
                    proof {
                        let k = choose|k: int|
                            0 <= k < self.words().len() && #[trigger] self.words()[k] == g.word@;
                        assert(self.words()[k].len() == WORD_LEN);
                    }
                    history.push(g);
                },
            }
            i = i + 1;
        }
        Ok(None)
    }
}

} // verus!
