//! A baseline guesser: it keeps a pool of candidate words with frequency
//! counts, drops every word that is inconsistent with the latest feedback,
//! and proposes the first word that remains.

use vstd::prelude::*;

use crate::Guess;
use crate::Guesser;
use crate::matches_spec;
use crate::Correctness;
use crate::WORD_LEN;

verus! {

/// Whether the pool entry survives the round `(past_word, past_mask)`: its
/// word must have the right length and still be a possible answer.
pub open spec fn keeps(
    entry: (String, usize),
    past_word: Seq<char>,
    past_mask: Seq<Correctness>,
) -> bool {
    entry.0@.len() == WORD_LEN && matches_spec(past_word, past_mask, entry.0@)
}

/// The pool entries that survive the round `(past_word, past_mask)`, in their
/// original order.
pub open spec fn retained(
    pool: Seq<(String, usize)>,
    past_word: Seq<char>,
    past_mask: Seq<Correctness>,
) -> Seq<(String, usize)>
    decreases pool.len(),
{
    if pool.len() == 0 {
        Seq::empty()
    } else {
        let rest = retained(pool.drop_last(), past_word, past_mask);
        if keeps(pool.last(), past_word, past_mask) {
            rest.push(pool.last())
        } else {
            rest
        }
    }
}

/// A baseline guesser holding the candidate words not yet ruled out, each
/// with its frequency count.
pub struct Naive {
    remaining: Vec<(String, usize)>,
}

impl Naive {
    /// The candidate pool, in order.
    pub closed spec fn pool(&self) -> Seq<(String, usize)> {
        self.remaining@
    }

    /// Builds a guesser whose initial pool holds the given words with their
    /// frequency counts.
    pub fn new(entries: Vec<(String, usize)>) -> (s: Naive)
        ensures
            s.pool() == entries@,
    {
        Naive { remaining: entries }
    }

    /// Shrinks the pool to the words still consistent with one observed
    /// round. The pool only ever shrinks; it never grows back.
    pub fn prune(&mut self, last: &Guess)
        requires
            last.word@.len() == WORD_LEN,
        ensures
            final (self).pool() == retained(old(self).pool(), last.word@, last.mask@),
    {
        let ghost orig = self.remaining@;
        let n = self.remaining.len();
        let mut kept: Vec<(String, usize)> = Vec::new();
        let mut i: usize = 0;
        while i < n
            invariant
                n == self.remaining@.len(),
                self.remaining@ == orig,
                last.word@.len() == WORD_LEN,
                i <= n,
                kept@ == retained(orig.take(i as int), last.word@, last.mask@),
            decreases n - i,
        {
            let entry = &self.remaining[i];
            let fits = entry.0.as_str().unicode_len() == WORD_LEN && last.matches(
                entry.0.as_str(),
            );
            if fits {
                let word = entry.0.clone();
                let count = entry.1;
                kept.push((word, count));
            }
            proof {
                assert(orig.take(i + 1).drop_last() =~= orig.take(i as int));
                assert(orig.take(i + 1).last() == orig[i as int]);
            }
            i = i + 1;
        }
        proof {
            assert(orig.take(n as int) =~= orig);
        }
        self.remaining = kept;
    }
}

impl Guesser for Naive {
    /// Prunes the pool with the latest round, then proposes the first word
    /// that remains. An exhausted pool (or a malformed history entry) leaves
    /// nothing sensible to say, so the empty string is returned and the game
    /// rejects it as a non-dictionary word.
    fn guess(&mut self, history: &[Guess]) -> (r: String) {
        if history.len() > 0 {
            let last = &history[history.len() - 1];
            if last.word.as_str().unicode_len() == WORD_LEN {
                self.prune(last);
            }
        }
        if self.remaining.len() == 0 {
            return String::new();
        }
        self.remaining[0].0.clone()
    }
}

} // verus!
