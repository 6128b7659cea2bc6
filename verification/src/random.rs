//! Random sources for weighted selection.
//!
//! Selection draws one 32-bit word per pick. Where the word comes from is the
//! caller's choice: a generator seeded with a number, whose words are the same
//! on every run, or the thread's generator, whose words are not.

use rand::rngs::StdRng;
use rand::RngExt;
use rand::SeedableRng;
use vstd::prelude::*;

verus! {

/// `rand::rngs::StdRng`, the generator inside a seeded source. Nothing of its
/// state is visible here.
#[verifier::external_type_specification]
#[verifier::external_body]
pub struct ExStdRng(StdRng);

/// The word that a generator yields after `ahead` further draws: the name of
/// what `RngExt::random::<u32>` returns.
pub uninterp spec fn upcoming_word(rng: StdRng, ahead: nat) -> u32;

/// The word that a generator seeded with `seed` yields at draw number `index`,
/// counted from zero: the name of what `StdRng::seed_from_u64` sets up. In
/// the generator that this crate is built with, one seed gives one sequence of
/// words; another version of the generator may give another.
pub uninterp spec fn seeded_word(seed: u64, index: nat) -> u32;

/// Calls `StdRng::seed_from_u64`. The contract claims that the words which the
/// new generator will yield are those that `seeded_word` names for the seed:
/// that they depend on the seed alone.
#[verifier::external_body]
fn seeded_rng(seed: u64) -> (rng: StdRng)
    ensures
        forall|k: nat| #[trigger] upcoming_word(rng, k) == seeded_word(seed, k),
{
    StdRng::seed_from_u64(seed)
}

/// Calls `RngExt::random::<u32>` on a `StdRng`, which takes the generator's
/// next 32-bit word. The contract claims that the result is the first of the
/// upcoming words, and that the generator has moved on by exactly that one
/// word.
#[verifier::external_body]
fn next_word(rng: &mut StdRng) -> (word: u32)
    ensures
        word == upcoming_word(*old(rng), 0),
        forall|k: nat| #[trigger] upcoming_word(*final(rng), k) == upcoming_word(*old(rng), k + 1),
{
    rng.random::<u32>()
}

/// Calls `rand::random::<u32>`, which takes a word from the thread's
/// generator. The contract claims nothing of the word. The call panics if the
/// operating system fails to seed the thread's generator.
#[verifier::external_body]
fn thread_word() -> (word: u32) {
    rand::random::<u32>()
}

/// A source of 32-bit words for weighted selection.
pub trait RandomSource {
    /// Whether the source is in a state from which it can be drawn.
    spec fn ready(&self) -> bool;

    /// Whether the source may yield `word` next and then be in state `after`.
    spec fn may_yield(&self, word: u32, after: &Self) -> bool;

    /// Draws the next word.
    fn draw(&mut self) -> (word: u32)
        requires
            old(self).ready(),
        ensures
            final(self).ready(),
            old(self).may_yield(word, final(self)),
    ;
}

/// A deterministic source: the words that follow from a seed.
pub struct SeededSource {
    rng: StdRng,
    seed: u64,
    drawn: Ghost<nat>,
}

impl SeededSource {
    /// The seed that the source was made with.
    pub closed spec fn seed(&self) -> u64 {
        self.seed
    }

    /// How many words were drawn from the source so far.
    pub closed spec fn drawn(&self) -> nat {
        self.drawn@
    }

    /// Makes the source for `seed`, with no word drawn yet.
    pub fn new(seed: u64) -> (source: SeededSource)
        ensures
            source.ready(),
            source.seed() == seed,
            source.drawn() == 0,
    {
        SeededSource { rng: seeded_rng(seed), seed, drawn: Ghost(0) }
    }
}

impl RandomSource for SeededSource {
    /// The generator inside the source stands where the seed and the number of
    /// words drawn say.
    closed spec fn ready(&self) -> bool {
        forall|k: nat| #[trigger]
            upcoming_word(self.rng, k) == seeded_word(self.seed, self.drawn@ + k)
    }

    /// The next word is the one that the seed fixes for this draw.
    open spec fn may_yield(&self, word: u32, after: &Self) -> bool {
        &&& word == seeded_word(self.seed(), self.drawn())
        &&& after.seed() == self.seed()
        &&& after.drawn() == self.drawn() + 1
    }

    fn draw(&mut self) -> (word: u32) {
        let word = next_word(&mut self.rng);
        proof {
            assert forall|k: nat| #[trigger]
                upcoming_word(self.rng, k) == seeded_word(self.seed, self.drawn@ + 1 + k) by {
                assert(upcoming_word(old(self).rng, k + 1) == seeded_word(
                    self.seed,
                    self.drawn@ + (k + 1),
                ));
            }
            self.drawn = Ghost((self.drawn@ + 1) as nat);
        }
        word
    }
}

/// A live source: words from the thread's generator. A draw fails, as running
/// out of memory does, if the operating system cannot seed that generator.
pub struct LiveSource {}

impl LiveSource {
    /// Makes a live source.
    pub fn new() -> (source: LiveSource)
        ensures
            source.ready(),
    {
        LiveSource {  }
    }
}

impl RandomSource for LiveSource {
    /// A live source is always ready.
    open spec fn ready(&self) -> bool {
        true
    }

    /// Any word may come next.
    open spec fn may_yield(&self, word: u32, after: &Self) -> bool {
        true
    }

    fn draw(&mut self) -> (word: u32) {
        thread_word()
    }
}

} // verus!
