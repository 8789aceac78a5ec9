//! The source of chance that the stages of the pipeline consult.
//!
//! A draw is a whole number below [`RESOLUTION`], read as that many
//! thousandths: a sample of the interval from zero (included) to one (not
//! included). A [`Dice`] holds the draws to come, so that a run is a function
//! of them. Once they are used up, every further draw is [`STEADY`].

use rand::Rng;
use vstd::prelude::*;

verus! {

/// The number of values a draw can take.
pub const RESOLUTION: u32 = 1000;

/// The draw in the middle of the range. It is below none of the thresholds
/// of the lexer, the parser and the interpreter, and it distorts no value.
pub const STEADY: u32 = 500;

/// The draw that a source with `draws` to come hands out next.
pub open spec fn first_draw(draws: Seq<u32>) -> u32 {
    if draws.len() > 0 {
        draws[0]
    } else {
        STEADY
    }
}

/// What is to come after the next draw was handed out.
pub open spec fn later_draws(draws: Seq<u32>) -> Seq<u32> {
    if draws.len() > 0 {
        draws.skip(1)
    } else {
        draws
    }
}

/// Every draw is below [`RESOLUTION`].
pub open spec fn draws_in_range(draws: Seq<u32>) -> bool {
    forall|i: int| 0 <= i < draws.len() ==> #[trigger] draws[i] < RESOLUTION
}

/// A source of chance: the draws to come, in the order in which they will be
/// handed out.
pub struct Dice {
    draws: Vec<u32>,
    next: usize,
}

impl View for Dice {
    type V = Seq<u32>;

    /// The draws to come.
    closed spec fn view(&self) -> Seq<u32> {
        self.draws@.skip(self.next as int)
    }
}

/// `rand::rngs::ThreadRng`, a handle on the random generator of a thread.
/// Nothing of what it holds is known here.
#[verifier::external_type_specification]
#[verifier::external_body]
pub struct ExThreadRng(rand::rngs::ThreadRng);

/// `rand::thread_rng` hands out the random generator of the current thread,
/// which the system seeds. Nothing is claimed of the generator. The call
/// panics where the system cannot seed it, whatever the caller does.
pub assume_specification[ rand::thread_rng ]() -> (generator: rand::rngs::ThreadRng)
;

/// `rand::Rng::gen_range` with the range from zero to `bound`, `bound` not
/// included. The result lies in that range; nothing else is claimed of it.
/// An empty range makes `gen_range` panic, so `bound` is not zero. The call
/// also panics where the generator, due for new seed, cannot get it from the
/// system: no condition on the arguments excludes that.
#[verifier::external_body]
fn uniform_below(generator: &mut rand::rngs::ThreadRng, bound: u32) -> (draw: u32)
    requires
        bound > 0,
    ensures
        draw < bound,
{
    generator.gen_range(0..bound)
}

impl Dice {
    #[verifier::type_invariant]
    spec fn well_formed(self) -> bool {
        &&& self.next <= self.draws@.len()
        &&& draws_in_range(self.draws@)
    }

    /// A source that hands out `draws`, first to last.
    pub fn scripted(draws: Vec<u32>) -> (dice: Dice)
        requires
            draws_in_range(draws@),
        ensures
            dice@ == draws@,
    {
        let dice = Dice { draws, next: 0 };
        assert(dice.draws@.skip(0) =~= dice.draws@);
        dice
    }

    /// A source with nothing to come: every draw is [`STEADY`].
    pub fn steady() -> (dice: Dice)
        ensures
            dice@ == Seq::<u32>::empty(),
    {
        let dice = Dice { draws: Vec::new(), next: 0 };
        assert(dice.draws@.skip(0) =~= dice.draws@);
        dice
    }

    /// A source with `count` draws to come, each of them taken from the
    /// random generator of the current thread.
    pub fn live(count: usize) -> (dice: Dice)
        ensures
            dice@.len() == count,
            draws_in_range(dice@),
    {
        let mut generator = rand::thread_rng();
        let mut draws: Vec<u32> = Vec::new();
        while draws.len() < count
            invariant
                draws@.len() <= count,
                draws_in_range(draws@),
            decreases count - draws@.len(),
        {
            let draw = uniform_below(&mut generator, RESOLUTION);
            draws.push(draw);
        }
        let dice = Dice { draws, next: 0 };
        assert(dice.draws@.skip(0) =~= dice.draws@);
        dice
    }

    /// How many draws are still to come.
    pub fn remaining(&self) -> (count: usize)
        ensures
            count == self@.len(),
    {
        proof {
            use_type_invariant(self);
        }
        self.draws.len() - self.next
    }

    /// Hands out the next draw.
    pub fn roll(&mut self) -> (draw: u32)
        ensures
            draw == first_draw(old(self)@),
            final(self)@ == later_draws(old(self)@),
            draw < RESOLUTION,
    {
        proof {
            use_type_invariant(&*self);
        }
        if self.next < self.draws.len() {
            let draw = self.draws[self.next];
            self.next = self.next + 1;
            assert(self.draws@.skip(self.next as int) =~= old(self).draws@.skip(
                old(self).next as int,
            ).skip(1));
            draw
        } else {
            STEADY
        }
    }

    /// Hands out the next draw and tells whether it is below `threshold`.
    pub fn below(&mut self, threshold: u32) -> (hit: bool)
        ensures
            hit == (first_draw(old(self)@) < threshold),
            final(self)@ == later_draws(old(self)@),
    {
        let draw = self.roll();
        draw < threshold
    }
}

} // verus!
