//! The configuration of a run: sizes, operator rates, selection method and
//! target.

use vstd::prelude::*;

verus! {

/// The number of equal steps into which the unit interval is cut: 2^53.
pub const RATE_STEPS: u64 = 9007199254740992;

/// What a 64-bit draw is divided by to leave its upper 53 bits: 2^11.
pub const DRAW_SCALE: u64 = 2048;

/// A probability, held as a whole number of steps of 2^-53.
///
/// A toss at rate `steps` succeeds on a 64-bit draw when the upper 53 bits of
/// the draw, read as a number, are below `steps`. On a uniform draw it
/// succeeds with probability `steps / 2^53`, or always where `steps` is 2^53
/// or more.
#[derive(Clone, Copy)]
pub struct Rate {
    pub steps: u64,
}

impl Rate {
    /// A toss at this rate succeeds on `draw`.
    pub open spec fn admits(&self, draw: u64) -> bool {
        draw / DRAW_SCALE < self.steps
    }

    /// The rate 0: no toss succeeds.
    pub fn never() -> (rate: Rate)
        ensures
            rate.steps == 0,
            forall|draw: u64| !rate.admits(draw),
    {
        Rate { steps: 0 }
    }

    /// The rate 1: every toss succeeds.
    pub fn always() -> (rate: Rate)
        ensures
            rate.steps == RATE_STEPS,
            forall|draw: u64| rate.admits(draw),
    {
        Rate { steps: RATE_STEPS }
    }

    /// The rate of `steps` steps of 2^-53.
    pub fn from_steps(steps: u64) -> (rate: Rate)
        ensures
            rate.steps == steps,
    {
        Rate { steps }
    }

    /// Whether a toss at this rate succeeds on `draw`.
    pub fn fires(&self, draw: u64) -> (fired: bool)
        ensures
            fired == self.admits(draw),
    {
        draw / DRAW_SCALE < self.steps
    }
}

/// How parents are chosen.
#[derive(Clone, Copy, PartialEq, Eq, Structural)]
pub enum SelectionMethod {
    /// Roulette wheel: a member is chosen in proportion to its fitness.
    Proportional,
    /// The fittest of a few members drawn at random.
    Tournament,
}

impl SelectionMethod {
    /// The method that a numeric code stands for: 0 is proportional, every
    /// other code is tournament.
    pub fn from_code(code: i8) -> (method: SelectionMethod)
        ensures
            code == 0 ==> method == SelectionMethod::Proportional,
            code != 0 ==> method == SelectionMethod::Tournament,
    {
        if code == 0 {
            SelectionMethod::Proportional
        } else {
            SelectionMethod::Tournament
        }
    }
}

/// What is fixed for the length of a run.
#[derive(Clone, Copy)]
pub struct Config {
    /// The number of members of every generation.
    pub pop_size: usize,
    /// The number of genes of every chromosome.
    pub chromosome_size: usize,
    /// The rate at which a pair of parents is crossed.
    pub crossover_rate: Rate,
    /// The rate at which a child is mutated.
    pub mutation_rate: Rate,
    /// How parents are chosen.
    pub selection: SelectionMethod,
    /// The fitness at which the run has converged.
    pub target_fitness: i32,
}

impl Config {
    /// A fitness of `chromosome_size` can be held in the cached fitness.
    pub open spec fn well_formed(&self) -> bool {
        self.chromosome_size <= i32::MAX
    }

    /// The configuration of a run towards the all-ones string: the target is
    /// the chromosome length. There is none where that length cannot be a
    /// fitness.
    pub fn new(
        pop_size: usize,
        selection: SelectionMethod,
        crossover_rate: Rate,
        mutation_rate: Rate,
        chromosome_size: usize,
    ) -> (config: Option<Config>)
        ensures
            config is Some <==> chromosome_size <= i32::MAX,
            config is Some ==> {
                let c = config->Some_0;
                &&& c.well_formed()
                &&& c.pop_size == pop_size
                &&& c.chromosome_size == chromosome_size
                &&& c.crossover_rate == crossover_rate
                &&& c.mutation_rate == mutation_rate
                &&& c.selection == selection
                &&& c.target_fitness == chromosome_size
            },
    {
        if chromosome_size > 2147483647 {
            return None;
        }
        Some(
            Config {
                pop_size,
                chromosome_size,
                crossover_rate,
                mutation_rate,
                selection,
                target_fitness: chromosome_size as i32,
            },
        )
    }
}

} // verus!
