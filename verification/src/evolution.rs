//! The evolution driver: a state machine that starts a population, breeds
//! generation after generation, and stops when the best member meets the
//! target.

use vstd::prelude::*;
use crate::breeding::{is_barren, is_generation_of, lemma_generation_by_genes, next_generation};
use crate::chromosome::Chromosome;
use crate::config::Config;
use crate::population::{
    fitness_values, first_best, get_most_fit, get_population_stats, initialize_population,
    is_best_of, is_evaluated_population, lemma_best_is_max, lemma_max_unique,
    lemma_sum_between, sum_values, summarises, PopulationStats, EMPTY_MIN,
};

verus! {

/// Where a run stands.
#[derive(Clone, Copy, PartialEq, Eq, Structural)]
pub enum Phase {
    /// No population yet.
    Initializing,
    /// A population is there and its best member is below the target.
    Evolving,
    /// The best member meets the target.
    Converged,
}

/// What one step of the driver did.
#[derive(Clone, Copy, PartialEq, Eq, Structural)]
pub enum Progress {
    /// The first population was drawn and evaluated.
    Started,
    /// One generation was bred and took the place of the last.
    Evolved,
    /// Nothing was done: no parent can be selected from the population, or
    /// the generation counter is at its limit.
    Stalled,
    /// Nothing was done: the run had converged.
    Done,
}

/// How a bounded run ended.
#[derive(Clone, Copy, PartialEq, Eq, Structural)]
pub enum Outcome {
    /// The best member meets the target.
    Converged,
    /// The generation limit was reached first.
    DidNotConverge,
    /// The run could not go on: see [`Progress::Stalled`].
    Stalled,
}

/// The state of a run.
pub struct Evolution {
    /// What the run was configured with.
    pub config: Config,
    /// Where the run stands.
    pub phase: Phase,
    /// The current generation, every member evaluated.
    pub population: Vec<Chromosome>,
    /// The number of generations bred so far.
    pub generation: u64,
    /// A copy of the best member of the current generation.
    pub best: Chromosome,
    /// The figures of the current generation.
    pub stats: PopulationStats,
}

impl Evolution {
    /// The state is consistent: before the start there is no population;
    /// from then on the population is full and evaluated, `best` and `stats`
    /// describe it, and the phase says whether the best meets the target.
    pub open spec fn well_formed(&self) -> bool {
        &&& self.config.well_formed()
        &&& self.phase == Phase::Initializing ==> self.population@.len() == 0 && self.generation
            == 0
        &&& self.phase != Phase::Initializing ==> {
            &&& self.population@.len() == self.config.pop_size
            &&& is_evaluated_population(self.population@, self.config.chromosome_size as int)
            &&& is_best_of(self.best@, self.population@)
            &&& summarises(self.stats, fitness_values(self.population@))
            &&& (self.phase == Phase::Converged <==> self.best.fitness
                >= self.config.target_fitness)
        }
    }

    /// A step from this state would do nothing although the run has not
    /// converged.
    pub open spec fn is_stuck(&self) -> bool {
        ||| self.config.pop_size > 0 && is_barren(self.population@, self.config)
        ||| self.generation == u64::MAX
    }

    /// A run that has not started.
    pub fn new(config: Config) -> (evolution: Evolution)
        requires
            config.well_formed(),
        ensures
            evolution.well_formed(),
            evolution.config == config,
            evolution.phase == Phase::Initializing,
            evolution.generation == 0,
    {
        Evolution {
            config,
            phase: Phase::Initializing,
            population: Vec::new(),
            generation: 0,
            best: Chromosome::new(),
            stats: PopulationStats { total: 0, count: 0, min: EMPTY_MIN, max: 0 },
        }
    }

    /// A run that starts from a given population, at generation 0.
    ///
    /// The members are evaluated here, whatever fitness they came with.
    /// There is no such run where the population is not of the configured
    /// size, or a member is not of the configured length or holds a gene
    /// other than 0 and 1.
    pub fn with_population(config: Config, population: Vec<Chromosome>) -> (evolution: Option<
        Evolution,
    >)
        requires
            config.well_formed(),
        ensures
            evolution is Some <==> {
                &&& population@.len() == config.pop_size
                &&& forall|i: int|
                    0 <= i < population@.len() ==> (#[trigger] population@[i]).well_formed()
                        && population@[i].genes@.len() == config.chromosome_size
            },
            evolution is Some ==> {
                let e = evolution->Some_0;
                &&& e.well_formed()
                &&& e.config == config
                &&& e.phase != Phase::Initializing
                &&& e.generation == 0
                &&& forall|i: int|
                    0 <= i < population@.len() ==> (#[trigger] e.population@[i]).genes@
                        == population@[i].genes@
            },
    {
        if population.len() != config.pop_size {
            return None;
        }
        let mut i: usize = 0;
        while i < population.len()
            invariant
                i <= population@.len(),
                forall|j: int|
                    0 <= j < i ==> (#[trigger] population@[j]).well_formed()
                        && population@[j].genes@.len() == config.chromosome_size,
            decreases population@.len() - i,
        {
            if population[i].genes.len() != config.chromosome_size
                || !population[i].has_binary_genes() {
                return None;
            }
            i += 1;
        }
        let mut evolution = Evolution::new(config);
        evolution.settle(population);
        Some(evolution)
    }

    /// Takes `population` as the current generation: evaluates it, records
    /// its best member and its figures, and sets the phase by the target.
    fn settle(&mut self, population: Vec<Chromosome>)
        requires
            old(self).config.well_formed(),
            population@.len() == old(self).config.pop_size,
            forall|i: int|
                0 <= i < population@.len() ==> (#[trigger] population@[i]).well_formed()
                    && population@[i].genes@.len() == old(self).config.chromosome_size,
        ensures
            final(self).well_formed(),
            final(self).config == old(self).config,
            final(self).generation == old(self).generation,
            final(self).phase != Phase::Initializing,
            forall|i: int|
                0 <= i < population@.len() ==> (#[trigger] final(self).population@[i]).genes@
                    == population@[i].genes@,
    {
        self.population = population;
        self.best = get_most_fit(&mut self.population);
        self.stats = get_population_stats(&self.population);
        self.phase = if self.best.fitness >= self.config.target_fitness {
            Phase::Converged
        } else {
            Phase::Evolving
        };
    }

    /// Whether the best member meets the target.
    pub fn has_converged(&self) -> (converged: bool)
        ensures
            converged == (self.phase == Phase::Converged),
    {
        self.phase == Phase::Converged
    }

    /// One step of the run.
    ///
    /// Before the start, the first population is drawn and evaluated. While
    /// the run evolves, one generation is bred, takes the place of the
    /// current one and is evaluated, and the generation counter goes up by
    /// one. After either, `best` and `stats` describe the new population and
    /// the run has converged if the best member meets the target. A run
    /// that has converged, or that is stuck, is left as it is.
    pub fn advance(&mut self) -> (progress: Progress)
        requires
            old(self).well_formed(),
        ensures
            final(self).well_formed(),
            final(self).config == old(self).config,
            old(self).phase == Phase::Initializing ==> {
                &&& progress == Progress::Started
                &&& final(self).phase != Phase::Initializing
                &&& final(self).generation == 0
            },
            old(self).phase == Phase::Converged ==> {
                &&& progress == Progress::Done
                &&& *final(self) == *old(self)
            },
            old(self).phase == Phase::Evolving && old(self).is_stuck() ==> {
                &&& progress == Progress::Stalled
                &&& *final(self) == *old(self)
            },
            old(self).phase == Phase::Evolving && !old(self).is_stuck() ==> {
                &&& progress == Progress::Evolved
                &&& final(self).phase != Phase::Initializing
                &&& final(self).generation == old(self).generation + 1
                &&& is_generation_of(
                    old(self).population@,
                    old(self).config,
                    final(self).population@,
                )
            },
            is_step(*old(self), *final(self)),
    {
        match self.phase {
            Phase::Converged => Progress::Done,
            Phase::Initializing => {
                let population = initialize_population(
                    self.config.pop_size,
                    self.config.chromosome_size,
                );
                self.settle(population);
                Progress::Started
            },
            Phase::Evolving => {
                if self.generation == u64::MAX {
                    return Progress::Stalled;
                }
                match next_generation(&self.population, &self.config) {
                    None => Progress::Stalled,
                    Some(next) => {
                        let ghost bred = next@;
                        self.settle(next);
                        self.generation = self.generation + 1;
                        proof {
                            lemma_generation_by_genes(
                                old(self).population@,
                                old(self).config,
                                bred,
                                self.population@,
                            );
                        }
                        Progress::Evolved
                    },
                }
            },
        }
    }

    /// Steps until the run has converged, has bred `max_generations`
    /// generations in all, or is stuck. A run that has not started is
    /// started first, whatever the limit.
    ///
    /// The state at the end is reached from the state at the start by steps
    /// of [`Evolution::advance`] and by nothing else.
    pub fn run(&mut self, max_generations: u64) -> (outcome: Outcome)
        requires
            old(self).well_formed(),
        ensures
            final(self).well_formed(),
            final(self).config == old(self).config,
            final(self).phase != Phase::Initializing,
            old(self).generation <= final(self).generation,
            final(self).generation <= old(self).generation || final(self).generation
                <= max_generations,
            old(self).phase == Phase::Converged ==> *final(self) == *old(self),
            outcome == Outcome::Converged <==> final(self).phase == Phase::Converged,
            outcome == Outcome::DidNotConverge ==> final(self).generation >= max_generations,
            outcome == Outcome::Stalled ==> final(self).generation < max_generations
                && final(self).is_stuck(),
            exists|steps: nat| reaches(*old(self), *final(self), steps),
    {
        let ghost mut steps: nat = 0;
        loop
            invariant
                self.well_formed(),
                reaches(*old(self), *self, steps),
                self.config == old(self).config,
                old(self).generation <= self.generation,
                self.generation <= old(self).generation || self.generation <= max_generations,
                old(self).phase == Phase::Converged ==> *self == *old(self),
            decreases
                    (if self.phase == Phase::Initializing {
                        1int
                    } else {
                        0int
                    }) + (if self.generation < max_generations {
                        max_generations - self.generation
                    } else {
                        0int
                    }),
        {
            match self.phase {
                Phase::Converged => {
                    return Outcome::Converged;
                },
                Phase::Evolving => {
                    if self.generation >= max_generations {
                        return Outcome::DidNotConverge;
                    }
                },
                Phase::Initializing => {},
            }
            let ghost before = *self;
            let progress = self.advance();
            proof {
                lemma_reaches_one_more(*old(self), before, *self, steps);
                steps = steps + 1;
            }
            if progress == Progress::Stalled {
                return Outcome::Stalled;
            }
        }
    }
}

/// `after` is what one step may make of `before`.
///
/// A run that has not started gets its first population, at generation 0. A
/// run that evolves gets a generation bred from the current one, and its
/// counter goes up by one. A run that has converged or is stuck stays as it
/// is.
pub open spec fn is_step(before: Evolution, after: Evolution) -> bool {
    &&& before.well_formed()
    &&& after.well_formed()
    &&& after.config == before.config
    &&& match before.phase {
        Phase::Initializing => after.phase != Phase::Initializing && after.generation == 0,
        Phase::Converged => after == before,
        Phase::Evolving => if before.is_stuck() {
            after == before
        } else {
            &&& after.phase != Phase::Initializing
            &&& after.generation == before.generation + 1
            &&& is_generation_of(before.population@, before.config, after.population@)
        },
    }
}

/// `after` is reached from `before` in `steps` steps.
pub open spec fn reaches(before: Evolution, after: Evolution, steps: nat) -> bool
    decreases steps,
{
    if steps == 0 {
        after == before
    } else {
        exists|mid: Evolution| #[trigger]
            is_step(before, mid) && reaches(mid, after, (steps - 1) as nat)
    }
}

/// One more step at the end of a path makes a path that is one step longer.
pub proof fn lemma_reaches_one_more(
    before: Evolution,
    mid: Evolution,
    after: Evolution,
    steps: nat,
)
    requires
        reaches(before, mid, steps),
        is_step(mid, after),
    ensures
        reaches(before, after, steps + 1),
    decreases steps,
{
    if steps == 0 {
        assert(is_step(before, after) && reaches(after, after, 0));
    } else {
        let next = choose|next: Evolution| #[trigger]
            is_step(before, next) && reaches(next, mid, (steps - 1) as nat);
        lemma_reaches_one_more(next, mid, after, (steps - 1) as nat);
        assert(is_step(before, next) && reaches(next, after, steps));
    }
}

/// A run whose target is 0 or less has converged as soon as it has started:
/// no fitness is negative. So a run over chromosomes without genes, whose
/// target is their length, converges at generation 0.
pub proof fn lemma_converged_at_start(evolution: Evolution)
    requires
        evolution.well_formed(),
        evolution.phase != Phase::Initializing,
        evolution.config.target_fitness <= 0,
    ensures
        evolution.phase == Phase::Converged,
{
    let values = fitness_values(evolution.population@);
    if values.len() > 0 {
        lemma_best_is_max(values);
        let best = first_best(values);
        assert(evolution.population@[best].is_evaluated());
    }
}

/// The figures of a single member coincide: its fitness is the least, the
/// greatest and the total.
pub proof fn lemma_single_member_statistics(stats: PopulationStats, values: Seq<int>)
    requires
        summarises(stats, values),
        values.len() == 1,
    ensures
        stats.min == values[0],
        stats.max == values[0],
        stats.total == values[0],
        stats.count == 1,
{
    assert(values.drop_last() =~= Seq::<int>::empty());
    assert(sum_values(values.drop_last()) == 0);
}

/// The figures of a generation are in order: the greatest fitness is the
/// fitness of the best member and, where the generation has a member, the
/// mean fitness, `total / count`, lies between the least and the greatest.
pub proof fn lemma_statistics_in_order(evolution: Evolution)
    requires
        evolution.well_formed(),
        evolution.phase != Phase::Initializing,
    ensures
        evolution.stats.max == evolution.best.fitness,
        evolution.population@.len() > 0 ==> {
            &&& evolution.stats.min * evolution.stats.count <= evolution.stats.total
            &&& evolution.stats.total <= evolution.stats.max * evolution.stats.count
            &&& evolution.stats.min <= evolution.stats.max
        },
{
    let values = fitness_values(evolution.population@);
    if values.len() > 0 {
        lemma_sum_between(values, evolution.stats.min as int, evolution.stats.max as int);
        lemma_best_is_max(values);
        lemma_max_unique(values, values[first_best(values)], evolution.stats.max as int);
        assert(values[0] <= evolution.stats.max);
        assert(evolution.stats.min <= values[0]);
    }
}

} // verus!
