//! From one generation to the next: parents are selected in pairs, crossed
//! and mutated as the tosses decide, and collected until the new generation
//! is full.

use vstd::prelude::*;
use crate::chromosome::{Chromosome, ChromosomeView};
use crate::config::{Config, Rate, SelectionMethod};
use crate::operators::{crossover_with, flipped, mutate_with, splice};
use crate::population::{empty_chromosome, is_evaluated_population, sum_values};
use crate::selection::{
    is_tournament_pick, is_wheel_pick, lemma_wheel_pick_is_member, proportional_selection,
    tournament_index, tournament_selection, wheel_pick, wheel_values, TOURNAMENT_SIZE,
};

verus! {

/// The draws that decide what becomes of one pair of parents.
pub struct PairDraws {
    /// Decides whether the pair is crossed.
    pub crossover_toss: u64,
    /// Places the cut of the crossover.
    pub cut: usize,
    /// Decides whether the first child is mutated.
    pub first_toss: u64,
    /// Places the mutation of the first child.
    pub first_site: usize,
    /// Decides whether the second child is mutated.
    pub second_toss: u64,
    /// Places the mutation of the second child.
    pub second_site: usize,
}

/// The genes of a pair after the crossover step: crossed at
/// `cut % size` where the toss succeeds, untouched where it does not.
pub open spec fn crossed(
    first: Seq<u32>,
    second: Seq<u32>,
    size: int,
    rate: Rate,
    toss: u64,
    cut: usize,
) -> (Seq<u32>, Seq<u32>) {
    if rate.admits(toss) {
        (
            splice(first, second, cut as int % size, size),
            splice(second, first, cut as int % size, size),
        )
    } else {
        (first, second)
    }
}

/// The genes of a child after the mutation step: one gene flipped at
/// `site % size` where the toss succeeds, untouched where it does not.
pub open spec fn mutated(genes: Seq<u32>, size: int, rate: Rate, toss: u64, site: usize) -> Seq<
    u32,
> {
    if rate.admits(toss) {
        flipped(genes, site as int % size)
    } else {
        genes
    }
}

/// The genes of the two children of a pair of parents: the pair goes
/// through the crossover step, then each child through a mutation step of
/// its own.
pub open spec fn recombined(
    first: Seq<u32>,
    second: Seq<u32>,
    config: Config,
    draws: PairDraws,
) -> (Seq<u32>, Seq<u32>) {
    let size = config.chromosome_size as int;
    let pair = crossed(first, second, size, config.crossover_rate, draws.crossover_toss, draws.cut);
    (
        mutated(pair.0, size, config.mutation_rate, draws.first_toss, draws.first_site),
        mutated(pair.1, size, config.mutation_rate, draws.second_toss, draws.second_site),
    )
}

/// `parent` is what the configured selection may return on `population`.
pub open spec fn is_pick(
    population: Seq<Chromosome>,
    config: Config,
    parent: ChromosomeView,
) -> bool {
    match config.selection {
        SelectionMethod::Proportional => is_wheel_pick(
            population,
            config.pop_size as int,
            parent,
        ),
        SelectionMethod::Tournament => is_tournament_pick(
            population,
            config.pop_size as int,
            parent,
        ),
    }
}

/// The pair `(first, second)` was bred from `population`: from two parents
/// that the configured selection may return, recombined as some draws
/// decide.
pub open spec fn bred_from(
    population: Seq<Chromosome>,
    config: Config,
    first: Seq<u32>,
    second: Seq<u32>,
) -> bool {
    exists|parent1: ChromosomeView, parent2: ChromosomeView, draws: PairDraws|
        {
            &&& is_pick(population, config, parent1)
            &&& is_pick(population, config, parent2)
            &&& #[trigger] recombined(parent1.genes, parent2.genes, config, draws) == (
                first,
                second,
            )
        }
}

/// The selection is proportional and the wheel has nothing on it.
pub open spec fn has_empty_wheel(population: Seq<Chromosome>, config: Config) -> bool {
    config.selection == SelectionMethod::Proportional && sum_values(
        wheel_values(population, config.pop_size as int),
    ) == 0
}

/// No parent can be selected from `population`: its chromosomes have no
/// genes, or the wheel of a proportional selection has nothing on it.
pub open spec fn is_barren(population: Seq<Chromosome>, config: Config) -> bool {
    config.chromosome_size == 0 || has_empty_wheel(population, config)
}

/// The member of `next` at `k` is the first child of a pair bred from
/// `population`, and the member after it, where there is one, is the second.
pub open spec fn opens_pair(
    population: Seq<Chromosome>,
    config: Config,
    next: Seq<Chromosome>,
    k: int,
) -> bool {
    exists|second: Seq<u32>|
        {
            &&& #[trigger] bred_from(population, config, next[k].genes@, second)
            &&& k + 1 < next.len() ==> next[k + 1].genes@ == second
        }
}

/// `next` is a generation bred from `population`: it is full, its members
/// come in pairs bred from two members of `population` each, and where the
/// size is odd the second child of the last pair is left out.
pub open spec fn is_generation_of(
    population: Seq<Chromosome>,
    config: Config,
    next: Seq<Chromosome>,
) -> bool {
    &&& next.len() == config.pop_size
    &&& forall|k: int|
        0 <= k < next.len() ==> (#[trigger] next[k]).well_formed() && next[k].genes@.len()
            == config.chromosome_size
    &&& forall|k: int|
        0 <= k < next.len() && k % 2 == 0 ==> #[trigger] opens_pair(population, config, next, k)
}

/// A generation stays a generation of its parents when its members are
/// replaced by chromosomes of the same genes: being bred speaks of genes
/// only, not of the cached fitness.
pub proof fn lemma_generation_by_genes(
    population: Seq<Chromosome>,
    config: Config,
    bred: Seq<Chromosome>,
    evaluated: Seq<Chromosome>,
)
    requires
        is_generation_of(population, config, bred),
        evaluated.len() == bred.len(),
        forall|k: int| 0 <= k < bred.len() ==> (#[trigger] evaluated[k]).genes@ == bred[k].genes@,
    ensures
        is_generation_of(population, config, evaluated),
{
    assert forall|k: int| 0 <= k < evaluated.len() implies (#[trigger] evaluated[k]).well_formed()
        && evaluated[k].genes@.len() == config.chromosome_size by {
        assert(bred[k].well_formed());
    }
    assert forall|k: int| 0 <= k < evaluated.len() && k % 2 == 0 implies #[trigger] opens_pair(
        population,
        config,
        evaluated,
        k,
    ) by {
        assert(opens_pair(population, config, bred, k));
        let second = choose|second: Seq<u32>|
            {
                &&& #[trigger] bred_from(population, config, bred[k].genes@, second)
                &&& k + 1 < bred.len() ==> bred[k + 1].genes@ == second
            };
        assert(evaluated[k].genes@ == bred[k].genes@);
        if k + 1 < bred.len() {
            assert(evaluated[k + 1].genes@ == bred[k + 1].genes@);
        }
        assert(bred_from(population, config, evaluated[k].genes@, second));
    }
}

/// Draws from the random source what decides the fate of one pair.
///
/// Each field is a draw of its own, and nothing is known of a draw: the
/// result may be any value of the type. What is made of it is stated by
/// [`recombine`], for every value that may come back.
fn draw_pair() -> (draws: PairDraws) {
    let crossover_toss = rand::random::<u64>();
    let cut = rand::random::<usize>();
    let first_toss = rand::random::<u64>();
    let first_site = rand::random::<usize>();
    let second_toss = rand::random::<u64>();
    let second_site = rand::random::<usize>();
    PairDraws { crossover_toss, cut, first_toss, first_site, second_toss, second_site }
}

/// Turns two parents into their two children, as `draws` decide.
///
/// The pair is crossed where the crossover toss succeeds; then each child is
/// mutated where its own toss succeeds. The cached fitness of both is left
/// as it was.
pub fn recombine(
    parent1: &mut Chromosome,
    parent2: &mut Chromosome,
    config: &Config,
    draws: &PairDraws,
)
    requires
        0 < config.chromosome_size,
        old(parent1).genes@.len() == config.chromosome_size,
        old(parent2).genes@.len() == config.chromosome_size,
    ensures
        (final(parent1).genes@, final(parent2).genes@) == recombined(
            old(parent1).genes@,
            old(parent2).genes@,
            *config,
            *draws,
        ),
        final(parent1).fitness == old(parent1).fitness,
        final(parent2).fitness == old(parent2).fitness,
        final(parent1).genes@.len() == config.chromosome_size,
        final(parent2).genes@.len() == config.chromosome_size,
        old(parent1).well_formed() && old(parent2).well_formed() ==> final(parent1).well_formed(),
        old(parent1).well_formed() && old(parent2).well_formed() ==> final(parent2).well_formed(),
{
    if config.crossover_rate.fires(draws.crossover_toss) {
        crossover_with(parent1, parent2, config.chromosome_size, draws.cut);
    }
    if config.mutation_rate.fires(draws.first_toss) {
        mutate_with(parent1, config.chromosome_size, draws.first_site);
    }
    if config.mutation_rate.fires(draws.second_toss) {
        mutate_with(parent2, config.chromosome_size, draws.second_site);
    }
}

/// A parent that the selection may return is a copy of one of the first
/// `config.pop_size` members, unless the selection is proportional and the
/// wheel is empty: then it is a chromosome without genes.
pub proof fn lemma_pick_is_member(
    population: Seq<Chromosome>,
    config: Config,
    parent: ChromosomeView,
)
    requires
        config.pop_size <= population.len(),
        forall|i: int| 0 <= i < config.pop_size ==> 0 <= (#[trigger] population[i]).fitness,
        is_pick(population, config, parent),
    ensures
        has_empty_wheel(population, config) ==> parent == empty_chromosome(),
        !has_empty_wheel(population, config) ==> exists|i: int|
            0 <= i < config.pop_size && parent == (#[trigger] population[i])@,
{
    match config.selection {
        SelectionMethod::Proportional => {
            if !has_empty_wheel(population, config) {
                lemma_wheel_pick_is_member(population, config.pop_size as int, parent);
            } else {
                let draw = choose|draw: u32|
                    parent == #[trigger] wheel_pick(population, config.pop_size as int, draw);
                assert(parent == wheel_pick(population, config.pop_size as int, draw));
            }
        },
        SelectionMethod::Tournament => {
            let draws = choose|draws: Seq<usize>|
                {
                    &&& draws.len() == TOURNAMENT_SIZE
                    &&& 0 <= #[trigger] tournament_index(
                        population,
                        config.pop_size as int,
                        draws,
                    ) < config.pop_size
                    &&& parent == population[tournament_index(
                        population,
                        config.pop_size as int,
                        draws,
                    )]@
                };
            assert(parent == population[tournament_index(
                population,
                config.pop_size as int,
                draws,
            )]@);
        },
    }
}

/// Selects one parent by the configured method, with draws from the random
/// source.
///
/// Whatever is drawn, the result is what that method may return: a copy of
/// one of the first `config.pop_size` members, or a chromosome without genes
/// where the method is proportional and the wheel is empty.
pub fn select_parent(population: &Vec<Chromosome>, config: &Config) -> (parent: Chromosome)
    requires
        0 < config.pop_size <= population@.len(),
        forall|i: int| 0 <= i < config.pop_size ==> 0 <= (#[trigger] population@[i]).fitness,
    ensures
        is_pick(population@, *config, parent@),
{
    match config.selection {
        SelectionMethod::Proportional => proportional_selection(population, config.pop_size),
        SelectionMethod::Tournament => tournament_selection(population, config.pop_size),
    }
}

/// Breeds the next generation from `population`.
///
/// Parents are selected two at a time and recombined into two children until
/// `config.pop_size` children are there; where that size is odd, the second
/// child of the last pair is dropped. The children carry the cached fitness
/// of the parents they were copied from, so they are stale.
///
/// There is no next generation where the population is not empty and no
/// parent can be selected from it. Another attempt would meet the same
/// population and fail in the same way, so none is made.
pub fn next_generation(population: &Vec<Chromosome>, config: &Config) -> (next: Option<
    Vec<Chromosome>,
>)
    requires
        config.well_formed(),
        population@.len() == config.pop_size,
        is_evaluated_population(population@, config.chromosome_size as int),
    ensures
        next is None <==> config.pop_size > 0 && is_barren(population@, *config),
        next is Some ==> is_generation_of(population@, *config, next->Some_0@),
{
    let mut buffer: Vec<Chromosome> = Vec::new();
    while buffer.len() < config.pop_size
        invariant
            config.well_formed(),
            population@.len() == config.pop_size,
            is_evaluated_population(population@, config.chromosome_size as int),
            buffer@.len() % 2 == 0,
            buffer@.len() <= config.pop_size + 1,
            buffer@.len() > 0 ==> !is_barren(population@, *config),
            forall|k: int|
                0 <= k < buffer@.len() ==> (#[trigger] buffer@[k]).well_formed()
                    && buffer@[k].genes@.len() == config.chromosome_size,
            forall|k: int|
                0 <= k < buffer@.len() && k % 2 == 0 ==> #[trigger] bred_from(
                    population@,
                    *config,
                    buffer@[k].genes@,
                    buffer@[k + 1].genes@,
                ),
        decreases config.pop_size + 1 - buffer@.len(),
    {
        assert forall|i: int| 0 <= i < config.pop_size implies 0 <= (
        #[trigger] population@[i]).fitness by {
            assert(population@[i].is_evaluated());
        }
        let mut parent1 = select_parent(population, config);
        let mut parent2 = select_parent(population, config);
        let ghost picked1 = parent1@;
        let ghost picked2 = parent2@;
        proof {
            lemma_pick_is_member(population@, *config, picked1);
            lemma_pick_is_member(population@, *config, picked2);
        }
        if parent1.genes.len() == 0 || parent2.genes.len() == 0 {
            proof {
                if !is_barren(population@, *config) {
                    let a = choose|i: int|
                        0 <= i < config.pop_size && parent1@ == (#[trigger] population@[i])@;
                    let b = choose|i: int|
                        0 <= i < config.pop_size && parent2@ == (#[trigger] population@[i])@;
                    assert(population@[a].genes@.len() == config.chromosome_size);
                    assert(population@[b].genes@.len() == config.chromosome_size);
                }
            }
            return None;
        }
        proof {
            if is_barren(population@, *config) {
                if config.chromosome_size == 0 {
                    let a = choose|i: int|
                        0 <= i < config.pop_size && parent1@ == (#[trigger] population@[i])@;
                    assert(population@[a].genes@.len() == config.chromosome_size);
                }
                assert(false);
            }
        }
        let ghost a = choose|i: int|
            0 <= i < config.pop_size && parent1@ == (#[trigger] population@[i])@;
        let ghost b = choose|i: int|
            0 <= i < config.pop_size && parent2@ == (#[trigger] population@[i])@;
        assert(population@[a].well_formed() && population@[a].genes@.len()
            == config.chromosome_size);
        assert(population@[b].well_formed() && population@[b].genes@.len()
            == config.chromosome_size);
        let draws = draw_pair();
        recombine(&mut parent1, &mut parent2, config, &draws);
        assert(recombined(picked1.genes, picked2.genes, *config, draws) == (
            parent1.genes@,
            parent2.genes@,
        ));
        assert(bred_from(population@, *config, parent1.genes@, parent2.genes@));
        let ghost before = buffer@;
        buffer.push(parent1);
        buffer.push(parent2);
        assert forall|k: int| 0 <= k < buffer@.len() && k % 2 == 0 implies #[trigger] bred_from(
            population@,
            *config,
            buffer@[k].genes@,
            buffer@[k + 1].genes@,
        ) by {
            if k < before.len() {
                assert(bred_from(population@, *config, before[k].genes@, before[k + 1].genes@));
            }
        }
    }
    let ghost full = buffer@;
    buffer.truncate(config.pop_size);
    proof {
        assert forall|k: int| 0 <= k < buffer@.len() && k % 2 == 0 implies #[trigger] opens_pair(
            population@,
            *config,
            buffer@,
            k,
        ) by {
            assert(bred_from(population@, *config, full[k].genes@, full[k + 1].genes@));
            assert(buffer@[k] == full[k]);
            if k + 1 < buffer@.len() {
                assert(buffer@[k + 1] == full[k + 1]);
            }
        }
    }
    Some(buffer)
}

} // verus!
