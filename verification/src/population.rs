//! Populations: how one is first filled, which member is its best, and the
//! figures that summarise a generation.

use vstd::prelude::*;
use crate::chromosome::{count_ones, Chromosome, ChromosomeView};

verus! {

/// The figures that summarise one generation.
///
/// The mean fitness is `total / count`; it is kept as the two integers so
/// that nothing is rounded here.
pub struct PopulationStats {
    /// The sum of the members' cached fitness.
    pub total: i128,
    /// The number of members.
    pub count: usize,
    /// The least cached fitness, or [`EMPTY_MIN`] where there is no member.
    pub min: i64,
    /// The greatest cached fitness, or 0 where there is no member.
    pub max: i64,
}

/// What [`PopulationStats::min`] holds for a population without members.
pub const EMPTY_MIN: i64 = 10000;

/// The cached fitness of each member, in population order.
pub open spec fn fitness_values(population: Seq<Chromosome>) -> Seq<int> {
    Seq::new(population.len(), |i: int| population[i].fitness as int)
}

/// The sum of `values`.
pub open spec fn sum_values(values: Seq<int>) -> int
    decreases values.len(),
{
    if values.len() == 0 {
        0
    } else {
        sum_values(values.drop_last()) + values.last()
    }
}

/// `i` is the position of the best value: no value is greater, and every
/// value before it is smaller.
pub open spec fn is_first_best(values: Seq<int>, i: int) -> bool {
    &&& 0 <= i < values.len()
    &&& forall|j: int| 0 <= j < values.len() ==> #[trigger] values[j] <= values[i]
    &&& forall|j: int| 0 <= j < i ==> #[trigger] values[j] < values[i]
}

/// The position of the first greatest value of a sequence that is not empty.
pub open spec fn first_best(values: Seq<int>) -> int {
    choose|i: int| is_first_best(values, i)
}

/// `m` is the least of `values`.
pub open spec fn is_min(values: Seq<int>, m: int) -> bool {
    &&& exists|i: int| 0 <= i < values.len() && #[trigger] values[i] == m
    &&& forall|j: int| 0 <= j < values.len() ==> m <= #[trigger] values[j]
}

/// `m` is the greatest of `values`.
pub open spec fn is_max(values: Seq<int>, m: int) -> bool {
    &&& exists|i: int| 0 <= i < values.len() && #[trigger] values[i] == m
    &&& forall|j: int| 0 <= j < values.len() ==> #[trigger] values[j] <= m
}

/// The genes that a sequence of draws stands for: the parity of each draw.
pub open spec fn genes_of_draws(draws: Seq<u32>) -> Seq<u32> {
    Seq::new(draws.len(), |i: int| (draws[i] % 2) as u32)
}

/// The value of a chromosome without genes.
pub open spec fn empty_chromosome() -> ChromosomeView {
    ChromosomeView { genes: Seq::<u32>::empty(), fitness: 0 }
}

/// `best` is the best of `population`: the first member of greatest cached
/// fitness, or a chromosome without genes where there is no member.
pub open spec fn is_best_of(best: ChromosomeView, population: Seq<Chromosome>) -> bool {
    &&& population.len() == 0 ==> best == empty_chromosome()
    &&& population.len() > 0 ==> best == population[first_best(fitness_values(population))]@
}

/// `stats` holds the sum, the number, the least and the greatest of `values`.
pub open spec fn summarises(stats: PopulationStats, values: Seq<int>) -> bool {
    &&& stats.count == values.len()
    &&& stats.total == sum_values(values)
    &&& values.len() == 0 ==> stats.min == EMPTY_MIN && stats.max == 0
    &&& values.len() > 0 ==> is_min(values, stats.min as int) && is_max(values, stats.max as int)
}

/// Every member is well formed, `chromosome_size` genes long, and carries a
/// current fitness.
pub open spec fn is_evaluated_population(
    population: Seq<Chromosome>,
    chromosome_size: int,
) -> bool {
    forall|i: int|
        0 <= i < population.len() ==> {
            &&& (#[trigger] population[i]).well_formed()
            &&& population[i].is_evaluated()
            &&& population[i].genes@.len() == chromosome_size
        }
}

/// Two positions that are both the first best are one position.
pub proof fn lemma_first_best_unique(values: Seq<int>, i: int, j: int)
    requires
        is_first_best(values, i),
        is_first_best(values, j),
    ensures
        i == j,
{
    if i < j {
        assert(values[i] < values[j]);
        assert(values[j] <= values[i]);
    } else if j < i {
        assert(values[j] < values[i]);
        assert(values[i] <= values[j]);
    }
}

/// A sequence that is not empty has a first best position.
pub proof fn lemma_first_best_exists(values: Seq<int>)
    requires
        values.len() > 0,
    ensures
        is_first_best(values, first_best(values)),
    decreases values.len(),
{
    if values.len() == 1 {
        assert(is_first_best(values, 0));
    } else {
        let front = values.drop_last();
        lemma_first_best_exists(front);
        let b = first_best(front);
        assert(forall|j: int| 0 <= j < front.len() ==> front[j] == values[j]);
        if values.last() > values[b] {
            assert forall|j: int| 0 <= j < values.len() implies #[trigger] values[j]
                <= values.last() by {
                if j < front.len() {
                    assert(front[j] <= front[b]);
                }
            }
            assert forall|j: int| 0 <= j < values.len() - 1 implies #[trigger] values[j]
                < values.last() by {
                assert(front[j] <= front[b]);
            }
            assert(is_first_best(values, values.len() - 1));
        } else {
            assert forall|j: int| 0 <= j < values.len() implies #[trigger] values[j]
                <= values[b] by {
                if j < front.len() {
                    assert(front[j] <= front[b]);
                }
            }
            assert forall|j: int| 0 <= j < b implies #[trigger] values[j] < values[b] by {
                assert(front[j] < front[b]);
            }
            assert(is_first_best(values, b));
        }
    }
}

/// The best member's fitness is the greatest fitness of the population.
pub proof fn lemma_best_is_max(values: Seq<int>)
    requires
        values.len() > 0,
    ensures
        0 <= first_best(values) < values.len(),
        is_max(values, values[first_best(values)]),
{
    lemma_first_best_exists(values);
}

/// The greatest of a sequence is one value: two that both are greatest are equal.
pub proof fn lemma_max_unique(values: Seq<int>, a: int, b: int)
    requires
        is_max(values, a),
        is_max(values, b),
    ensures
        a == b,
{
    let i = choose|i: int| 0 <= i < values.len() && #[trigger] values[i] == a;
    let j = choose|j: int| 0 <= j < values.len() && #[trigger] values[j] == b;
    assert(values[i] <= b);
    assert(values[j] <= a);
}

/// A sum lies between its length times a lower bound of the values and its
/// length times an upper bound: the mean lies between the two bounds.
pub proof fn lemma_sum_between(values: Seq<int>, low: int, high: int)
    requires
        forall|j: int| 0 <= j < values.len() ==> low <= #[trigger] values[j] <= high,
    ensures
        low * values.len() <= sum_values(values) <= high * values.len(),
    decreases values.len(),
{
    if values.len() > 0 {
        let front = values.drop_last();
        assert(forall|j: int| 0 <= j < front.len() ==> front[j] == values[j]);
        lemma_sum_between(front, low, high);
        assert(low <= values[values.len() - 1] <= high);
        assert(low * values.len() == low * front.len() + low) by (nonlinear_arith)
            requires
                values.len() == front.len() + 1,
        ;
        assert(high * values.len() == high * front.len() + high) by (nonlinear_arith)
            requires
                values.len() == front.len() + 1,
        ;
    }
}

/// A chromosome whose genes are the parities of `draws`, evaluated.
pub fn chromosome_from_draws(draws: &Vec<u32>) -> (c: Chromosome)
    requires
        draws@.len() <= i32::MAX,
    ensures
        c.genes@ == genes_of_draws(draws@),
        c.fitness == count_ones(genes_of_draws(draws@)),
        c.well_formed(),
        c.is_evaluated(),
{
    let mut genes: Vec<u32> = Vec::new();
    let mut i: usize = 0;
    while i < draws.len()
        invariant
            i <= draws@.len(),
            genes@ == genes_of_draws(draws@.take(i as int)),
        decreases draws@.len() - i,
    {
        genes.push(draws[i] % 2);
        i += 1;
        assert(genes@ =~= genes_of_draws(draws@.take(i as int)));
    }
    assert(draws@.take(i as int) =~= draws@);
    let mut c = Chromosome::new();
    c.set_genes(genes);
    c.calculate_fitness();
    c
}

/// A population of `pop_size` chromosomes of `chromosome_size` genes each,
/// every gene the parity of a draw of its own from the random source, and
/// every member evaluated. Members may repeat.
pub fn initialize_population(pop_size: usize, chromosome_size: usize) -> (population: Vec<
    Chromosome,
>)
    requires
        chromosome_size <= i32::MAX,
    ensures
        population@.len() == pop_size,
        is_evaluated_population(population@, chromosome_size as int),
{
    let mut population: Vec<Chromosome> = Vec::new();
    let mut n: usize = 0;
    while n < pop_size
        invariant
            n <= pop_size,
            chromosome_size <= i32::MAX,
            population@.len() == n,
            is_evaluated_population(population@, chromosome_size as int),
        decreases pop_size - n,
    {
        let mut draws: Vec<u32> = Vec::new();
        let mut i: usize = 0;
        while i < chromosome_size
            invariant
                i <= chromosome_size,
                draws@.len() == i,
            decreases chromosome_size - i,
        {
            draws.push(rand::random::<u32>());
            i += 1;
        }
        let c = chromosome_from_draws(&draws);
        population.push(c);
        n += 1;
    }
    population
}

/// Re-evaluates every member and returns a copy of the best one: the first
/// member of greatest fitness. A population without members has no best; the
/// result is then a chromosome without genes.
pub fn get_most_fit(population: &mut Vec<Chromosome>) -> (best: Chromosome)
    requires
        forall|i: int|
            0 <= i < old(population)@.len() ==> (#[trigger] old(population)@[i]).well_formed()
                && old(population)@[i].genes@.len() <= i32::MAX,
    ensures
        final(population)@.len() == old(population)@.len(),
        forall|i: int|
            0 <= i < old(population)@.len() ==> {
                &&& (#[trigger] final(population)@[i]).genes@ == old(population)@[i].genes@
                &&& final(population)@[i].well_formed()
                &&& final(population)@[i].is_evaluated()
            },
        is_best_of(best@, final(population)@),
{
    let n = population.len();
    if n == 0 {
        return Chromosome::new();
    }
    let mut i: usize = 0;
    while i < n
        invariant
            i <= n,
            n == population@.len(),
            n == old(population)@.len(),
            forall|j: int|
                0 <= j < n ==> (#[trigger] population@[j]).genes@ == old(population)@[j].genes@,
            forall|j: int|
                0 <= j < n ==> (#[trigger] old(population)@[j]).well_formed() && old(
                    population,
                )@[j].genes@.len() <= i32::MAX,
            forall|j: int| 0 <= j < i ==> (#[trigger] population@[j]).is_evaluated(),
        decreases n - i,
    {
        population[i].calculate_fitness();
        i += 1;
    }
    let ghost values = fitness_values(population@);
    let mut top: usize = 0;
    let mut k: usize = 1;
    assert(is_first_best(values.take(1), 0));
    while k < n
        invariant
            1 <= k <= n,
            n == population@.len(),
            values == fitness_values(population@),
            is_first_best(values.take(k as int), top as int),
        decreases n - k,
    {
        if population[k].fitness > population[top].fitness {
            top = k;
        }
        k += 1;
        assert(is_first_best(values.take(k as int), top as int)) by {
            let before = values.take(k - 1);
            let now = values.take(k as int);
            assert forall|j: int| 0 <= j < now.len() implies #[trigger] now[j] <= now[top as int]
            by {
                if j < k - 1 {
                    assert(before[j] == now[j]);
                }
            }
            assert forall|j: int| 0 <= j < top implies #[trigger] now[j] < now[top as int] by {
                assert(before[j] == now[j]);
            }
        }
    }
    proof {
        assert(values.take(k as int) =~= values);
        lemma_first_best_exists(values);
        lemma_first_best_unique(values, top as int, first_best(values));
    }
    population[top].clone()
}

/// The sum, the number, the least and the greatest of the members' cached
/// fitness. The mean, `total / count`, lies between the least and the
/// greatest.
pub fn get_population_stats(population: &Vec<Chromosome>) -> (stats: PopulationStats)
    ensures
        summarises(stats, fitness_values(population@)),
        population@.len() > 0 ==> stats.min * stats.count <= stats.total <= stats.max
            * stats.count,
{
    let n = population.len();
    if n == 0 {
        return PopulationStats { total: 0, count: 0, min: EMPTY_MIN, max: 0 };
    }
    let ghost values = fitness_values(population@);
    let first = population[0].fitness as i64;
    let mut total: i128 = first as i128;
    let mut min: i64 = first;
    let mut max: i64 = first;
    let mut i: usize = 1;
    assert(values.take(1).drop_last() =~= Seq::<int>::empty());
    assert(sum_values(values.take(1)) == values[0]) by {
        assert(sum_values(values.take(1).drop_last()) == 0);
    }
    while i < n
        invariant
            1 <= i <= n,
            n == population@.len(),
            values == fitness_values(population@),
            total == sum_values(values.take(i as int)),
            -2147483648 * i <= total <= 2147483647 * i,
            is_min(values.take(i as int), min as int),
            is_max(values.take(i as int), max as int),
        decreases n - i,
    {
        let fitness = population[i].fitness as i64;
        let ghost before = values.take(i as int);
        let ghost now = values.take(i + 1);
        proof {
            assert(now.drop_last() =~= before);
            assert(now.last() == fitness);
            let lo = choose|j: int| 0 <= j < before.len() && #[trigger] before[j] == min;
            let hi = choose|j: int| 0 <= j < before.len() && #[trigger] before[j] == max;
            assert(now[lo] == min);
            assert(now[hi] == max);
            assert(forall|j: int| 0 <= j < before.len() ==> before[j] == now[j]);
        }
        total = total + fitness as i128;
        if fitness < min {
            min = fitness;
        }
        if fitness > max {
            max = fitness;
        }
        i += 1;
        proof {
            assert(now[i - 1] == fitness);
            assert forall|j: int| 0 <= j < now.len() implies min <= #[trigger] now[j] by {
                if j < i - 1 {
                    assert(before[j] == now[j]);
                }
            }
            assert forall|j: int| 0 <= j < now.len() implies #[trigger] now[j] <= max by {
                if j < i - 1 {
                    assert(before[j] == now[j]);
                }
            }
        }
    }
    proof {
        assert(values.take(i as int) =~= values);
        lemma_sum_between(values, min as int, max as int);
    }
    PopulationStats { total, count: n, min, max }
}

} // verus!
