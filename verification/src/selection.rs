//! Parent selection: tournament and fitness-proportional (roulette wheel).
//!
//! Both read the cached fitness of the first `pop_size` members, leave the
//! population as it is, and hand out a copy of the member they settle on.

use vstd::prelude::*;
use crate::chromosome::{Chromosome, ChromosomeView};
use crate::population::{
    empty_chromosome, first_best, fitness_values, is_first_best, lemma_first_best_exists,
    lemma_first_best_unique, sum_values,
};

verus! {

/// The number of members that a tournament samples.
pub const TOURNAMENT_SIZE: usize = 5;

/// The member that a draw points at.
pub open spec fn drawn_index(draw: usize, pop_size: int) -> int {
    draw as int % pop_size
}

/// The cached fitness of the members that the draws point at, in draw order.
pub open spec fn sampled_fitness(
    population: Seq<Chromosome>,
    pop_size: int,
    draws: Seq<usize>,
) -> Seq<int> {
    Seq::new(draws.len(), |k: int| population[drawn_index(draws[k], pop_size)].fitness as int)
}

/// The member that wins the tournament over `draws`: the first sampled
/// member whose fitness no other sampled member exceeds.
pub open spec fn tournament_index(
    population: Seq<Chromosome>,
    pop_size: int,
    draws: Seq<usize>,
) -> int {
    drawn_index(draws[first_best(sampled_fitness(population, pop_size, draws))], pop_size)
}

/// `winner` is what a tournament may return: a copy of a member, the winner
/// over some [`TOURNAMENT_SIZE`] draws, which no member sampled by those
/// draws exceeds in fitness.
pub open spec fn is_tournament_pick(
    population: Seq<Chromosome>,
    pop_size: int,
    winner: ChromosomeView,
) -> bool {
    exists|draws: Seq<usize>|
        {
            &&& draws.len() == TOURNAMENT_SIZE
            &&& 0 <= #[trigger] tournament_index(population, pop_size, draws) < pop_size
            &&& winner == population[tournament_index(population, pop_size, draws)]@
            &&& forall|k: int|
                0 <= k < draws.len() ==> population[#[trigger] drawn_index(
                    draws[k],
                    pop_size,
                )].fitness <= winner.fitness
        }
}

/// The cached fitness of the first `pop_size` members: the sectors of the
/// wheel, in population order.
pub open spec fn wheel_values(population: Seq<Chromosome>, pop_size: int) -> Seq<int> {
    fitness_values(population.take(pop_size))
}

/// `j` is where the wheel stops for `r`: the first position at which the
/// running total of `values` reaches `r`.
pub open spec fn is_wheel_stop(values: Seq<int>, r: int, j: int) -> bool {
    &&& 0 <= j < values.len()
    &&& sum_values(values.take(j + 1)) >= r
    &&& forall|i: int| 0 <= i < j ==> sum_values(#[trigger] values.take(i + 1)) < r
}

/// The position at which the wheel stops for `r`, where there is one.
pub open spec fn wheel_stop(values: Seq<int>, r: int) -> int {
    choose|j: int| is_wheel_stop(values, r, j)
}

/// What the wheel returns for `draw`: a chromosome without genes where the
/// wheel is empty, and else the member at which it stops for `draw` taken
/// modulo the total.
pub open spec fn wheel_pick(
    population: Seq<Chromosome>,
    pop_size: int,
    draw: u32,
) -> ChromosomeView {
    let values = wheel_values(population, pop_size);
    if sum_values(values) == 0 {
        empty_chromosome()
    } else {
        population[wheel_stop(values, draw as int % sum_values(values))]@
    }
}

/// `chosen` is what a spin of the wheel may return: what it returns for some
/// draw.
pub open spec fn is_wheel_pick(
    population: Seq<Chromosome>,
    pop_size: int,
    chosen: ChromosomeView,
) -> bool {
    exists|draw: u32| chosen == #[trigger] wheel_pick(population, pop_size, draw)
}

/// The wheel stops at one position only.
pub proof fn lemma_wheel_stop_unique(values: Seq<int>, r: int, i: int, j: int)
    requires
        is_wheel_stop(values, r, i),
        is_wheel_stop(values, r, j),
    ensures
        i == j,
{
    if i < j {
        assert(sum_values(values.take(i + 1)) < r);
    } else if j < i {
        assert(sum_values(values.take(j + 1)) < r);
    }
}

/// The wheel of a population whose cached fitness is nowhere negative has
/// `pop_size` sectors, none of them negative, and so has their sum.
pub proof fn lemma_wheel_values_sum(population: Seq<Chromosome>, pop_size: int)
    requires
        0 <= pop_size <= population.len(),
        forall|i: int| 0 <= i < pop_size ==> 0 <= (#[trigger] population[i]).fitness,
    ensures
        wheel_values(population, pop_size).len() == pop_size,
        forall|i: int| 0 <= i < pop_size ==> 0 <= #[trigger] wheel_values(population, pop_size)[i],
        0 <= sum_values(wheel_values(population, pop_size)),
{
    let values = wheel_values(population, pop_size);
    assert forall|i: int| 0 <= i < pop_size implies 0 <= #[trigger] values[i] by {
        assert(0 <= population[i].fitness);
    }
    lemma_sum_nonnegative(values);
}

/// The running total of values that are not negative never exceeds their
/// sum.
pub proof fn lemma_sum_prefix(values: Seq<int>, n: int)
    requires
        0 <= n <= values.len(),
        forall|i: int| 0 <= i < values.len() ==> 0 <= #[trigger] values[i],
    ensures
        sum_values(values.take(n)) <= sum_values(values),
    decreases values.len() - n,
{
    if n == values.len() {
        assert(values.take(n) =~= values);
    } else {
        lemma_sum_prefix(values, n + 1);
        assert(values.take(n + 1).drop_last() =~= values.take(n));
    }
}

/// A wheel whose sectors are not negative stops somewhere for every `r` up
/// to its total.
pub proof fn lemma_wheel_stops(values: Seq<int>, r: int)
    requires
        values.len() > 0,
        forall|i: int| 0 <= i < values.len() ==> 0 <= #[trigger] values[i],
        r <= sum_values(values),
    ensures
        is_wheel_stop(values, r, wheel_stop(values, r)),
    decreases values.len(),
{
    let front = values.drop_last();
    let last = values.len() - 1;
    assert(values.take(last + 1) =~= values);
    if front.len() > 0 && r <= sum_values(front) {
        lemma_wheel_stops(front, r);
        let j = wheel_stop(front, r);
        assert forall|i: int| 0 <= i <= j implies #[trigger] values.take(i + 1) == front.take(
            i + 1,
        ) by {
            assert(values.take(i + 1) =~= front.take(i + 1));
        }
        assert(values.take(j + 1) == front.take(j + 1));
        assert(is_wheel_stop(values, r, j));
    } else {
        assert forall|i: int| 0 <= i < last implies sum_values(#[trigger] values.take(i + 1))
            < r by {
            lemma_sum_prefix(front, i + 1);
            assert(values.take(i + 1) =~= front.take(i + 1));
        }
        assert(is_wheel_stop(values, r, last));
    }
}

/// A spin of a wheel that is not empty returns a copy of one of the first
/// `pop_size` members.
pub proof fn lemma_wheel_pick_is_member(
    population: Seq<Chromosome>,
    pop_size: int,
    chosen: ChromosomeView,
)
    requires
        0 <= pop_size <= population.len(),
        forall|i: int| 0 <= i < pop_size ==> 0 <= (#[trigger] population[i]).fitness,
        sum_values(wheel_values(population, pop_size)) != 0,
        is_wheel_pick(population, pop_size, chosen),
    ensures
        exists|i: int| 0 <= i < pop_size && chosen == (#[trigger] population[i])@,
{
    let values = wheel_values(population, pop_size);
    let draw = choose|draw: u32| chosen == #[trigger] wheel_pick(population, pop_size, draw);
    lemma_wheel_values_sum(population, pop_size);
    let r = draw as int % sum_values(values);
    if values.len() == 0 {
        assert(values =~= Seq::<int>::empty());
    }
    lemma_wheel_stops(values, r);
    assert(chosen == population[wheel_stop(values, r)]@);
}

/// Values that are not negative have a sum that is not negative.
pub proof fn lemma_sum_nonnegative(values: Seq<int>)
    requires
        forall|i: int| 0 <= i < values.len() ==> 0 <= #[trigger] values[i],
    ensures
        0 <= sum_values(values),
    decreases values.len(),
{
    if values.len() > 0 {
        lemma_sum_nonnegative(values.drop_last());
    }
}

/// `r` falls into sector `j` of a wheel of equal sectors of width `width`:
/// it lies above `j * width` and not above `(j + 1) * width`, or it is 0 and
/// the sector is the first.
pub open spec fn in_sector(width: int, j: int, r: int) -> bool {
    (r == 0 && j == 0) || j * width < r <= (j + 1) * width
}

/// Equal values add up to their number times the value.
pub proof fn lemma_sum_of_equal(values: Seq<int>, width: int)
    requires
        forall|i: int| 0 <= i < values.len() ==> #[trigger] values[i] == width,
    ensures
        sum_values(values) == values.len() * width,
    decreases values.len(),
{
    if values.len() > 0 {
        let front = values.drop_last();
        lemma_sum_of_equal(front, width);
        assert(values.len() * width == front.len() * width + width) by (nonlinear_arith)
            requires
                values.len() == front.len() + 1,
        ;
    }
}

/// A wheel of equal sectors is fair: where every member has the fitness
/// `width`, the wheel stops for 0 at the first member and for every other
/// `r` at member `(r - 1) / width`. So it stops at member `j` exactly for the
/// values of `r` in sector `j`: `width` values in a row for each member, but
/// for one more at the first and one fewer at the last.
pub proof fn lemma_equal_sectors(values: Seq<int>, width: int, r: int)
    requires
        width > 0,
        forall|i: int| 0 <= i < values.len() ==> #[trigger] values[i] == width,
        0 <= r < sum_values(values),
    ensures
        is_wheel_stop(values, r, wheel_stop(values, r)),
        wheel_stop(values, r) == if r == 0 {
            0
        } else {
            (r - 1) / width
        },
        forall|j: int|
            0 <= j < values.len() ==> (wheel_stop(values, r) == j <==> #[trigger] in_sector(
                width,
                j,
                r,
            )),
{
    let n = values.len() as int;
    lemma_sum_of_equal(values, width);
    let stop = if r == 0 {
        0
    } else {
        (r - 1) / width
    };
    assert(0 <= stop && stop * width < r + (if r == 0 {
        1int
    } else {
        0int
    }) && r <= (stop + 1) * width) by (nonlinear_arith)
        requires
            width > 0,
            0 <= r,
            stop == if r == 0 {
                0
            } else {
                (r - 1) / width
            },
    ;
    assert(stop < n) by (nonlinear_arith)
        requires
            width > 0,
            0 <= stop,
            r < n * width,
            stop * width <= r,
    ;
    assert forall|i: int| 0 <= i <= stop implies sum_values(#[trigger] values.take(i + 1)) == (i
        + 1) * width by {
        lemma_sum_of_equal(values.take(i + 1), width);
    }
    assert forall|i: int| 0 <= i < stop implies sum_values(#[trigger] values.take(i + 1)) < r by {
        assert((i + 1) * width <= stop * width) by (nonlinear_arith)
            requires
                width > 0,
                i + 1 <= stop,
        ;
    }
    assert(is_wheel_stop(values, r, stop));
    lemma_wheel_stop_unique(values, r, stop, wheel_stop(values, r));
    assert forall|j: int| 0 <= j < values.len() implies (stop == j <==> #[trigger] in_sector(
        width,
        j,
        r,
    )) by {
        if j < stop {
            assert((j + 1) * width <= stop * width) by (nonlinear_arith)
                requires
                    width > 0,
                    j + 1 <= stop,
            ;
        } else if j > stop {
            assert((stop + 1) * width <= j * width) by (nonlinear_arith)
                requires
                    width > 0,
                    stop + 1 <= j,
            ;
        }
    }
}

/// Tournament over the members that `draws` point at, each draw taken
/// modulo `pop_size`: a copy of the first sampled member of greatest
/// fitness.
pub fn tournament_with(
    population: &Vec<Chromosome>,
    pop_size: usize,
    draws: &Vec<usize>,
) -> (winner: Chromosome)
    requires
        0 < pop_size <= population@.len(),
        draws@.len() > 0,
    ensures
        is_first_best(
            sampled_fitness(population@, pop_size as int, draws@),
            first_best(sampled_fitness(population@, pop_size as int, draws@)),
        ),
        0 <= tournament_index(population@, pop_size as int, draws@) < pop_size,
        winner@ == population@[tournament_index(population@, pop_size as int, draws@)]@,
        forall|k: int|
            0 <= k < draws@.len() ==> population@[#[trigger] drawn_index(
                draws@[k],
                pop_size as int,
            )].fitness <= winner.fitness,
{
    let ghost sample = sampled_fitness(population@, pop_size as int, draws@);
    let mut top: usize = draws[0] % pop_size;
    let ghost mut at: int = 0;
    let mut k: usize = 1;
    assert(is_first_best(sample.take(1), 0));
    while k < draws.len()
        invariant
            1 <= k <= draws@.len(),
            0 < pop_size <= population@.len(),
            sample == sampled_fitness(population@, pop_size as int, draws@),
            0 <= at < k,
            top == drawn_index(draws@[at], pop_size as int),
            is_first_best(sample.take(k as int), at),
        decreases draws@.len() - k,
    {
        let index = draws[k] % pop_size;
        let ghost before = sample.take(k as int);
        let ghost now = sample.take(k + 1);
        let ghost was = at;
        assert(forall|j: int| 0 <= j < k ==> before[j] == now[j]);
        assert(now[k as int] == population@[index as int].fitness);
        assert(now[at] == population@[top as int].fitness);
        if population[index].fitness > population[top].fitness {
            top = index;
            proof {
                at = k as int;
            }
        }
        k += 1;
        assert(is_first_best(now, at)) by {
            assert forall|j: int| 0 <= j < now.len() implies #[trigger] now[j] <= now[at] by {
                if j < k - 1 {
                    assert(before[j] <= before[was]);
                }
            }
            assert forall|j: int| 0 <= j < at implies #[trigger] now[j] < now[at] by {
                if j < was {
                    assert(before[j] < before[was]);
                } else {
                    assert(before[j] <= before[was]);
                }
            }
        }
    }
    proof {
        assert(sample.take(k as int) =~= sample);
        lemma_first_best_exists(sample);
        lemma_first_best_unique(sample, at, first_best(sample));
        assert forall|j: int| 0 <= j < draws@.len() implies population@[#[trigger] drawn_index(
            draws@[j],
            pop_size as int,
        )].fitness <= population@[top as int].fitness by {
            assert(sample[j] <= sample[at]);
        }
    }
    population[top].clone()
}

/// Tournament over [`TOURNAMENT_SIZE`] members drawn from the random source,
/// with replacement.
///
/// Whatever is drawn, the result is a copy of a member of the population,
/// the winner of [`tournament_with`] over those draws, and no sampled member
/// is fitter.
pub fn tournament_selection(population: &Vec<Chromosome>, pop_size: usize) -> (winner: Chromosome)
    requires
        0 < pop_size <= population@.len(),
    ensures
        is_tournament_pick(population@, pop_size as int, winner@),
        exists|i: int| 0 <= i < pop_size && winner@ == (#[trigger] population@[i])@,
{
    let mut draws: Vec<usize> = Vec::new();
    let mut k: usize = 0;
    while k < TOURNAMENT_SIZE
        invariant
            k <= TOURNAMENT_SIZE,
            draws@.len() == k,
        decreases TOURNAMENT_SIZE - k,
    {
        draws.push(rand::random::<usize>());
        k += 1;
    }
    let winner = tournament_with(population, pop_size, &draws);
    assert(winner@ == population@[tournament_index(population@, pop_size as int, draws@)]@);
    winner
}

/// Roulette wheel over the first `pop_size` members for the draw `draw`.
///
/// With `total` the sum of their cached fitness, the wheel is spun to
/// `draw % total` and stops at the first member at which the running total
/// reaches that value; the result is a copy of that member. Where `total` is
/// 0 there is no wheel to spin, and the result is a chromosome without
/// genes: the sign that the selection failed.
pub fn proportional_with(population: &Vec<Chromosome>, pop_size: usize, draw: u32) -> (chosen:
    Chromosome)
    requires
        pop_size <= population@.len(),
        forall|i: int| 0 <= i < pop_size ==> 0 <= (#[trigger] population@[i]).fitness,
    ensures
        chosen@ == wheel_pick(population@, pop_size as int, draw),
{
    let ghost values = wheel_values(population@, pop_size as int);
    let mut total: u128 = 0;
    let mut i: usize = 0;
    while i < pop_size
        invariant
            i <= pop_size <= population@.len(),
            values == wheel_values(population@, pop_size as int),
            forall|j: int| 0 <= j < pop_size ==> 0 <= (#[trigger] population@[j]).fitness,
            total == sum_values(values.take(i as int)),
            total <= 2147483647 * i,
        decreases pop_size - i,
    {
        assert(values.take(i + 1).drop_last() =~= values.take(i as int));
        assert(values[i as int] == population@[i as int].fitness);
        total = total + population[i].fitness as u128;
        i += 1;
    }
    assert(values.take(i as int) =~= values);
    if total == 0 {
        return Chromosome::new();
    }
    let r: u128 = draw as u128 % total;
    let mut count: u128 = 0;
    let mut j: usize = 0;
    while j < pop_size
        invariant
            j <= pop_size <= population@.len(),
            values == wheel_values(population@, pop_size as int),
            forall|i: int| 0 <= i < pop_size ==> 0 <= (#[trigger] population@[i]).fitness,
            count == sum_values(values.take(j as int)),
            count <= 2147483647 * j,
            total == sum_values(values),
            r == draw as int % sum_values(values),
            r < total,
            forall|i: int| 0 <= i < j ==> sum_values(#[trigger] values.take(i + 1)) < r,
        decreases pop_size - j,
    {
        assert(values.take(j + 1).drop_last() =~= values.take(j as int));
        assert(values[j as int] == population@[j as int].fitness);
        count = count + population[j].fitness as u128;
        if count >= r {
            proof {
                assert(is_wheel_stop(values, r as int, j as int));
                lemma_wheel_stop_unique(values, r as int, j as int, wheel_stop(values, r as int));
            }
            return population[j].clone();
        }
        j += 1;
    }
    proof {
        assert(values.take(j as int) =~= values);
        assert(j > 0) by {
            if j == 0 {
                assert(values =~= Seq::<int>::empty());
            }
        }
        assert(sum_values(values.take((j - 1) + 1)) < r);
        assert(false);
    }
    Chromosome::new()
}

/// Roulette wheel spun by a draw from the random source.
///
/// Whatever is drawn, the result is a copy of the member at which the wheel
/// stops for that draw where the total fitness is positive, and a
/// chromosome without genes where it is 0.
pub fn proportional_selection(population: &Vec<Chromosome>, pop_size: usize) -> (chosen:
    Chromosome)
    requires
        pop_size <= population@.len(),
        forall|i: int| 0 <= i < pop_size ==> 0 <= (#[trigger] population@[i]).fitness,
    ensures
        is_wheel_pick(population@, pop_size as int, chosen@),
{
    let draw = rand::random::<u32>();
    proportional_with(population, pop_size, draw)
}

} // verus!
