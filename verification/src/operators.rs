//! The genetic operators: single-point crossover and single-bit mutation.
//!
//! Neither operator touches the cached fitness, so a chromosome that went
//! through one is stale until it is evaluated again.

use vstd::prelude::*;
use crate::chromosome::{Chromosome, is_binary};

verus! {

/// The first `len` genes of a child: those of `head` before `cut`, those of
/// `tail` from `cut` on.
pub open spec fn splice(head: Seq<u32>, tail: Seq<u32>, cut: int, len: int) -> Seq<u32> {
    head.take(cut) + tail.subrange(cut, len)
}

/// The boolean complement of a gene.
pub open spec fn complement(gene: u32) -> u32 {
    if gene == 0 {
        1
    } else {
        0
    }
}

/// `genes` with the gene at `site` flipped and every other gene as it was.
pub open spec fn flipped(genes: Seq<u32>, site: int) -> Seq<u32> {
    genes.update(site, complement(genes[site]))
}

/// Complementary swap: the two children of a crossover are as long as their
/// parents; each gene of the first child is the first parent's before the cut
/// and the second parent's from the cut on, and the other way round for the
/// second child; and at every position the first child shows the second
/// parent's gene exactly when the second child shows the first parent's.
pub proof fn lemma_crossover_complementary(first: Seq<u32>, second: Seq<u32>, cut: int)
    requires
        first.len() == second.len(),
        0 <= cut <= first.len(),
    ensures
        splice(first, second, cut, first.len() as int).len() == first.len(),
        splice(second, first, cut, first.len() as int).len() == first.len(),
        forall|i: int|
            0 <= i < first.len() ==> #[trigger] splice(first, second, cut, first.len() as int)[i]
                == if i < cut {
                first[i]
            } else {
                second[i]
            },
        forall|i: int|
            0 <= i < first.len() ==> #[trigger] splice(second, first, cut, first.len() as int)[i]
                == if i < cut {
                second[i]
            } else {
                first[i]
            },
        forall|i: int|
            0 <= i < first.len() ==> (splice(first, second, cut, first.len() as int)[i]
                == second[i] <==> #[trigger] splice(second, first, cut, first.len() as int)[i]
                == first[i]),
{
}

/// A flip changes exactly one gene: the gene at its site is no longer what
/// it was, and every other gene is. In binary genes the gene at the site
/// becomes its boolean complement, and the genes stay binary.
pub proof fn lemma_flip_changes_one_gene(genes: Seq<u32>, site: int)
    requires
        0 <= site < genes.len(),
    ensures
        flipped(genes, site).len() == genes.len(),
        flipped(genes, site)[site] != genes[site],
        forall|i: int| 0 <= i < genes.len() && i != site ==> flipped(genes, site)[i] == genes[i],
        is_binary(genes) ==> flipped(genes, site)[site] == 1 - genes[site],
        is_binary(genes) ==> is_binary(flipped(genes, site)),
{
}

/// Deep copy: a copy is a value of its own. Once one of its genes is
/// flipped, it differs from its source at that site and nowhere else: the
/// source holds what it held.
pub proof fn lemma_copy_mutates_alone(source: Chromosome, copy: Chromosome, site: int)
    requires
        copy@ == source@,
        0 <= site < source.genes@.len(),
    ensures
        flipped(copy.genes@, site).len() == source.genes@.len(),
        forall|i: int|
            0 <= i < source.genes@.len() ==> (#[trigger] flipped(copy.genes@, site)[i]
                != source.genes@[i] <==> i == site),
{
}

/// Single-point crossover at the cut `draw % chromosome_size`.
///
/// Both parents are overwritten by their children, each `chromosome_size`
/// genes long: the first keeps its own genes before the cut and takes the
/// second's from the cut on, the second the other way round.
pub fn crossover_with(
    parent1: &mut Chromosome,
    parent2: &mut Chromosome,
    chromosome_size: usize,
    draw: usize,
)
    requires
        0 < chromosome_size <= old(parent1).genes@.len(),
        chromosome_size <= old(parent2).genes@.len(),
    ensures
        final(parent1).genes@ == splice(
            old(parent1).genes@,
            old(parent2).genes@,
            draw as int % chromosome_size as int,
            chromosome_size as int,
        ),
        final(parent2).genes@ == splice(
            old(parent2).genes@,
            old(parent1).genes@,
            draw as int % chromosome_size as int,
            chromosome_size as int,
        ),
        final(parent1).fitness == old(parent1).fitness,
        final(parent2).fitness == old(parent2).fitness,
        old(parent1).well_formed() && old(parent2).well_formed() ==> final(parent1).well_formed(),
        old(parent1).well_formed() && old(parent2).well_formed() ==> final(parent2).well_formed(),
{
    let cut = draw % chromosome_size;
    let ghost first = splice(parent1.genes@, parent2.genes@, cut as int, chromosome_size as int);
    let ghost second = splice(parent2.genes@, parent1.genes@, cut as int, chromosome_size as int);
    let mut child1: Vec<u32> = Vec::new();
    let mut child2: Vec<u32> = Vec::new();
    let mut i: usize = 0;
    while i < chromosome_size
        invariant
            i <= chromosome_size,
            cut < chromosome_size,
            chromosome_size <= parent1.genes@.len(),
            chromosome_size <= parent2.genes@.len(),
            first == splice(parent1.genes@, parent2.genes@, cut as int, chromosome_size as int),
            second == splice(parent2.genes@, parent1.genes@, cut as int, chromosome_size as int),
            child1@ == first.take(i as int),
            child2@ == second.take(i as int),
        decreases chromosome_size - i,
    {
        if i < cut {
            child1.push(parent1.genes[i]);
            child2.push(parent2.genes[i]);
        } else {
            child1.push(parent2.genes[i]);
            child2.push(parent1.genes[i]);
        }
        i += 1;
        assert(child1@ =~= first.take(i as int));
        assert(child2@ =~= second.take(i as int));
    }
    assert(first.take(i as int) =~= first);
    assert(second.take(i as int) =~= second);
    parent1.set_genes(child1);
    parent2.set_genes(child2);
}

/// Single-point crossover at a cut drawn from the random source.
///
/// Whatever is drawn, the cut lies below `chromosome_size` and the children
/// are those of [`crossover_with`] at that cut.
pub fn crossover(parent1: &mut Chromosome, parent2: &mut Chromosome, chromosome_size: usize)
    requires
        0 < chromosome_size <= old(parent1).genes@.len(),
        chromosome_size <= old(parent2).genes@.len(),
    ensures
        exists|cut: int|
            0 <= cut < chromosome_size && final(parent1).genes@ == #[trigger] splice(
                old(parent1).genes@,
                old(parent2).genes@,
                cut,
                chromosome_size as int,
            ) && final(parent2).genes@ == splice(
                old(parent2).genes@,
                old(parent1).genes@,
                cut,
                chromosome_size as int,
            ),
        final(parent1).fitness == old(parent1).fitness,
        final(parent2).fitness == old(parent2).fitness,
        old(parent1).well_formed() && old(parent2).well_formed() ==> final(parent1).well_formed(),
        old(parent1).well_formed() && old(parent2).well_formed() ==> final(parent2).well_formed(),
{
    let draw = rand::random::<usize>();
    crossover_with(parent1, parent2, chromosome_size, draw);
}

/// Flips the gene at the site `draw % chromosome_size` and leaves every other
/// gene, and the cached fitness, as they were.
pub fn mutate_with(chromosome: &mut Chromosome, chromosome_size: usize, draw: usize)
    requires
        0 < chromosome_size <= old(chromosome).genes@.len(),
    ensures
        final(chromosome).genes@ == flipped(
            old(chromosome).genes@,
            draw as int % chromosome_size as int,
        ),
        final(chromosome).fitness == old(chromosome).fitness,
        old(chromosome).well_formed() ==> final(chromosome).well_formed(),
{
    let site = draw % chromosome_size;
    if chromosome.get_gene(site) == 0 {
        chromosome.set_gene(site, 1);
    } else {
        chromosome.set_gene(site, 0);
    }
}

/// Flips one gene at a site drawn from the random source.
///
/// Whatever is drawn, the site lies below `chromosome_size`, the gene there
/// becomes its complement and no other gene changes.
pub fn mutate(chromosome: &mut Chromosome, chromosome_size: usize)
    requires
        0 < chromosome_size <= old(chromosome).genes@.len(),
    ensures
        exists|site: int|
            0 <= site < chromosome_size && final(chromosome).genes@ == #[trigger] flipped(
                old(chromosome).genes@,
                site,
            ),
        final(chromosome).fitness == old(chromosome).fitness,
        old(chromosome).well_formed() ==> final(chromosome).well_formed(),
{
    let draw = rand::random::<usize>();
    mutate_with(chromosome, chromosome_size, draw);
}

} // verus!
