//! A chromosome: a sequence of binary genes with a cached fitness.

use vstd::prelude::*;
use vstd::string::StringExecFns;

verus! {

/// One candidate solution.
///
/// `genes` holds the bit string, one gene per element. `fitness` caches the
/// number of set genes; it is brought up to date by
/// [`Chromosome::calculate_fitness`] and by nothing else, so it is stale
/// between a change of the genes and the next evaluation.
pub struct Chromosome {
    /// The genes, each 0 or 1.
    pub genes: Vec<u32>,
    /// The number of set genes, as of the last evaluation.
    pub fitness: i32,
}

/// The mathematical value of a chromosome.
pub struct ChromosomeView {
    /// The genes, in order.
    pub genes: Seq<u32>,
    /// The cached fitness.
    pub fitness: int,
}

impl View for Chromosome {
    type V = ChromosomeView;

    open spec fn view(&self) -> ChromosomeView {
        ChromosomeView { genes: self.genes@, fitness: self.fitness as int }
    }
}

/// Every gene is 0 or 1.
pub open spec fn is_binary(genes: Seq<u32>) -> bool {
    forall|i: int| 0 <= i < genes.len() ==> #[trigger] genes[i] <= 1
}

/// The number of positions of `genes` that hold 1.
pub open spec fn count_ones(genes: Seq<u32>) -> nat
    decreases genes.len(),
{
    if genes.len() == 0 {
        0
    } else {
        count_ones(genes.drop_last()) + if genes.last() == 1 {
            1nat
        } else {
            0nat
        }
    }
}

/// The first digit of `n` written in decimal.
pub open spec fn leading_digit(n: nat) -> nat
    decreases n,
{
    if n < 10 {
        n
    } else {
        leading_digit(n / 10)
    }
}

/// The character of a decimal digit.
pub open spec fn digit_char(digit: nat) -> char {
    if digit == 0 {
        '0'
    } else if digit == 1 {
        '1'
    } else if digit == 2 {
        '2'
    } else if digit == 3 {
        '3'
    } else if digit == 4 {
        '4'
    } else if digit == 5 {
        '5'
    } else if digit == 6 {
        '6'
    } else if digit == 7 {
        '7'
    } else if digit == 8 {
        '8'
    } else {
        '9'
    }
}

/// The character that stands for a gene in the printed form: the first
/// digit of its decimal form, so `'0'` or `'1'` for a binary gene.
pub open spec fn gene_char(gene: u32) -> char {
    digit_char(leading_digit(gene as nat))
}

/// The printed form of a gene sequence: one character per gene, in order.
pub open spec fn gene_string(genes: Seq<u32>) -> Seq<char> {
    Seq::new(genes.len(), |i: int| gene_char(genes[i]))
}

/// The number of set genes is at most the length.
pub proof fn lemma_count_ones_bounds(genes: Seq<u32>)
    ensures
        count_ones(genes) <= genes.len(),
    decreases genes.len(),
{
    if genes.len() > 0 {
        lemma_count_ones_bounds(genes.drop_last());
    }
}

/// The first decimal digit of `gene`.
fn first_digit(gene: u32) -> (digit: u32)
    ensures
        digit == leading_digit(gene as nat),
        digit < 10,
{
    let mut n: u32 = gene;
    while n >= 10
        invariant
            leading_digit(n as nat) == leading_digit(gene as nat),
        decreases n,
    {
        n = n / 10;
    }
    n
}

/// The one-character string of a decimal digit.
fn digit_str(digit: u32) -> (s: &'static str)
    requires
        digit < 10,
    ensures
        s@ == seq![digit_char(digit as nat)],
{
    proof {
        reveal_strlit("0");
        reveal_strlit("1");
        reveal_strlit("2");
        reveal_strlit("3");
        reveal_strlit("4");
        reveal_strlit("5");
        reveal_strlit("6");
        reveal_strlit("7");
        reveal_strlit("8");
        reveal_strlit("9");
    }
    let s = if digit == 0 {
        "0"
    } else if digit == 1 {
        "1"
    } else if digit == 2 {
        "2"
    } else if digit == 3 {
        "3"
    } else if digit == 4 {
        "4"
    } else if digit == 5 {
        "5"
    } else if digit == 6 {
        "6"
    } else if digit == 7 {
        "7"
    } else if digit == 8 {
        "8"
    } else {
        "9"
    };
    assert(s@ =~= seq![digit_char(digit as nat)]);
    s
}

impl Chromosome {
    /// The genes are binary: what every function of the library keeps.
    pub open spec fn well_formed(&self) -> bool {
        is_binary(self.genes@)
    }

    /// The cached fitness is current: it equals the number of set genes.
    pub open spec fn is_evaluated(&self) -> bool {
        self.fitness == count_ones(self.genes@)
    }

    /// A chromosome without genes, of fitness 0.
    pub fn new() -> (c: Chromosome)
        ensures
            c.genes@ == Seq::<u32>::empty(),
            c.fitness == 0,
            c.well_formed(),
            c.is_evaluated(),
    {
        Chromosome { genes: Vec::new(), fitness: 0 }
    }

    /// Whether every gene is 0 or 1.
    pub fn has_binary_genes(&self) -> (ok: bool)
        ensures
            ok == self.well_formed(),
    {
        let mut i: usize = 0;
        while i < self.genes.len()
            invariant
                i <= self.genes@.len(),
                forall|j: int| 0 <= j < i ==> #[trigger] self.genes@[j] <= 1,
            decreases self.genes@.len() - i,
        {
            if self.genes[i] > 1 {
                return false;
            }
            i += 1;
        }
        true
    }

    /// Replaces the whole gene sequence. The cached fitness is left as it
    /// was, so it is stale until the next evaluation. The chromosome is well
    /// formed afterwards exactly if the new genes are binary.
    pub fn set_genes(&mut self, genes: Vec<u32>)
        ensures
            final(self).genes@ == genes@,
            final(self).fitness == old(self).fitness,
            final(self).well_formed() <==> is_binary(genes@),
    {
        self.genes = genes;
    }

    /// Writes one gene. The cached fitness is left as it was.
    pub fn set_gene(&mut self, index: usize, value: u32)
        requires
            index < old(self).genes@.len(),
            value <= 1,
        ensures
            final(self).genes@ == old(self).genes@.update(index as int, value),
            final(self).fitness == old(self).fitness,
            old(self).well_formed() ==> final(self).well_formed(),
    {
        self.genes.set(index, value);
    }

    /// Reads one gene.
    pub fn get_gene(&self, index: usize) -> (gene: u32)
        requires
            index < self.genes@.len(),
        ensures
            gene == self.genes@[index as int],
    {
        self.genes[index]
    }

    /// The cached fitness.
    pub fn get_fitness(&self) -> (fitness: i32)
        ensures
            fitness == self.fitness,
    {
        self.fitness
    }

    /// Overwrites the cached fitness and leaves the genes alone.
    pub fn set_fitness(&mut self, fitness: i32)
        ensures
            final(self).fitness == fitness,
            final(self).genes@ == old(self).genes@,
    {
        self.fitness = fitness;
    }

    /// Recomputes the cached fitness as the number of set genes.
    pub fn calculate_fitness(&mut self)
        requires
            old(self).well_formed(),
            old(self).genes@.len() <= i32::MAX,
        ensures
            final(self).genes@ == old(self).genes@,
            final(self).fitness == count_ones(old(self).genes@),
            0 <= final(self).fitness <= final(self).genes@.len(),
            final(self).well_formed(),
            final(self).is_evaluated(),
    {
        let mut fitness: i32 = 0;
        let mut i: usize = 0;
        while i < self.genes.len()
            invariant
                i <= self.genes@.len(),
                is_binary(self.genes@),
                self.genes@.len() <= i32::MAX,
                fitness == count_ones(self.genes@.take(i as int)),
                fitness <= i,
            decreases self.genes@.len() - i,
        {
            assert(self.genes@.take(i + 1).drop_last() =~= self.genes@.take(i as int));
            fitness += self.genes[i] as i32;
            i += 1;
        }
        proof {
            assert(self.genes@.take(i as int) =~= self.genes@);
            lemma_count_ones_bounds(self.genes@);
        }
        self.fitness = fitness;
    }

    /// The printed form: one character for each gene, first gene first. A
    /// gene is printed as the first digit of its decimal form: `'0'` or `'1'`
    /// in a well-formed chromosome.
    pub fn to_string(&self) -> (s: String)
        ensures
            s@ == gene_string(self.genes@),
            self.well_formed() ==> forall|i: int|
                0 <= i < s@.len() ==> #[trigger] s@[i] == if self.genes@[i] == 0 {
                    '0'
                } else {
                    '1'
                },
    {
        let mut s = String::new();
        let mut i: usize = 0;
        while i < self.genes.len()
            invariant
                i <= self.genes@.len(),
                s@ == gene_string(self.genes@.take(i as int)),
            decreases self.genes@.len() - i,
        {
            let digit = first_digit(self.genes[i]);
            s.append(digit_str(digit));
            assert(s@ =~= gene_string(self.genes@.take(i + 1)));
            i += 1;
        }
        assert(self.genes@.take(i as int) =~= self.genes@);
        assert forall|i: int| 0 <= i < s@.len() && self.well_formed() implies #[trigger] s@[i]
            == if self.genes@[i] == 0 {
            '0'
        } else {
            '1'
        } by {
            assert(self.genes@[i] <= 1);
        }
        s
    }

    /// A copy that shares nothing with `self`: the same genes and the same
    /// cached fitness, in storage of its own.
    pub fn clone(&self) -> (c: Chromosome)
        ensures
            c@ == self@,
    {
        let mut genes: Vec<u32> = Vec::new();
        let mut i: usize = 0;
        while i < self.genes.len()
            invariant
                i <= self.genes@.len(),
                genes@ == self.genes@.take(i as int),
            decreases self.genes@.len() - i,
        {
            genes.push(self.genes[i]);
            assert(genes@ =~= self.genes@.take(i + 1));
            i += 1;
        }
        assert(self.genes@.take(i as int) =~= self.genes@);
        Chromosome { genes, fitness: self.fitness }
    }
}

impl Clone for Chromosome {
    fn clone(&self) -> (c: Chromosome)
        ensures
            c@ == self@,
    {
        Chromosome::clone(self)
    }
}

} // verus!
