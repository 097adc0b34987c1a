use bitstring_ga::breeding::{next_generation, recombine, select_parent, PairDraws};
use bitstring_ga::chromosome::Chromosome;
use bitstring_ga::config::{Config, Rate, SelectionMethod, DRAW_SCALE};

fn evaluated(genes: Vec<u32>) -> Chromosome {
    let mut c = Chromosome::new();
    c.set_genes(genes);
    c.calculate_fitness();
    c
}

fn config(
    pop_size: usize,
    selection: SelectionMethod,
    crossover: Rate,
    mutation: Rate,
    chromosome_size: usize,
) -> Config {
    Config::new(pop_size, selection, crossover, mutation, chromosome_size).unwrap()
}

fn draws(
    crossover_toss: u64,
    cut: usize,
    first_toss: u64,
    first_site: usize,
    second_toss: u64,
    second_site: usize,
) -> PairDraws {
    PairDraws { crossover_toss, cut, first_toss, first_site, second_toss, second_site }
}

fn is_member(population: &Vec<Chromosome>, genes: &Vec<u32>) -> bool {
    population.iter().any(|m| &m.genes == genes)
}

#[test]
fn recombine_crosses_and_mutates_where_the_tosses_succeed() {
    let half = Rate::from_steps(5);
    let cfg = config(2, SelectionMethod::Tournament, half, half, 5);
    let mut a = evaluated(vec![1, 1, 1, 1, 1]);
    let mut b = evaluated(vec![0, 0, 0, 0, 0]);
    // Tosses of 4 steps succeed at a rate of 5 steps, tosses of 5 do not.
    let d = draws(4 * DRAW_SCALE, 12, 4 * DRAW_SCALE + 2047, 5, 5 * DRAW_SCALE, 1);
    recombine(&mut a, &mut b, &cfg, &d);
    // Crossed at 12 % 5 = 2, then the first child flipped at 5 % 5 = 0.
    assert_eq!(a.genes, vec![0, 1, 0, 0, 0]);
    assert_eq!(b.genes, vec![0, 0, 1, 1, 1]);
    assert_eq!(a.get_fitness(), 5);
    assert_eq!(b.get_fitness(), 0);
}

#[test]
fn recombine_without_crossover_mutates_the_parents() {
    let cfg = config(2, SelectionMethod::Tournament, Rate::never(), Rate::always(), 4);
    let mut a = evaluated(vec![1, 1, 0, 0]);
    let mut b = evaluated(vec![0, 1, 0, 1]);
    recombine(&mut a, &mut b, &cfg, &draws(0, 1, 0, 6, u64::MAX, 3));
    assert_eq!(a.genes, vec![1, 1, 1, 0]);
    assert_eq!(b.genes, vec![0, 1, 0, 0]);
}

#[test]
fn recombine_with_crossover_only() {
    let cfg = config(2, SelectionMethod::Tournament, Rate::always(), Rate::never(), 4);
    let mut a = evaluated(vec![1, 1, 0, 0]);
    let mut b = evaluated(vec![0, 1, 0, 1]);
    recombine(&mut a, &mut b, &cfg, &draws(u64::MAX, 3, 0, 0, 0, 0));
    assert_eq!(a.genes, vec![1, 1, 0, 1]);
    assert_eq!(b.genes, vec![0, 1, 0, 0]);
}

#[test]
fn recombine_with_no_toss_succeeding_changes_nothing() {
    let cfg = config(2, SelectionMethod::Tournament, Rate::never(), Rate::never(), 3);
    let mut a = evaluated(vec![1, 0, 1]);
    let mut b = evaluated(vec![0, 1, 0]);
    recombine(&mut a, &mut b, &cfg, &draws(0, 1, 0, 1, 0, 1));
    assert_eq!(a.genes, vec![1, 0, 1]);
    assert_eq!(b.genes, vec![0, 1, 0]);
    assert_eq!(a.get_fitness(), 2);
    assert_eq!(b.get_fitness(), 1);
}

#[test]
fn recombine_mutates_each_child_on_its_own_toss() {
    let rate = Rate::from_steps(1);
    let cfg = config(2, SelectionMethod::Tournament, Rate::never(), rate, 3);
    let mut a = evaluated(vec![0, 0, 0]);
    let mut b = evaluated(vec![0, 0, 0]);
    recombine(&mut a, &mut b, &cfg, &draws(0, 0, DRAW_SCALE, 1, 0, 2));
    assert_eq!(a.genes, vec![0, 0, 0]);
    assert_eq!(b.genes, vec![0, 0, 1]);
}

#[test]
fn select_parent_by_tournament_returns_a_member() {
    let population = vec![evaluated(vec![1, 0]), evaluated(vec![1, 1]), evaluated(vec![0, 0])];
    let cfg = config(3, SelectionMethod::Tournament, Rate::never(), Rate::never(), 2);
    for _ in 0..100 {
        let parent = select_parent(&population, &cfg);
        assert!(is_member(&population, &parent.genes));
    }
}

#[test]
fn select_parent_by_proportion_never_returns_a_member_without_fitness() {
    let population = vec![evaluated(vec![1, 1]), evaluated(vec![1, 1]), evaluated(vec![1, 0])];
    let cfg = config(3, SelectionMethod::Proportional, Rate::never(), Rate::never(), 2);
    for _ in 0..100 {
        let parent = select_parent(&population, &cfg);
        assert!(is_member(&population, &parent.genes));
    }
}

#[test]
fn select_parent_by_proportion_fails_on_a_population_without_fitness() {
    let population = vec![evaluated(vec![0, 0]), evaluated(vec![0, 0])];
    let cfg = config(2, SelectionMethod::Proportional, Rate::never(), Rate::never(), 2);
    let parent = select_parent(&population, &cfg);
    assert!(parent.genes.is_empty());
    assert_eq!(parent.get_fitness(), 0);
}

#[test]
fn select_parent_by_tournament_works_on_a_population_without_fitness() {
    let population = vec![evaluated(vec![0, 0]), evaluated(vec![0, 0])];
    let cfg = config(2, SelectionMethod::Tournament, Rate::never(), Rate::never(), 2);
    let parent = select_parent(&population, &cfg);
    assert_eq!(parent.genes, vec![0, 0]);
}

#[test]
fn next_generation_is_full() {
    let population: Vec<Chromosome> =
        (0..20).map(|k| evaluated((0..10).map(|i| ((i + k) % 3 == 0) as u32).collect())).collect();
    let half = Rate::from_steps(1u64 << 52);
    for selection in [SelectionMethod::Tournament, SelectionMethod::Proportional] {
        let cfg = config(20, selection, half, half, 10);
        let next = next_generation(&population, &cfg).unwrap();
        assert_eq!(next.len(), 20);
        for child in &next {
            assert_eq!(child.genes.len(), 10);
            assert!(child.has_binary_genes());
        }
    }
}

#[test]
fn next_generation_of_odd_size_drops_the_last_child() {
    let population = vec![
        evaluated(vec![1, 0, 1]),
        evaluated(vec![0, 1, 1]),
        evaluated(vec![1, 1, 1]),
        evaluated(vec![1, 0, 0]),
        evaluated(vec![0, 0, 1]),
    ];
    let cfg = config(5, SelectionMethod::Tournament, Rate::always(), Rate::always(), 3);
    let next = next_generation(&population, &cfg).unwrap();
    assert_eq!(next.len(), 5);
    let single = config(1, SelectionMethod::Tournament, Rate::never(), Rate::never(), 3);
    let next = next_generation(&vec![evaluated(vec![1, 0, 1])], &single).unwrap();
    assert_eq!(next.len(), 1);
    assert_eq!(next[0].genes, vec![1, 0, 1]);
}

#[test]
fn next_generation_without_operators_copies_members() {
    let population = vec![
        evaluated(vec![1, 0, 1, 0]),
        evaluated(vec![0, 1, 1, 0]),
        evaluated(vec![1, 1, 1, 0]),
        evaluated(vec![0, 0, 0, 1]),
    ];
    for selection in [SelectionMethod::Tournament, SelectionMethod::Proportional] {
        let cfg = config(4, selection, Rate::never(), Rate::never(), 4);
        for _ in 0..50 {
            let next = next_generation(&population, &cfg).unwrap();
            assert_eq!(next.len(), 4);
            for child in &next {
                assert!(is_member(&population, &child.genes));
            }
        }
    }
}

#[test]
fn next_generation_with_mutation_only_flips_one_gene_of_a_member() {
    let population = vec![evaluated(vec![1, 0, 1, 0, 1]), evaluated(vec![0, 1, 1, 0, 0])];
    let cfg = config(2, SelectionMethod::Tournament, Rate::never(), Rate::always(), 5);
    for _ in 0..50 {
        let next = next_generation(&population, &cfg).unwrap();
        for child in &next {
            let close = population.iter().any(|m| {
                m.genes.iter().zip(child.genes.iter()).filter(|(a, b)| a != b).count() == 1
            });
            assert!(close);
        }
    }
}

#[test]
fn next_generation_with_crossover_only_mixes_two_members() {
    let population = vec![evaluated(vec![1, 1, 1, 1, 1, 1]), evaluated(vec![1, 1, 1, 1, 1, 1])];
    let cfg = config(2, SelectionMethod::Proportional, Rate::always(), Rate::never(), 6);
    let next = next_generation(&population, &cfg).unwrap();
    assert_eq!(next[0].genes, vec![1, 1, 1, 1, 1, 1]);
    assert_eq!(next[1].genes, vec![1, 1, 1, 1, 1, 1]);
}

#[test]
fn next_generation_leaves_the_children_stale() {
    let population = vec![evaluated(vec![1, 1, 1]), evaluated(vec![1, 1, 1])];
    let cfg = config(2, SelectionMethod::Tournament, Rate::never(), Rate::always(), 3);
    let next = next_generation(&population, &cfg).unwrap();
    for child in &next {
        assert_eq!(child.genes.iter().filter(|g| **g == 1).count(), 2);
        assert_eq!(child.get_fitness(), 3);
    }
}

#[test]
fn next_generation_of_an_empty_population_is_empty() {
    let cfg = config(0, SelectionMethod::Proportional, Rate::always(), Rate::always(), 4);
    let next = next_generation(&Vec::new(), &cfg).unwrap();
    assert!(next.is_empty());
}

#[test]
fn next_generation_fails_where_the_wheel_is_empty() {
    let population = vec![evaluated(vec![0, 0, 0]), evaluated(vec![0, 0, 0])];
    let cfg = config(2, SelectionMethod::Proportional, Rate::always(), Rate::always(), 3);
    assert!(next_generation(&population, &cfg).is_none());
    let tournament = config(2, SelectionMethod::Tournament, Rate::always(), Rate::always(), 3);
    assert!(next_generation(&population, &tournament).is_some());
}

#[test]
fn next_generation_fails_where_chromosomes_have_no_genes() {
    let population = vec![Chromosome::new(), Chromosome::new()];
    for selection in [SelectionMethod::Tournament, SelectionMethod::Proportional] {
        let cfg = config(2, selection, Rate::always(), Rate::always(), 0);
        assert!(next_generation(&population, &cfg).is_none());
    }
}
