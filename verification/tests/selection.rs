use bitstring_ga::chromosome::Chromosome;
use bitstring_ga::selection::{
    proportional_selection, proportional_with, tournament_selection, tournament_with,
    TOURNAMENT_SIZE,
};

fn evaluated(genes: Vec<u32>) -> Chromosome {
    let mut c = Chromosome::new();
    c.set_genes(genes);
    c.calculate_fitness();
    c
}

fn ladder() -> Vec<Chromosome> {
    vec![
        evaluated(vec![1, 0, 0, 0]),
        evaluated(vec![1, 1, 0, 0]),
        evaluated(vec![1, 1, 1, 0]),
        evaluated(vec![0, 1, 1, 1]),
    ]
}

#[test]
fn tournament_size_is_five() {
    assert_eq!(TOURNAMENT_SIZE, 5);
}

#[test]
fn tournament_with_returns_the_fittest_sampled_member() {
    let population = ladder();
    let winner = tournament_with(&population, 4, &vec![0, 1, 0, 1, 0]);
    assert_eq!(winner.genes, vec![1, 1, 0, 0]);
    assert_eq!(winner.get_fitness(), 2);
}

#[test]
fn tournament_with_breaks_ties_by_draw_order() {
    let population = ladder();
    let first = tournament_with(&population, 4, &vec![0, 3, 2, 1, 0]);
    assert_eq!(first.genes, vec![0, 1, 1, 1]);
    let second = tournament_with(&population, 4, &vec![0, 2, 3, 1, 0]);
    assert_eq!(second.genes, vec![1, 1, 1, 0]);
}

#[test]
fn tournament_with_reduces_draws_modulo_the_population_size() {
    let population = ladder();
    let winner = tournament_with(&population, 4, &vec![4, 8, 13, 16, 20]);
    assert_eq!(winner.genes, vec![1, 1, 0, 0]);
    let narrowed = tournament_with(&population, 2, &vec![2, 3, 4, 6, 8]);
    assert_eq!(narrowed.genes, vec![1, 1, 0, 0]);
}

#[test]
fn tournament_with_a_single_draw_returns_that_member() {
    let population = ladder();
    let winner = tournament_with(&population, 4, &vec![6]);
    assert_eq!(winner.genes, vec![1, 1, 1, 0]);
}

#[test]
fn tournament_with_reads_the_cached_fitness() {
    let mut population = ladder();
    population[0].set_fitness(50);
    let winner = tournament_with(&population, 4, &vec![3, 0, 2]);
    assert_eq!(winner.genes, vec![1, 0, 0, 0]);
    assert_eq!(winner.get_fitness(), 50);
}

#[test]
fn tournament_with_leaves_the_population_alone() {
    let population = ladder();
    let mut winner = tournament_with(&population, 4, &vec![3, 3, 3, 3, 3]);
    winner.set_gene(0, 1);
    assert_eq!(population[3].genes, vec![0, 1, 1, 1]);
    assert_eq!(population.len(), 4);
}

#[test]
fn tournament_selection_returns_a_member() {
    let population = ladder();
    for _ in 0..200 {
        let winner = tournament_selection(&population, 4);
        assert!(population
            .iter()
            .any(|m| m.genes == winner.genes && m.fitness == winner.fitness));
    }
}

#[test]
fn tournament_selection_stays_below_the_population_size() {
    let population = ladder();
    for _ in 0..200 {
        let winner = tournament_selection(&population, 2);
        assert!(winner.genes == vec![1, 0, 0, 0] || winner.genes == vec![1, 1, 0, 0]);
    }
}

#[test]
fn tournament_selection_favours_the_fittest() {
    let population = ladder();
    let mut weakest = 0;
    for _ in 0..2000 {
        if tournament_selection(&population, 4).get_fitness() == 1 {
            weakest += 1;
        }
    }
    // The weakest member wins only where all five draws point at it.
    assert!(weakest < 100);
}

#[test]
fn proportional_with_stops_where_the_running_total_reaches_the_draw() {
    let population = vec![
        evaluated(vec![1, 0, 0]),
        evaluated(vec![1, 1, 0]),
        evaluated(vec![1, 1, 1]),
    ];
    let expected = [0usize, 0, 1, 1, 2, 2];
    for r in 0..6u32 {
        let chosen = proportional_with(&population, 3, r);
        assert_eq!(chosen.genes, population[expected[r as usize]].genes);
    }
}

#[test]
fn proportional_with_reduces_the_draw_modulo_the_total() {
    let population = vec![
        evaluated(vec![1, 0, 0]),
        evaluated(vec![1, 1, 0]),
        evaluated(vec![1, 1, 1]),
    ];
    assert_eq!(proportional_with(&population, 3, 6).genes, vec![1, 0, 0]);
    assert_eq!(proportional_with(&population, 3, 10).genes, vec![1, 1, 1]);
    assert_eq!(proportional_with(&population, 3, 4294967295).genes, vec![1, 1, 0]);
}

#[test]
fn proportional_with_zero_total_returns_an_empty_chromosome() {
    let population = vec![evaluated(vec![0, 0]), evaluated(vec![0, 0])];
    let chosen = proportional_with(&population, 2, 17);
    assert!(chosen.genes.is_empty());
    assert_eq!(chosen.get_fitness(), 0);
}

#[test]
fn proportional_with_no_members_returns_an_empty_chromosome() {
    let population: Vec<Chromosome> = Vec::new();
    let chosen = proportional_with(&population, 0, 3);
    assert!(chosen.genes.is_empty());
    assert_eq!(chosen.get_fitness(), 0);
}

#[test]
fn proportional_with_counts_the_first_members_only() {
    let population = vec![
        evaluated(vec![1, 0, 0]),
        evaluated(vec![1, 1, 0]),
        evaluated(vec![1, 1, 1]),
    ];
    // Over the first two members the total is 3, so the draw 5 spins to 2.
    assert_eq!(proportional_with(&population, 2, 5).genes, vec![1, 1, 0]);
    assert_eq!(proportional_with(&population, 2, 3).genes, vec![1, 0, 0]);
}

#[test]
fn proportional_with_a_draw_of_zero_stops_at_the_first_member() {
    let population = vec![evaluated(vec![0, 0]), evaluated(vec![1, 1])];
    assert_eq!(proportional_with(&population, 2, 0).genes, vec![0, 0]);
    assert_eq!(proportional_with(&population, 2, 1).genes, vec![1, 1]);
}

#[test]
fn proportional_with_equal_sectors_is_fair() {
    let population = vec![
        evaluated(vec![1, 1, 1, 0]),
        evaluated(vec![0, 1, 1, 1]),
        evaluated(vec![1, 0, 1, 1]),
    ];
    let mut hits = [0usize; 3];
    for r in 0..9u32 {
        let chosen = proportional_with(&population, 3, r);
        let at = population.iter().position(|m| m.genes == chosen.genes).unwrap();
        let expected = if r == 0 { 0 } else { ((r - 1) / 3) as usize };
        assert_eq!(at, expected);
        hits[at] += 1;
    }
    assert_eq!(hits, [4, 3, 2]);
}

#[test]
fn proportional_selection_returns_a_member() {
    let population = ladder();
    for _ in 0..200 {
        let chosen = proportional_selection(&population, 4);
        assert!(population
            .iter()
            .any(|m| m.genes == chosen.genes && m.fitness == chosen.fitness));
    }
}

#[test]
fn proportional_selection_zero_total_returns_an_empty_chromosome() {
    let population = vec![evaluated(vec![0, 0, 0]), evaluated(vec![0, 0, 0])];
    for _ in 0..20 {
        let chosen = proportional_selection(&population, 2);
        assert!(chosen.genes.is_empty());
        assert_eq!(chosen.get_fitness(), 0);
    }
}

#[test]
fn proportional_selection_is_close_to_uniform_on_equal_fitness() {
    let mut population = Vec::new();
    for k in 0..4usize {
        let mut genes = vec![0u32; 200];
        for i in 0..100 {
            genes[(50 * k + i) % 200] = 1;
        }
        population.push(evaluated(genes));
    }
    let trials = 40000;
    let mut hits = [0usize; 4];
    for _ in 0..trials {
        let chosen = proportional_selection(&population, 4);
        let at = population.iter().position(|m| m.genes == chosen.genes).unwrap();
        hits[at] += 1;
    }
    for count in hits {
        let share = count as f64 / trials as f64;
        assert!((share - 0.25).abs() < 0.03);
    }
}

#[test]
fn proportional_selection_follows_the_fitness_shares() {
    let population = vec![evaluated(vec![1, 0, 0, 0, 0, 0, 0, 0, 0, 0]), evaluated(vec![1; 10])];
    let trials = 20000;
    let mut strong = 0usize;
    for _ in 0..trials {
        if proportional_selection(&population, 2).get_fitness() == 10 {
            strong += 1;
        }
    }
    // Of the 11 places on the wheel the strong member holds 9.
    let share = strong as f64 / trials as f64;
    assert!((share - 9.0 / 11.0).abs() < 0.03);
}
