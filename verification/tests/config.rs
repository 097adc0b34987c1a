use bitstring_ga::config::{Config, Rate, SelectionMethod, DRAW_SCALE, RATE_STEPS};

#[test]
fn rate_constants() {
    assert_eq!(RATE_STEPS, 1u64 << 53);
    assert_eq!(DRAW_SCALE, 1u64 << 11);
}

#[test]
fn rate_never_succeeds_on_no_draw() {
    let rate = Rate::never();
    assert_eq!(rate.steps, 0);
    assert!(!rate.fires(0));
    assert!(!rate.fires(1));
    assert!(!rate.fires(u64::MAX));
}

#[test]
fn rate_always_succeeds_on_every_draw() {
    let rate = Rate::always();
    assert_eq!(rate.steps, RATE_STEPS);
    assert!(rate.fires(0));
    assert!(rate.fires(1u64 << 63));
    assert!(rate.fires(u64::MAX));
}

#[test]
fn rate_compares_the_upper_bits_of_the_draw() {
    let one_step = Rate::from_steps(1);
    assert!(one_step.fires(0));
    assert!(one_step.fires(2047));
    assert!(!one_step.fires(2048));

    let half = Rate::from_steps(RATE_STEPS / 2);
    assert!(half.fires((1u64 << 63) - 1));
    assert!(!half.fires(1u64 << 63));
}

#[test]
fn rate_above_one_behaves_as_one() {
    let rate = Rate::from_steps(u64::MAX);
    assert!(rate.fires(u64::MAX));
    assert!(rate.fires(0));
}

#[test]
fn selection_method_from_code() {
    assert!(SelectionMethod::from_code(0) == SelectionMethod::Proportional);
    assert!(SelectionMethod::from_code(1) == SelectionMethod::Tournament);
    assert!(SelectionMethod::from_code(-1) == SelectionMethod::Tournament);
    assert!(SelectionMethod::from_code(127) == SelectionMethod::Tournament);
}

#[test]
fn config_new_targets_the_chromosome_length() {
    let config = Config::new(
        20,
        SelectionMethod::Tournament,
        Rate::always(),
        Rate::never(),
        10,
    )
    .unwrap();
    assert_eq!(config.pop_size, 20);
    assert_eq!(config.chromosome_size, 10);
    assert_eq!(config.target_fitness, 10);
    assert_eq!(config.crossover_rate.steps, RATE_STEPS);
    assert_eq!(config.mutation_rate.steps, 0);
    assert!(config.selection == SelectionMethod::Tournament);
}

#[test]
fn config_new_accepts_the_longest_chromosome_with_a_fitness() {
    let config = Config::new(
        1,
        SelectionMethod::Proportional,
        Rate::never(),
        Rate::never(),
        2147483647,
    )
    .unwrap();
    assert_eq!(config.target_fitness, 2147483647);
}

#[test]
fn config_new_refuses_a_length_that_is_no_fitness() {
    let config = Config::new(
        1,
        SelectionMethod::Proportional,
        Rate::never(),
        Rate::never(),
        2147483648,
    );
    assert!(config.is_none());
}
