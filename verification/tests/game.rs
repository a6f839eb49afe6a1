use rand::rngs::StdRng;
use rand::SeedableRng;
use toast::cards::{Card, Deck, Toast};
use toast::play::{attempt, max_score_attempt, simulate};

#[test]
fn deck_init_state() {
    let mut rng = StdRng::seed_from_u64(1);
    let d = Deck::new(&mut rng);
    assert_eq!(d.cards.len(), 24);
    let average = d.total_value() as f32 / d.cards.len() as f32;
    assert_eq!(average, 3.5);
}

#[test]
fn toast_pulls_three() {
    let mut rng = StdRng::seed_from_u64(2);
    let mut d = Deck::new(&mut rng);
    let initial_total_value = d.total_value();
    assert_eq!(d.cards.len(), 24);
    let t = d.toast();
    assert_eq!(t.cards.len(), 3);
    assert_eq!(d.cards.len(), 21);
    assert_eq!(d.total_value() + t.sum(), initial_total_value);
}

#[test]
fn deck_has_four_of_each_value() {
    let mut rng = StdRng::seed_from_u64(3);
    let d = Deck::new(&mut rng);
    for value in 1..7u32 {
        let n = d.cards.iter().filter(|c| c.value() == value).count();
        assert_eq!(n, 4);
    }
    assert_eq!(d.total_value(), 84);
}

#[test]
fn deck_is_shuffled() {
    let mut rng = StdRng::seed_from_u64(4);
    let d = Deck::new(&mut rng);
    let mut unshuffled: Vec<u32> = Vec::new();
    for value in 1..7u32 {
        for _suit in 1..5u32 {
            unshuffled.push(value);
        }
    }
    let drawn: Vec<u32> = d.cards.iter().map(|c| c.value()).collect();
    assert_ne!(drawn, unshuffled);
    let mut rng_again = StdRng::seed_from_u64(4);
    let same_seed: Vec<u32> = Deck::new(&mut rng_again).cards.iter().map(|c| c.value()).collect();
    assert_eq!(drawn, same_seed);
}

#[test]
fn try_clear_first_removes_front_on_match() {
    let mut t = Toast { cards: vec![Card::new(2), Card::new(5), Card::new(3)] };
    t.try_clear_first(2, 4);
    assert_eq!(t.to_values(), vec![5, 3]);
    t.try_clear_first(1, 5);
    assert_eq!(t.to_values(), vec![3]);
    t.try_clear_first(3, 3);
    assert!(t.is_empty());
}

#[test]
fn try_clear_first_no_match_leaves_toast_unchanged() {
    let mut t = Toast { cards: vec![Card::new(2), Card::new(5), Card::new(3)] };
    t.try_clear_first(4, 6);
    assert_eq!(t.to_values(), vec![2, 5, 3]);
}

#[test]
fn try_clear_first_only_front_card_is_eligible() {
    let mut t = Toast { cards: vec![Card::new(2), Card::new(5), Card::new(3)] };
    t.try_clear_first(5, 3);
    assert_eq!(t.to_values(), vec![2, 5, 3]);
}

#[test]
fn toast_of_ones_has_budget_three_and_clears_on_a_one() {
    let t = Toast { cards: vec![Card::new(1), Card::new(1), Card::new(1)] };
    assert_eq!(t.sum(), 3);
    let mut t = t;
    t.try_clear_first(6, 1);
    assert_eq!(t.to_values(), vec![1, 1]);
    t.try_clear_first(1, 4);
    t.try_clear_first(1, 1);
    assert!(t.is_empty());
}

#[test]
fn attempt_consumes_exactly_three_cards() {
    let mut rng = StdRng::seed_from_u64(5);
    for seed in 0..20u64 {
        let mut deck_rng = StdRng::seed_from_u64(seed);
        let mut d = Deck::new(&mut deck_rng);
        let total_before = d.total_value();
        let r = attempt(&mut d, &mut rng);
        assert_eq!(d.cards.len(), 21);
        if let Some(score) = r {
            assert!((3..=18).contains(&score));
            assert_eq!(total_before - d.total_value(), score);
        }
    }
}

#[test]
fn full_game_runs_to_completion() {
    let mut rng = StdRng::seed_from_u64(6);
    for _ in 0..100 {
        let _won = max_score_attempt(&mut rng);
    }
}

#[test]
fn simulate_counts_no_more_wins_than_trials() {
    let mut rng = StdRng::seed_from_u64(7);
    let wins = simulate(200, &mut rng);
    assert!(wins <= 200);
}

#[test]
fn simulate_is_deterministic_for_a_fixed_seed() {
    let mut rng_a = StdRng::seed_from_u64(8);
    let wins_a = simulate(10000, &mut rng_a);
    let mut rng_b = StdRng::seed_from_u64(8);
    let wins_b = simulate(10000, &mut rng_b);
    assert_eq!(wins_a, wins_b);
    assert!(wins_a > 0);
    assert!(wins_a <= 10000);
}
