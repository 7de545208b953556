use stellar_bomb::scores::{InitStatus, StellarBomb};

fn s(text: &str) -> String {
    text.to_string()
}

#[test]
fn test_difficulty_multiplier() {
    assert_eq!(StellarBomb::get_difficulty_multiplier(&s("easy")), 1);
    assert_eq!(StellarBomb::get_difficulty_multiplier(&s("medium")), 2);
    assert_eq!(StellarBomb::get_difficulty_multiplier(&s("hard")), 3);
    assert_eq!(StellarBomb::get_difficulty_multiplier(&s("Hard")), 0);
    assert_eq!(StellarBomb::get_difficulty_multiplier(&s("")), 0);
}

#[test]
fn test_time_bonus_calculation() {
    let base_score = 100;
    assert_eq!(StellarBomb::calculate_time_bonus(25, base_score), 150);
    assert_eq!(StellarBomb::calculate_time_bonus(15, base_score), 125);
    assert_eq!(StellarBomb::calculate_time_bonus(5, base_score), 100);
}

#[test]
fn time_bonus_boundaries() {
    assert_eq!(StellarBomb::calculate_time_bonus(20, 100), 125);
    assert_eq!(StellarBomb::calculate_time_bonus(21, 100), 150);
    assert_eq!(StellarBomb::calculate_time_bonus(10, 100), 100);
    assert_eq!(StellarBomb::calculate_time_bonus(11, 7), 8);
    assert_eq!(StellarBomb::checked_time_bonus(30, 10), Some(15));
    assert_eq!(StellarBomb::checked_time_bonus(30, u32::MAX), None);
    assert_eq!(StellarBomb::checked_time_bonus(0, u32::MAX), Some(u32::MAX));
}

#[test]
fn init_twice() {
    let mut g = StellarBomb::new();
    assert_eq!(g.init(), InitStatus::Success);
    assert_eq!(g.init(), InitStatus::AlreadyInitialized);
}

#[test]
fn player_tallies() {
    let mut g = StellarBomb::new();
    g.save_score(1, s("p1"), 1, s("easy"), 100, 25);
    g.save_score(2, s("p2"), 1, s("hard"), 40, 5);
    g.save_score(3, s("p1"), 2, s("hard"), 30, 12);
    g.save_score(4, s("p1"), 3, s("medium"), 5, 1);
    assert_eq!(g.get_player_total_score(&s("p1")), 135);
    assert_eq!(g.get_player_total_score(&s("p2")), 40);
    assert_eq!(g.get_player_total_score(&s("p3")), 0);
    assert_eq!(g.get_puzzles_solved_count(&s("p1")), 3);
    assert_eq!(g.get_player_stats(&s("p1")), (135, 3, 1));
    assert_eq!(g.get_player_stats(&s("p3")), (0, 0, 0));
    g.clear_scores();
    assert_eq!(g.get_player_total_score(&s("p1")), 0);
}

#[test]
fn total_overflow_is_reported() {
    let mut g = StellarBomb::new();
    g.save_score(1, s("p1"), 1, s("easy"), u32::MAX, 25);
    assert_eq!(g.checked_player_total_score(&s("p1")), Some(u32::MAX));
    g.save_score(2, s("p1"), 2, s("easy"), 1, 25);
    assert_eq!(g.checked_player_total_score(&s("p1")), None);
    assert_eq!(g.checked_puzzles_solved_count(&s("p1")), Some(2));
}

#[test]
fn solution_must_not_be_empty() {
    assert!(StellarBomb::validate_solution(1, &s("x")));
    assert!(!StellarBomb::validate_solution(1, &s("")));
}

#[test]
fn leaderboard_ranks_totals() {
    let mut g = StellarBomb::new();
    assert_eq!(g.get_leaderboard(5), Some(vec![]));
    g.save_score(1, s("p1"), 1, s("easy"), 100, 25);
    g.save_score(2, s("p2"), 1, s("hard"), 40, 5);
    g.save_score(3, s("p3"), 2, s("hard"), 200, 12);
    g.save_score(4, s("p1"), 3, s("medium"), 35, 1);
    assert_eq!(g.get_leaderboard(2), Some(vec![(s("p3"), 200), (s("p1"), 135)]));
    assert_eq!(
        g.get_leaderboard(10),
        Some(vec![(s("p3"), 200), (s("p1"), 135), (s("p2"), 40)])
    );
    assert_eq!(g.get_leaderboard(0), Some(vec![]));
}

#[test]
fn leaderboard_ties_keep_first_scorer_first() {
    let mut g = StellarBomb::new();
    g.save_score(1, s("b"), 1, s("easy"), 10, 0);
    g.save_score(2, s("a"), 1, s("easy"), 10, 0);
    assert_eq!(g.get_leaderboard(2), Some(vec![(s("b"), 10), (s("a"), 10)]));
    assert_eq!(g.get_leaderboard(1), Some(vec![(s("b"), 10)]));
}

#[test]
fn leaderboard_overflow_is_reported() {
    let mut g = StellarBomb::new();
    g.save_score(1, s("p1"), 1, s("easy"), u32::MAX, 0);
    g.save_score(2, s("p2"), 1, s("easy"), 3, 0);
    assert_eq!(g.get_leaderboard(1), Some(vec![(s("p1"), u32::MAX)]));
    g.save_score(3, s("p1"), 2, s("easy"), 1, 0);
    assert_eq!(g.get_leaderboard(1), None);
}
