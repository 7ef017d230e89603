use skill_ladder::data::Player;
use skill_ladder::outcome::Outcome;
use skill_ladder::replay::simulate_match;
use skillratings::trueskill::{get_rank, TrueSkillRating};

fn fresh(id: &str) -> Player {
    Player {
        id: id.to_string(),
        name: id.to_string(),
        wins: 0,
        losses: 0,
        rating: TrueSkillRating::new(),
    }
}

#[test]
fn win_moves_rank_scores_apart() {
    let mut winner = fresh("w");
    let mut loser = fresh("l");
    let rank_before = get_rank(&TrueSkillRating::new());
    simulate_match(&mut winner, &mut loser, Outcome::Win);
    // From equal priors the winner's conservative rank score does not fall
    // and the loser's does not rise.
    assert!(get_rank(&winner.rating) >= rank_before);
    assert!(get_rank(&loser.rating) <= rank_before);
    // The update really moved the belief states off the prior.
    assert!(winner.rating.rating > loser.rating.rating);
    assert_eq!(winner.wins, 1);
    assert_eq!(winner.losses, 0);
    assert_eq!(loser.wins, 0);
    assert_eq!(loser.losses, 1);
}

#[test]
fn draw_between_equals_keeps_means() {
    let mut one = fresh("1");
    let mut two = fresh("2");
    let sigma_before = TrueSkillRating::new().uncertainty;
    simulate_match(&mut one, &mut two, Outcome::Draw);
    // Equal belief states drawn against each other keep their means.
    assert!((one.rating.rating - 25.0).abs() < 1e-9);
    assert!((two.rating.rating - 25.0).abs() < 1e-9);
    // Both sides stay equal, and the spread never grows beyond the
    // dynamics-factor inflation.
    assert_eq!(one.rating, two.rating);
    let tau = 25.0 / 300.0;
    let inflated = (sigma_before * sigma_before + tau * tau).sqrt();
    assert!(one.rating.uncertainty <= inflated + 1e-12);
    // A draw counts in neither tally.
    assert_eq!(one.wins, 0);
    assert_eq!(one.losses, 0);
    assert_eq!(two.wins, 0);
    assert_eq!(two.losses, 0);
}

#[test]
fn update_reproduces_published_values() {
    let mut underdog = fresh("u");
    let mut favourite = fresh("f");
    favourite.rating = TrueSkillRating { rating: 50.0, uncertainty: 1.21 };
    simulate_match(&mut underdog, &mut favourite, Outcome::Win);
    assert!(((underdog.rating.rating * 100.0).round() - 4410.0).abs() < f64::EPSILON);
    assert!(((underdog.rating.uncertainty * 100.0).round() - 528.0).abs() < f64::EPSILON);
    assert!(((favourite.rating.rating * 100.0).round() - 4960.0).abs() < f64::EPSILON);
    assert!(((favourite.rating.uncertainty * 100.0).round() - 121.0).abs() < f64::EPSILON);
}

#[test]
fn decisive_outcomes_mirror() {
    let mut a1 = fresh("a");
    let mut b1 = fresh("b");
    simulate_match(&mut a1, &mut b1, Outcome::Win);
    let mut a2 = fresh("a");
    let mut b2 = fresh("b");
    simulate_match(&mut a2, &mut b2, Outcome::Loss);
    // A loss for the first competitor is the winner's update seen from the
    // other chair.
    assert_eq!(a1.rating, b2.rating);
    assert_eq!(b1.rating, a2.rating);
}
