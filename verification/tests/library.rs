use skill_ladder::data::{Match, RosterEntry};
use skill_ladder::outcome::{outcome_of_scores, Outcome};
use skill_ladder::pipeline::run_ranking;
use skill_ladder::replay::filter_matches;
use skillratings::trueskill::TrueSkillRating;

fn entry(id: &str, name: &str) -> RosterEntry {
    RosterEntry { id: id.to_string(), name: name.to_string() }
}

fn game(p1: &str, p2: &str, outcome: Outcome) -> Match {
    Match { player1_id: p1.to_string(), player2_id: p2.to_string(), outcome }
}

#[test]
fn outcome_of_scores_classifies_exactly() {
    assert_eq!(outcome_of_scores(3, 1), Outcome::Win);
    assert_eq!(outcome_of_scores(1, 3), Outcome::Loss);
    assert_eq!(outcome_of_scores(2, 2), Outcome::Draw);
    assert_eq!(outcome_of_scores(0, -1), Outcome::Win);
    assert_eq!(outcome_of_scores(i32::MAX, i32::MIN), Outcome::Win);
    assert_eq!(outcome_of_scores(i32::MIN, i32::MAX), Outcome::Loss);
    assert_eq!(outcome_of_scores(i32::MIN, i32::MIN), Outcome::Draw);
}

#[test]
fn empty_replay_keeps_defaults() {
    let roster = vec![entry("1", "Ann"), entry("2", "Ben")];
    let rows = run_ranking(&roster, TrueSkillRating::new(), &Vec::new());
    assert_eq!(rows.len(), 2);
    for row in &rows {
        assert_eq!(row.wins, 0);
        assert_eq!(row.losses, 0);
        assert_eq!(row.rating, TrueSkillRating::new());
    }
    // Equal rank scores: the tie-break keeps the roster order.
    assert_eq!(rows[0].name, "Ann");
    assert_eq!(rows[1].name, "Ben");
    assert_eq!(rows[0].place, 1);
    assert_eq!(rows[1].place, 2);
}

#[test]
fn three_way_cycle_balances_tallies() {
    let roster = vec![entry("a", "A"), entry("b", "B"), entry("c", "C")];
    let matches = vec![
        game("a", "b", Outcome::Win),
        game("b", "c", Outcome::Win),
        game("c", "a", Outcome::Win),
    ];
    let rows = run_ranking(&roster, TrueSkillRating::new(), &matches);
    assert_eq!(rows.len(), 3);
    let mut total_wins = 0;
    let mut total_losses = 0;
    for row in &rows {
        assert_eq!(row.wins, 1);
        assert_eq!(row.losses, 1);
        total_wins += row.wins;
        total_losses += row.losses;
    }
    assert_eq!(total_wins, 3);
    assert_eq!(total_losses, 3);
    let places: Vec<usize> = rows.iter().map(|r| r.place).collect();
    assert_eq!(places, vec![1, 2, 3]);
}

#[test]
fn winner_ranks_above_loser() {
    let roster = vec![entry("a", "A"), entry("b", "B")];
    // From A's perspective a loss: B wins the only match.
    let matches = vec![game("a", "b", Outcome::Loss)];
    let rows = run_ranking(&roster, TrueSkillRating::new(), &matches);
    assert_eq!(rows.len(), 2);
    assert_eq!(rows[0].name, "B");
    assert_eq!(rows[0].wins, 1);
    assert_eq!(rows[0].losses, 0);
    assert_eq!(rows[1].name, "A");
    assert_eq!(rows[1].wins, 0);
    assert_eq!(rows[1].losses, 1);
}

#[test]
fn unknown_identity_is_a_no_op() {
    let roster = vec![entry("a", "A"), entry("b", "B")];
    let matches = vec![
        game("UNKNOWN", "a", Outcome::Win),
        game("a", "b", Outcome::Win),
        game("b", "UNKNOWN", Outcome::Draw),
    ];
    let rows = run_ranking(&roster, TrueSkillRating::new(), &matches);
    let with_only_known = run_ranking(
        &roster,
        TrueSkillRating::new(),
        &vec![game("a", "b", Outcome::Win)],
    );
    assert_eq!(rows.len(), 2);
    for (r, s) in rows.iter().zip(with_only_known.iter()) {
        assert_eq!(r.place, s.place);
        assert_eq!(r.name, s.name);
        assert_eq!(r.rating, s.rating);
        assert_eq!(r.wins, s.wins);
        assert_eq!(r.losses, s.losses);
        assert_eq!(r.id, s.id);
    }
}

#[test]
fn sentinel_matches_are_dropped_before_replay() {
    let sentinel = "0".to_string();
    let matches = vec![
        game("a", "b", Outcome::Win),
        game("0", "a", Outcome::Win),
        game("b", "0", Outcome::Loss),
        game("b", "a", Outcome::Draw),
    ];
    let kept = filter_matches(&matches, &sentinel);
    assert_eq!(kept.len(), 2);
    assert_eq!(kept[0].player1_id, "a");
    assert_eq!(kept[0].player2_id, "b");
    assert_eq!(kept[0].outcome, Outcome::Win);
    assert_eq!(kept[1].player1_id, "b");
    assert_eq!(kept[1].player2_id, "a");
    assert_eq!(kept[1].outcome, Outcome::Draw);
    assert_eq!(filter_matches(&Vec::new(), &sentinel).len(), 0);
}

#[test]
fn dropped_match_leaves_competitor_untouched() {
    let roster = vec![entry("a", "A"), entry("b", "B")];
    let raw = vec![game("0", "a", Outcome::Win)];
    let kept = filter_matches(&raw, &"0".to_string());
    assert_eq!(kept.len(), 0);
    let rows = run_ranking(&roster, TrueSkillRating::new(), &kept);
    assert_eq!(rows.len(), 2);
    for row in &rows {
        assert_eq!(row.wins, 0);
        assert_eq!(row.losses, 0);
        assert_eq!(row.rating, TrueSkillRating::new());
    }
}

#[test]
fn duplicate_identities_collapse_to_one_row() {
    let roster = vec![entry("x", "first name"), entry("y", "Other"), entry("x", "second name")];
    let matches = vec![game("x", "y", Outcome::Win)];
    let rows = run_ranking(&roster, TrueSkillRating::new(), &matches);
    assert_eq!(rows.len(), 2);
    let places: Vec<usize> = rows.iter().map(|r| r.place).collect();
    assert_eq!(places, vec![1, 2]);
    let x_row = rows.iter().find(|r| r.id == "x").unwrap();
    // The later roster entry refreshed the displayed name.
    assert_eq!(x_row.name, "second name");
    assert_eq!(x_row.wins, 1);
}

#[test]
fn rerun_from_scratch_is_identical() {
    let roster = vec![entry("a", "A"), entry("b", "B"), entry("c", "C")];
    let matches = vec![
        game("a", "b", Outcome::Win),
        game("b", "c", Outcome::Draw),
        game("c", "a", Outcome::Loss),
        game("a", "b", Outcome::Loss),
    ];
    let first = run_ranking(&roster, TrueSkillRating::new(), &matches);
    let second = run_ranking(&roster, TrueSkillRating::new(), &matches);
    assert_eq!(first.len(), second.len());
    for (r, s) in first.iter().zip(second.iter()) {
        assert_eq!(r.place, s.place);
        assert_eq!(r.name, s.name);
        assert_eq!(r.rating, s.rating);
        assert_eq!(r.wins, s.wins);
        assert_eq!(r.losses, s.losses);
        assert_eq!(r.id, s.id);
    }
}
