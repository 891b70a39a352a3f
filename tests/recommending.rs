use cf_rec::filter::User;
use cf_rec::problem::{CompetitionSystem, Division, Problem};
use cf_rec::recommender::{BindOutcome, ProblemRecommender};

fn problem(contest_id: i64, index: &str, div: Division, rating: i64) -> Problem {
    Problem {
        contest_id,
        contest_name: format!("Round {}", contest_id),
        contest_type: CompetitionSystem::CF,
        div,
        index: index.to_string(),
        name: format!("P{}{}", contest_id, index),
        rating,
    }
}

fn nobody() -> User {
    User { handle: "me".to_string(), max_rating: 1300, accepted_problems: vec![], excluded_problems: vec![] }
}

fn bound_id(r: &ProblemRecommender) -> Option<String> {
    r.bound_problem().as_ref().map(|p| p.combined_id())
}

fn with_bound(estimate: i64, rating: i64, streak: i64) -> ProblemRecommender {
    ProblemRecommender::from_parts("me".to_string(), 1300, estimate, Some(problem(1500, "A", Division::Div1, rating)), streak)
}

#[test]
fn fresh_recommender() {
    let r = ProblemRecommender::new(&"me".to_string(), 1300);
    assert_eq!(r.handle(), "me");
    assert_eq!(r.max_rating(), 1300);
    assert_eq!(r.recommended_diff(), 1500);
    assert_eq!(r.streak(), 0);
    assert!(r.bound_problem().is_none());
}

#[test]
fn solve_at_even_rating() {
    let mut r = with_bound(1500, 1500, 0);
    assert!(r.solve_problem());
    assert_eq!(r.recommended_diff(), 1512);
    assert_eq!(r.streak(), 1);
    assert!(r.bound_problem().is_none());
}

#[test]
fn fail_against_harder_problem() {
    let mut r = with_bound(1500, 1900, 0);
    assert!(r.unsolve_problem());
    assert_eq!(r.recommended_diff(), 1498);
    assert_eq!(r.streak(), -1);
    assert!(r.bound_problem().is_none());
}

#[test]
fn streak_reversal_jumps_to_one() {
    let mut r = with_bound(1500, 1500, -3);
    r.solve_problem();
    assert_eq!(r.streak(), 1);
    let mut r = with_bound(1500, 1500, 4);
    r.unsolve_problem();
    assert_eq!(r.streak(), -1);
}

#[test]
fn streak_accumulates() {
    let mut r = with_bound(1500, 1500, 2);
    r.solve_problem();
    assert_eq!(r.streak(), 3);
    let mut r = with_bound(1500, 1500, -2);
    r.unsolve_problem();
    assert_eq!(r.streak(), -3);
}

#[test]
fn resolve_without_binding_changes_nothing() {
    let mut r = ProblemRecommender::from_parts("me".to_string(), 1300, 1500, None, 2);
    assert!(!r.solve_problem());
    assert!(!r.unsolve_problem());
    assert!(!r.drop_problem());
    assert_eq!(r.recommended_diff(), 1500);
    assert_eq!(r.streak(), 2);
}

#[test]
fn drop_keeps_rating_and_streak() {
    let mut r = with_bound(1600, 2000, -2);
    assert!(r.drop_problem());
    assert!(r.bound_problem().is_none());
    assert_eq!(r.recommended_diff(), 1600);
    assert_eq!(r.streak(), -2);
}

#[test]
fn bind_twice_keeps_first() {
    let catalog = vec![
        problem(1500, "A", Division::Div1, 1500),
        problem(1501, "B", Division::Div12, 1520),
        problem(1502, "C", Division::GlobalRound, 1480),
    ];
    let mut r = ProblemRecommender::new(&"me".to_string(), 1300);
    assert_eq!(r.bind_problem(&catalog, nobody()), BindOutcome::Bound);
    let first = bound_id(&r);
    assert!(first.is_some());
    assert_eq!(r.bind_problem(&catalog, nobody()), BindOutcome::AlreadyBound);
    assert_eq!(bound_id(&r), first);
    assert_eq!(r.recommended_diff(), 1500);
}

#[test]
fn bind_single_candidate() {
    let catalog = vec![
        problem(1500, "A", Division::Div1, 1500),
        problem(1400, "B", Division::Div1, 1500),
        problem(1501, "C", Division::Div2, 1500),
        problem(1502, "D", Division::Div1, 1700),
    ];
    let mut r = ProblemRecommender::new(&"me".to_string(), 1300);
    assert_eq!(r.bind_problem(&catalog, nobody()), BindOutcome::Bound);
    assert_eq!(bound_id(&r), Some("1500A".to_string()));
}

#[test]
fn bind_from_fallback_only() {
    let catalog = vec![
        problem(1500, "A", Division::Div2, 1500),
        problem(1501, "B", Division::Div2, 1600),
        problem(1502, "C", Division::Div1, 1900),
    ];
    let r = ProblemRecommender::new(&"me".to_string(), 1300);
    let pool = r.generate_problem_pool(&catalog, nobody());
    assert_eq!(pool.len(), 1);
    assert_eq!(pool[0].combined_id(), "1501B");
    for _ in 0..20 {
        let mut r = ProblemRecommender::new(&"me".to_string(), 1300);
        assert_eq!(r.bind_problem(&catalog, nobody()), BindOutcome::Bound);
        assert_eq!(bound_id(&r), Some("1501B".to_string()));
    }
}

#[test]
fn bind_skips_solved() {
    let catalog = vec![problem(1500, "A", Division::Div1, 1500), problem(1500, "B", Division::Div1, 1500)];
    let mut user = nobody();
    user.accepted_problems.push("1500A".to_string());
    let mut r = ProblemRecommender::new(&"me".to_string(), 1300);
    r.bind_problem(&catalog, user);
    assert_eq!(bound_id(&r), Some("1500B".to_string()));
}

#[test]
fn bind_with_nothing_eligible() {
    let catalog = vec![problem(1500, "A", Division::Div1, 3000), problem(1000, "B", Division::Div1, 1500)];
    let mut r = ProblemRecommender::new(&"me".to_string(), 1300);
    assert_eq!(r.bind_problem(&catalog, nobody()), BindOutcome::NoEligibleProblem);
    assert!(r.bound_problem().is_none());
    assert_eq!(r.recommended_diff(), 1500);
}

#[test]
fn streak_moves_the_request() {
    let catalog = vec![problem(1500, "A", Division::Div1, 1400), problem(1500, "B", Division::Div1, 1600)];
    let hot = ProblemRecommender::from_parts("me".to_string(), 1300, 1500, None, 2);
    assert_eq!(hot.request_diff(), 1600);
    let pool = hot.generate_problem_pool(&catalog, nobody());
    assert_eq!(pool.len(), 1);
    assert_eq!(pool[0].combined_id(), "1500B");
    let cold = ProblemRecommender::from_parts("me".to_string(), 1300, 1500, None, -2);
    assert_eq!(cold.request_diff(), 1400);
    let calm = ProblemRecommender::from_parts("me".to_string(), 1300, 1500, None, 1);
    assert_eq!(calm.request_diff(), 1500);
}

#[test]
fn bind_choice_picks_given_index() {
    let pool = vec![problem(1500, "A", Division::Div1, 1500), problem(1500, "B", Division::Div1, 1500)];
    let mut r = ProblemRecommender::new(&"me".to_string(), 1300);
    assert_eq!(r.bind_choice(&vec![], 0), BindOutcome::NoEligibleProblem);
    assert_eq!(r.bind_choice(&pool, 1), BindOutcome::Bound);
    assert_eq!(bound_id(&r), Some("1500B".to_string()));
    assert_eq!(r.bind_choice(&pool, 0), BindOutcome::AlreadyBound);
    assert_eq!(bound_id(&r), Some("1500B".to_string()));
}

#[test]
fn peak_rating_update() {
    let mut r = ProblemRecommender::new(&"me".to_string(), 1300);
    r.set_max_rating(1450);
    assert_eq!(r.max_rating(), 1450);
    assert_eq!(r.recommended_diff(), 1500);
}

#[test]
fn recommender_text() {
    let r = ProblemRecommender::new(&"me".to_string(), 1300);
    assert_eq!(r.to_string(), "handle: me\nmax_rating: 1300\nrecommended_diff: 1500\nbind_problem: 0 - \nnan\nstreak: 0");
    let b = with_bound(1500, 1500, -1);
    assert_eq!(
        b.to_string(),
        "handle: me\nmax_rating: 1300\nrecommended_diff: 1500\nbind_problem: 1500A - P1500A\nhttps://codeforces.com/problemset/problem/1500/A\nstreak: -1"
    );
}

#[test]
fn resolve_unbound_at_extremes_is_no_op() {
    let mut r = ProblemRecommender::from_parts("me".to_string(), 0, i64::MAX, None, i64::MAX);
    assert!(!r.solve_problem());
    let mut r = ProblemRecommender::from_parts("me".to_string(), 0, i64::MIN, None, i64::MIN);
    assert!(!r.unsolve_problem());
    assert_eq!(r.streak(), i64::MIN);
}
