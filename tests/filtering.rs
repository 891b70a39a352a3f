use cf_rec::dtos::{ProblemDTO, SubmissionDTO};
use cf_rec::filter::{filter_problems, FilterOptions, User};
use cf_rec::problem::{CompetitionSystem, Division, Problem};

fn problem(contest_id: i64, index: &str, div: Division, rating: i64) -> Problem {
    Problem {
        contest_id,
        contest_name: format!("Round {}", contest_id),
        contest_type: CompetitionSystem::CF,
        div,
        index: index.to_string(),
        name: format!("P{}{}", contest_id, index),
        rating,
    }
}

fn user(accepted: &[&str], excluded: &[&str]) -> User {
    User {
        handle: "me".to_string(),
        max_rating: 1900,
        accepted_problems: accepted.iter().map(|s| s.to_string()).collect(),
        excluded_problems: excluded.iter().map(|s| s.to_string()).collect(),
    }
}

fn options(min_diff: i64, max_diff: i64, div: Vec<Division>) -> FilterOptions {
    FilterOptions { min_diff, max_diff, oldest_round: None, div, user: None, pool_size: None }
}

fn ids(ps: &[Problem]) -> Vec<String> {
    ps.iter().map(|p| p.combined_id()).collect()
}

fn catalog() -> Vec<Problem> {
    vec![
        problem(1400, "A", Division::Div1, 1500),
        problem(1500, "A", Division::Div1, 1500),
        problem(1500, "B", Division::Div1, 1600),
        problem(1501, "A", Division::Div2, 1500),
        problem(1502, "C", Division::Div12, 1450),
        problem(1503, "D", Division::GlobalRound, 1550),
    ]
}

#[test]
fn filter_by_band_inclusive() {
    let r = filter_problems(&catalog(), &options(1450, 1550, vec![Division::Div1, Division::Div12, Division::GlobalRound]));
    assert_eq!(ids(&r), vec!["1400A", "1500A", "1502C", "1503D"]);
}

#[test]
fn filter_by_oldest_round() {
    let mut o = options(0, 4000, vec![Division::Div1]);
    o.oldest_round = Some(1480);
    assert_eq!(ids(&filter_problems(&catalog(), &o)), vec!["1500A", "1500B"]);
}

#[test]
fn filter_by_division() {
    let r = filter_problems(&catalog(), &options(0, 4000, vec![Division::Div2]));
    assert_eq!(ids(&r), vec!["1501A"]);
    let none = filter_problems(&catalog(), &options(0, 4000, vec![]));
    assert!(none.is_empty());
}

#[test]
fn filter_skips_solved_and_excluded() {
    let mut o = options(0, 4000, vec![Division::Div1, Division::Div2]);
    o.user = Some(user(&["1500A"], &["1501A"]));
    assert_eq!(ids(&filter_problems(&catalog(), &o)), vec!["1400A", "1500B"]);
}

#[test]
fn filter_cap_keeps_first() {
    let mut o = options(0, 4000, vec![Division::Div1, Division::Div2, Division::Div12, Division::GlobalRound]);
    o.pool_size = Some(2);
    assert_eq!(ids(&filter_problems(&catalog(), &o)), vec!["1400A", "1500A"]);
    o.pool_size = Some(0);
    assert!(filter_problems(&catalog(), &o).is_empty());
    o.pool_size = Some(100);
    assert_eq!(filter_problems(&catalog(), &o).len(), 6);
}

#[test]
fn filter_is_repeatable() {
    let mut o = options(1400, 1600, vec![Division::Div1, Division::Div2]);
    o.user = Some(user(&["1500B"], &[]));
    let first = ids(&filter_problems(&catalog(), &o));
    let second = ids(&filter_problems(&catalog(), &o));
    assert_eq!(first, second);
    assert_eq!(first, vec!["1400A", "1500A", "1501A"]);
}

#[test]
fn filter_empty_catalog() {
    assert!(filter_problems(&vec![], &options(0, 4000, vec![Division::Div1])).is_empty());
}

fn submission(contest_id: i64, index: &str, verdict: &str) -> SubmissionDTO {
    SubmissionDTO {
        problem: ProblemDTO { contest_id, index: index.to_string(), name: "x".to_string(), rating: 1000 },
        verdict: verdict.to_string(),
    }
}

#[test]
fn snapshot_keeps_accepted_only() {
    let subs = vec![
        submission(1500, "A", "OK"),
        submission(1500, "B", "WRONG_ANSWER"),
        submission(1501, "C", "ok"),
        submission(1502, "D1", "OK"),
    ];
    let u = User::new(&"tourist".to_string(), 3800, &subs, vec!["1600E".to_string()]);
    assert_eq!(u.handle, "tourist");
    assert_eq!(u.max_rating, 3800);
    assert_eq!(u.accepted_problems, vec!["1500A".to_string(), "1502D1".to_string()]);
    assert_eq!(u.excluded_problems, vec!["1600E".to_string()]);
}
