//! The recommender: a skill estimate, at most one bound problem, and a
//! streak of same-outcome resolutions.
use rand::distributions::{Distribution, Uniform};
use vstd::prelude::*;
use crate::elo::{elo_delta, elo_change};
use crate::filter::{Criteria, FilterOptions, User, UserView, accepts, selection, filter_problems, lemma_filter_pure};
use crate::problem::{Division, Problem, ProblemView, views, text_of, unit_view};
use crate::text::{decimal_of, int_text};

verus! {

/// Pools draw from contests with at least this id.
pub const RECENT_ROUND: i64 = 1480;

/// The difficulty a pool aims at: the estimate, moved by 100 against a
/// streak of two or more failures and with one of two or more solves.
pub open spec fn request_of(estimate: int, streak: int) -> int {
    if streak <= -2 {
        estimate - 100
    } else if streak >= 2 {
        estimate + 100
    } else {
        estimate
    }
}

/// Recent Div. 1, Div. 1 + 2 and Global Round problems within 50 of the
/// request, that the user has neither solved nor excluded.
pub open spec fn primary_criteria(request: int, user: UserView) -> Criteria {
    Criteria {
        min_diff: request - 50,
        max_diff: request + 50,
        oldest_round: Some(RECENT_ROUND as int),
        divs: seq![Division::Div1, Division::Div12, Division::GlobalRound],
        user: Some(user),
        pool_size: None,
    }
}

/// Recent Div. 2 problems rated 50 to 150 above the request, that the user
/// has neither solved nor excluded.
pub open spec fn fallback_criteria(request: int, user: UserView) -> Criteria {
    Criteria {
        min_diff: request + 50,
        max_diff: request + 150,
        oldest_round: Some(RECENT_ROUND as int),
        divs: seq![Division::Div2],
        user: Some(user),
        pool_size: None,
    }
}

/// The candidates for a request: the primary pool, or the fallback pool
/// where the primary one is empty.
pub open spec fn pool_of(ps: Seq<ProblemView>, request: int, user: UserView) -> Seq<ProblemView> {
    let primary = selection(ps, primary_criteria(request, user));
    if primary.len() > 0 {
        primary
    } else {
        selection(ps, fallback_criteria(request, user))
    }
}

/// A pool never mixes the two bands: while the primary band has a
/// candidate, every candidate is from it; where it has none, every candidate
/// is from the fallback band.
pub proof fn lemma_pool_single_band(ps: Seq<ProblemView>, request: int, user: UserView)
    ensures
        selection(ps, primary_criteria(request, user)).len() > 0 ==> forall|i: int|
            0 <= i < pool_of(ps, request, user).len() ==> accepts(
                primary_criteria(request, user),
                #[trigger] pool_of(ps, request, user)[i],
            ),
        selection(ps, primary_criteria(request, user)).len() == 0 ==> forall|i: int|
            0 <= i < pool_of(ps, request, user).len() ==> accepts(
                fallback_criteria(request, user),
                #[trigger] pool_of(ps, request, user)[i],
            ),
{
    let p = primary_criteria(request, user);
    let f = fallback_criteria(request, user);
    lemma_filter_pure(ps, p, selection(ps, p), selection(ps, p));
    lemma_filter_pure(ps, f, selection(ps, f), selection(ps, f));
}

/// The estimate is far enough from the ends of `i64` for every step of the
/// recommender.
pub open spec fn estimate_fits(estimate: int) -> bool {
    i64::MIN + 250 <= estimate <= i64::MAX - 250
}

/// The outcome of a request to bind a problem.
#[derive(PartialEq, Eq, Structural, Clone, Copy, Debug)]
pub enum BindOutcome {
    /// A problem was bound already; nothing changed.
    AlreadyBound,
    /// No problem fits the request; nothing changed.
    NoEligibleProblem,
    /// A problem of the pool is now bound.
    Bound,
}

pub struct ProblemRecommender {
    handle: String,
    max_rating: i64,
    recommended_diff: i64,
    bind_problem: Option<Problem>,
    streak: i64,
}

/// The recommender as plain values.
pub struct RecommenderView {
    pub handle: Seq<char>,
    pub max_rating: int,
    pub recommended_diff: int,
    pub bound: Option<ProblemView>,
    pub streak: int,
}

/// The view of an optional problem.
pub open spec fn bound_view(p: Option<Problem>) -> Option<ProblemView> {
    match p {
        Some(q) => Some(q@),
        None => None,
    }
}

impl View for ProblemRecommender {
    type V = RecommenderView;

    closed spec fn view(&self) -> RecommenderView {
        RecommenderView {
            handle: self.handle@,
            max_rating: self.max_rating as int,
            recommended_diff: self.recommended_diff as int,
            bound: bound_view(self.bind_problem),
            streak: self.streak as int,
        }
    }
}

/// The text of the recommender, one field per line.
pub open spec fn recommender_text(r: RecommenderView) -> Seq<char> {
    "handle: "@ + r.handle + "\nmax_rating: "@ + decimal_of(r.max_rating) + "\nrecommended_diff: "@
        + decimal_of(r.recommended_diff) + "\nbind_problem: "@ + text_of(
        match r.bound {
            Some(p) => p,
            None => unit_view(),
        },
    ) + "\nstreak: "@ + decimal_of(r.streak)
}

/// Relies on rand's `Uniform::from(0..len)` sampled with `thread_rng()`: a
/// value in `0..len`. `Uniform::from` panics on an empty range, which
/// `requires` rules out.
#[verifier::external_body]
fn draw_index(len: usize) -> (r: usize)
    requires
        len > 0,
    ensures
        r < len,
{
    let mut rng = rand::thread_rng();
    Uniform::from(0..len).sample(&mut rng)
}

impl ProblemRecommender {
    /// A fresh recommender for `handle`: estimate 200 above the peak rating,
    /// nothing bound, no streak.
    pub fn new(handle: &String, max_rating: i64) -> (r: Self)
        requires
            max_rating <= i64::MAX - 200,
        ensures
            r@ == (RecommenderView {
                handle: handle@,
                max_rating: max_rating as int,
                recommended_diff: max_rating + 200,
                bound: None,
                streak: 0,
            }),
    {
        ProblemRecommender {
            handle: handle.clone(),
            max_rating,
            recommended_diff: max_rating + 200,
            bind_problem: None,
            streak: 0,
        }
    }

    /// A recommender with the given state, as a store kept it.
    pub fn from_parts(
        handle: String,
        max_rating: i64,
        recommended_diff: i64,
        bind_problem: Option<Problem>,
        streak: i64,
    ) -> (r: Self)
        ensures
            r@ == (RecommenderView {
                handle: handle@,
                max_rating: max_rating as int,
                recommended_diff: recommended_diff as int,
                bound: bound_view(bind_problem),
                streak: streak as int,
            }),
    {
        ProblemRecommender { handle, max_rating, recommended_diff, bind_problem, streak }
    }

    pub fn handle(&self) -> (r: &String)
        ensures
            r@ == self@.handle,
    {
        &self.handle
    }

    pub fn max_rating(&self) -> (r: i64)
        ensures
            r == self@.max_rating,
    {
        self.max_rating
    }

    pub fn recommended_diff(&self) -> (r: i64)
        ensures
            r == self@.recommended_diff,
    {
        self.recommended_diff
    }

    pub fn streak(&self) -> (r: i64)
        ensures
            r == self@.streak,
    {
        self.streak
    }

    pub fn bound_problem(&self) -> (r: &Option<Problem>)
        ensures
            bound_view(*r) == self@.bound,
    {
        &self.bind_problem
    }

    /// Takes the peak rating that the profile reports now.
    pub fn set_max_rating(&mut self, max_rating: i64)
        ensures
            final(self)@ == (RecommenderView { max_rating: max_rating as int, ..old(self)@ }),
    {
        self.max_rating = max_rating;
    }

    pub fn to_string(&self) -> (r: String)
        ensures
            r@ == recommender_text(self@),
    {
        let mut text = "handle: ".to_owned();
        text.append(self.handle.as_str());
        text.append("\nmax_rating: ");
        let v = int_text(self.max_rating);
        text.append(v.as_str());
        text.append("\nrecommended_diff: ");
        let v = int_text(self.recommended_diff);
        text.append(v.as_str());
        text.append("\nbind_problem: ");
        let shown = match &self.bind_problem {
            Some(p) => p.to_string(),
            None => Problem::unit().to_string(),
        };
        text.append(shown.as_str());
        text.append("\nstreak: ");
        let v = int_text(self.streak);
        text.append(v.as_str());
        text
    }

    /// The difficulty that the next pool aims at.
    pub fn request_diff(&self) -> (r: i64)
        requires
            estimate_fits(self@.recommended_diff),
        ensures
            r == request_of(self@.recommended_diff, self@.streak),
    {
        if self.streak <= -2 {
            self.recommended_diff - 100
        } else if self.streak >= 2 {
            self.recommended_diff + 100
        } else {
            self.recommended_diff
        }
    }

    /// The candidates for the next binding, given the catalog and the user.
    pub fn generate_problem_pool(&self, problems: &Vec<Problem>, user: User) -> (r: Vec<Problem>)
        requires
            estimate_fits(self@.recommended_diff),
        ensures
            views(r@) == pool_of(
                views(problems@),
                request_of(self@.recommended_diff, self@.streak),
                user@,
            ),
    {
        let request = self.request_diff();
        let ghost u = user@;
        let mut options = FilterOptions {
            min_diff: request - 50,
            max_diff: request + 50,
            oldest_round: Some(RECENT_ROUND),
            div: vec![Division::Div1, Division::Div12, Division::GlobalRound],
            user: Some(user),
            pool_size: None,
        };
        assert(options@ == primary_criteria(request as int, u));
        let primary = filter_problems(problems, &options);
        if primary.len() > 0 {
            return primary;
        }
        options.min_diff = request + 50;
        options.max_diff = request + 150;
        options.div = vec![Division::Div2];
        assert(options.div@ =~= seq![Division::Div2]);
        assert(options@ == fallback_criteria(request as int, u));
        filter_problems(problems, &options)
    }

    /// Binds `pool[choice]` unless a problem is bound already or the pool is
    /// empty.
    pub fn bind_choice(&mut self, pool: &Vec<Problem>, choice: usize) -> (r: BindOutcome)
        requires
            pool.len() > 0 ==> choice < pool.len(),
        ensures
            old(self)@.bound is Some ==> r == BindOutcome::AlreadyBound && final(self)@ == old(self)@,
            old(self)@.bound is None && pool.len() == 0 ==> r == BindOutcome::NoEligibleProblem
                && final(self)@ == old(self)@,
            old(self)@.bound is None && pool.len() > 0 ==> r == BindOutcome::Bound && final(self)@
                == (RecommenderView { bound: Some(pool@[choice as int]@), ..old(self)@ }),
    {
        if self.bind_problem.is_some() {
            BindOutcome::AlreadyBound
        } else if pool.len() == 0 {
            BindOutcome::NoEligibleProblem
        } else {
            self.bind_problem = Some(pool[choice].clone());
            BindOutcome::Bound
        }
    }

    /// Binds a problem drawn uniformly at random from the pool of the
    /// catalog, unless one is bound already or the pool is empty.
    pub fn bind_problem(&mut self, problems: &Vec<Problem>, user: User) -> (r: BindOutcome)
        requires
            estimate_fits(old(self)@.recommended_diff),
        ensures
            old(self)@.bound is Some ==> r == BindOutcome::AlreadyBound && final(self)@ == old(self)@,
            old(self)@.bound is None ==> {
                let pool = pool_of(
                    views(problems@),
                    request_of(old(self)@.recommended_diff, old(self)@.streak),
                    user@,
                );
                &&& (r == BindOutcome::NoEligibleProblem) == (pool.len() == 0)
                &&& pool.len() == 0 ==> final(self)@ == old(self)@
                &&& pool.len() > 0 ==> r == BindOutcome::Bound && exists|i: int|
                    0 <= i < pool.len() && final(self)@ == (RecommenderView {
                        bound: Some(#[trigger] pool[i]),
                        ..old(self)@
                    })
            },
    {
        if self.bind_problem.is_some() {
            return BindOutcome::AlreadyBound;
        }
        let pool = self.generate_problem_pool(problems, user);
        if pool.len() == 0 {
            return BindOutcome::NoEligibleProblem;
        }
        let choice = draw_index(pool.len());
        let r = self.bind_choice(&pool, choice);
        assert(views(pool@)[choice as int] == pool@[choice as int]@);
        r
    }

    /// Moves the estimate by the Elo update against the bound problem.
    fn rating_change(&mut self, solved: bool)
        requires
            old(self)@.bound is Some,
            estimate_fits(old(self)@.recommended_diff),
        ensures
            final(self)@ == (RecommenderView {
                recommended_diff: old(self)@.recommended_diff + elo_delta(
                    old(self)@.recommended_diff,
                    old(self)@.bound->Some_0.rating,
                    solved,
                ),
                ..old(self)@
            }),
    {
        let rating = match &self.bind_problem {
            Some(p) => p.rating,
            None => 0,
        };
        let delta = elo_change(self.recommended_diff, rating, solved);
        self.recommended_diff = self.recommended_diff + delta;
    }

    /// Resolves the bound problem as solved: the estimate gains, the streak
    /// becomes `max(streak + 1, 1)`, and nothing stays bound. Returns
    /// whether a problem was bound.
    pub fn solve_problem(&mut self) -> (r: bool)
        requires
            old(self)@.bound is Some ==> estimate_fits(old(self)@.recommended_diff),
            old(self)@.bound is Some ==> old(self)@.streak < i64::MAX,
        ensures
            r == old(self)@.bound is Some,
            !r ==> final(self)@ == old(self)@,
            r ==> final(self)@ == (RecommenderView {
                recommended_diff: old(self)@.recommended_diff + elo_delta(
                    old(self)@.recommended_diff,
                    old(self)@.bound->Some_0.rating,
                    true,
                ),
                bound: None,
                streak: if old(self)@.streak + 1 >= 1 { old(self)@.streak + 1 } else { 1 },
                ..old(self)@
            }),
    {
        if self.bind_problem.is_none() {
            return false;
        }
        self.rating_change(true);
        self.bind_problem = None;
        self.streak = if self.streak + 1 >= 1 { self.streak + 1 } else { 1 };
        true
    }

    /// Resolves the bound problem as unsolved: the estimate loses, the
    /// streak becomes `min(streak - 1, -1)`, and nothing stays bound.
    /// Returns whether a problem was bound.
    pub fn unsolve_problem(&mut self) -> (r: bool)
        requires
            old(self)@.bound is Some ==> estimate_fits(old(self)@.recommended_diff),
            old(self)@.bound is Some ==> old(self)@.streak > i64::MIN,
        ensures
            r == old(self)@.bound is Some,
            !r ==> final(self)@ == old(self)@,
            r ==> final(self)@ == (RecommenderView {
                recommended_diff: old(self)@.recommended_diff + elo_delta(
                    old(self)@.recommended_diff,
                    old(self)@.bound->Some_0.rating,
                    false,
                ),
                bound: None,
                streak: if old(self)@.streak - 1 <= -1 { old(self)@.streak - 1 } else { -1 },
                ..old(self)@
            }),
    {
        if self.bind_problem.is_none() {
            return false;
        }
        self.rating_change(false);
        self.bind_problem = None;
        self.streak = if self.streak - 1 <= -1 { self.streak - 1 } else { -1 };
        true
    }

    /// Unbinds the bound problem, leaving estimate and streak alone. Returns
    /// whether a problem was bound.
    pub fn drop_problem(&mut self) -> (r: bool)
        ensures
            r == old(self)@.bound is Some,
            final(self)@ == (RecommenderView { bound: None, ..old(self)@ }),
    {
        if self.bind_problem.is_none() {
            return false;
        }
        self.bind_problem = None;
        true
    }
}

} // verus!
