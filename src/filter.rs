//! The user snapshot and the problem filter.
use vstd::prelude::*;
use crate::dtos::{ProblemDTO, SubmissionDTO};
use crate::problem::{Division, Problem, ProblemView, views, combined_id_of};
use crate::text::{decimal_of, int_text, same_text};

verus! {

/// The characters of each text of a list.
pub open spec fn ids(v: Seq<String>) -> Seq<Seq<char>> {
    v.map_values(|s: String| s@)
}

/// What one user has solved and chose to skip, and their peak rating. The
/// two lists hold combined ids (see `Problem::combined_id`).
pub struct User {
    pub handle: String,
    pub max_rating: i64,
    pub accepted_problems: Vec<String>,
    pub excluded_problems: Vec<String>,
}

/// The combined id of a raw catalog problem.
pub open spec fn entry_id(p: ProblemDTO) -> Seq<char> {
    decimal_of(p.contest_id as int) + p.index@
}

/// The combined ids of the accepted submissions (verdict exactly `OK`), in
/// submission order.
pub open spec fn accepted_ids(subs: Seq<SubmissionDTO>) -> Seq<Seq<char>>
    decreases subs.len(),
{
    if subs.len() == 0 {
        Seq::empty()
    } else {
        let rest = accepted_ids(subs.drop_last());
        if subs.last().verdict@ == "OK"@ {
            rest.push(entry_id(subs.last().problem))
        } else {
            rest
        }
    }
}

fn entry_combined_id(p: &ProblemDTO) -> (r: String)
    ensures
        r@ == entry_id(*p),
{
    let mut id = int_text(p.contest_id);
    id.append(p.index.as_str());
    id
}

impl User {
    /// The snapshot of `handle`: the problems of its accepted submissions,
    /// and the ids that it excludes.
    pub fn new(
        handle: &String,
        max_rating: i64,
        submissions: &Vec<SubmissionDTO>,
        excluded_problems: Vec<String>,
    ) -> (r: User)
        ensures
            r.handle@ == handle@,
            r.max_rating == max_rating,
            ids(r.accepted_problems@) == accepted_ids(submissions@),
            r.excluded_problems@ == excluded_problems@,
    {
        let ghost subs = submissions@;
        let mut accepted: Vec<String> = Vec::new();
        let mut i: usize = 0;
        while i < submissions.len()
            invariant
                i <= submissions.len(),
                subs == submissions@,
                ids(accepted@) == accepted_ids(subs.take(i as int)),
            decreases submissions.len() - i,
        {
            let s = &submissions[i];
            proof {
                assert(subs.take(i + 1).drop_last() =~= subs.take(i as int));
                assert(subs.take(i + 1).last() == s);
            }
            if same_text(s.verdict.as_str(), "OK") {
                let id = entry_combined_id(&s.problem);
                accepted.push(id);
                proof {
                    assert(ids(accepted@) =~= accepted_ids(subs.take(i + 1)));
                }
            }
            i = i + 1;
        }
        assert(subs.take(submissions.len() as int) =~= subs);
        User { handle: handle.clone(), max_rating, accepted_problems: accepted, excluded_problems }
    }
}

/// What a filter asks of a problem. `pool_size`, when set, caps how many
/// problems the filter keeps.
pub struct FilterOptions {
    pub min_diff: i64,
    pub max_diff: i64,
    pub oldest_round: Option<i64>,
    pub div: Vec<Division>,
    pub user: Option<User>,
    pub pool_size: Option<i64>,
}

/// The ids that a user snapshot keeps out of every pool.
pub struct UserView {
    pub accepted: Seq<Seq<char>>,
    pub excluded: Seq<Seq<char>>,
}

impl View for User {
    type V = UserView;

    open spec fn view(&self) -> UserView {
        UserView { accepted: ids(self.accepted_problems@), excluded: ids(self.excluded_problems@) }
    }
}

/// Filter options as plain values.
pub struct Criteria {
    pub min_diff: int,
    pub max_diff: int,
    pub oldest_round: Option<int>,
    pub divs: Seq<Division>,
    pub user: Option<UserView>,
    pub pool_size: Option<int>,
}

impl View for FilterOptions {
    type V = Criteria;

    open spec fn view(&self) -> Criteria {
        Criteria {
            min_diff: self.min_diff as int,
            max_diff: self.max_diff as int,
            oldest_round: match self.oldest_round {
                Some(r) => Some(r as int),
                None => None,
            },
            divs: self.div@,
            user: match self.user {
                Some(u) => Some(u@),
                None => None,
            },
            pool_size: match self.pool_size {
                Some(k) => Some(k as int),
                None => None,
            },
        }
    }
}

/// The options are usable: a cap, if any, is not negative.
pub open spec fn options_valid(c: Criteria) -> bool {
    c.pool_size matches Some(k) ==> k >= 0
}

/// `p` meets every condition of `c` but the cap.
pub open spec fn accepts(c: Criteria, p: ProblemView) -> bool {
    &&& c.min_diff <= p.rating <= c.max_diff
    &&& (c.oldest_round matches Some(r) ==> p.contest_id >= r)
    &&& c.divs.contains(p.div)
    &&& (c.user matches Some(u) ==> !u.accepted.contains(combined_id_of(p))
        && !u.excluded.contains(combined_id_of(p)))
}

/// The problems of `ps` that `c` accepts, in their order.
pub open spec fn matching(ps: Seq<ProblemView>, c: Criteria) -> Seq<ProblemView>
    decreases ps.len(),
{
    if ps.len() == 0 {
        Seq::empty()
    } else {
        let rest = matching(ps.drop_last(), c);
        if accepts(c, ps.last()) {
            rest.push(ps.last())
        } else {
            rest
        }
    }
}

/// The first `k` of `s` where a cap `k` is set and exceeded; else all of `s`.
pub open spec fn capped(s: Seq<ProblemView>, cap: Option<int>) -> Seq<ProblemView> {
    match cap {
        Some(k) => if s.len() <= k {
            s
        } else {
            s.take(k)
        },
        None => s,
    }
}

/// What the filter keeps of `ps`.
pub open spec fn selection(ps: Seq<ProblemView>, c: Criteria) -> Seq<ProblemView> {
    capped(matching(ps, c), c.pool_size)
}

proof fn lemma_matching_sound(ps: Seq<ProblemView>, c: Criteria)
    ensures
        matching(ps, c).len() <= ps.len(),
        forall|i: int|
            0 <= i < matching(ps, c).len() ==> accepts(c, #[trigger] matching(ps, c)[i]) && ps.contains(
                matching(ps, c)[i],
            ),
    decreases ps.len(),
{
    if ps.len() > 0 {
        let rest = ps.drop_last();
        lemma_matching_sound(rest, c);
        assert forall|i: int| 0 <= i < matching(ps, c).len() implies accepts(
            c,
            #[trigger] matching(ps, c)[i],
        ) && ps.contains(matching(ps, c)[i]) by {
            if i < matching(rest, c).len() {
                let x = matching(rest, c)[i];
                let j = choose|j: int| 0 <= j < rest.len() && rest[j] == x;
                assert(ps[j] == x);
            } else {
                assert(ps[ps.len() - 1] == ps.last());
            }
        }
    }
}

/// The filter is a function of its inputs: two runs on the same problems
/// and options keep the same problems. Each kept problem is one of the input
/// that the options accept, and no more than the cap are kept.
pub proof fn lemma_filter_pure(ps: Seq<ProblemView>, c: Criteria, r1: Seq<ProblemView>, r2: Seq<ProblemView>)
    requires
        options_valid(c),
        r1 == selection(ps, c),
        r2 == selection(ps, c),
    ensures
        r1 == r2,
        forall|i: int| 0 <= i < r1.len() ==> accepts(c, #[trigger] r1[i]) && ps.contains(r1[i]),
        c.pool_size matches Some(k) ==> r1.len() <= k,
{
    lemma_matching_sound(ps, c);
    let m = matching(ps, c);
    assert forall|i: int| 0 <= i < r1.len() implies accepts(c, #[trigger] r1[i]) && ps.contains(r1[i]) by {
        assert(r1[i] == m[i]);
    }
}

fn contains_id(list: &Vec<String>, id: &String) -> (r: bool)
    ensures
        r == ids(list@).contains(id@),
{
    let mut i: usize = 0;
    while i < list.len()
        invariant
            i <= list.len(),
            forall|j: int| 0 <= j < i ==> list@[j]@ != id@,
        decreases list.len() - i,
    {
        if list[i] == *id {
            assert(ids(list@)[i as int] == id@);
            return true;
        }
        i = i + 1;
    }
    proof {
        if ids(list@).contains(id@) {
            let j = choose|j: int| 0 <= j < ids(list@).len() && ids(list@)[j] == id@;
            assert(list@[j]@ == id@);
        }
    }
    false
}

fn division_allowed(divs: &Vec<Division>, d: Division) -> (r: bool)
    ensures
        r == divs@.contains(d),
{
    let mut i: usize = 0;
    while i < divs.len()
        invariant
            i <= divs.len(),
            forall|j: int| 0 <= j < i ==> divs@[j] != d,
        decreases divs.len() - i,
    {
        if divs[i] == d {
            return true;
        }
        i = i + 1;
    }
    false
}

/// Whether `p` meets every condition of `options` but the cap.
pub fn accepts_problem(p: &Problem, options: &FilterOptions) -> (r: bool)
    ensures
        r == accepts(options@, p@),
{
    let in_band = options.min_diff <= p.rating && p.rating <= options.max_diff;
    let recent = match options.oldest_round {
        Some(oldest) => p.contest_id >= oldest,
        None => true,
    };
    if !(in_band && recent && division_allowed(&options.div, p.div)) {
        return false;
    }
    match &options.user {
        Some(u) => {
            let id = p.combined_id();
            !contains_id(&u.accepted_problems, &id) && !contains_id(&u.excluded_problems, &id)
        },
        None => true,
    }
}

/// The problems that `options` accepts, in input order, stopping once the
/// cap is reached.
pub fn filter_problems(problems: &Vec<Problem>, options: &FilterOptions) -> (r: Vec<Problem>)
    requires
        options_valid(options@),
    ensures
        views(r@) == selection(views(problems@), options@),
{
    let ghost vs = views(problems@);
    let mut res: Vec<Problem> = Vec::new();
    let mut i: usize = 0;
    while i < problems.len()
        invariant
            i <= problems.len(),
            vs == views(problems@),
            options_valid(options@),
            views(res@) == capped(matching(vs.take(i as int), options@), options@.pool_size),
        decreases problems.len() - i,
    {
        let problem = &problems[i];
        let ghost m = matching(vs.take(i as int), options@);
        proof {
            assert(vs.take(i + 1).drop_last() =~= vs.take(i as int));
            assert(vs.take(i + 1).last() == problem@);
        }
        let wanted = accepts_problem(problem, options);
        let room = match options.pool_size {
            Some(k) => (res.len() as i128) < (k as i128),
            None => true,
        };
        let ghost before = res@;
        if wanted && room {
            res.push(problem.clone());
            proof {
                assert(views(res@) =~= views(before).push(problem@));
                assert(capped(m, options@.pool_size) == m);
            }
        }
        proof {
            if wanted && !room {
                let k = options@.pool_size.unwrap();
                assert(m.push(problem@).take(k) =~= capped(m, options@.pool_size));
            }
        }
        i = i + 1;
    }
    assert(vs.take(problems.len() as int) =~= vs);
    res
}

} // verus!
