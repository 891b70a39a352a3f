//! Raw catalog records as the catalog provider hands them over.
use vstd::prelude::*;

verus! {

/// A rated problem of the catalog, linked to its contest.
pub struct ProblemDTO {
    pub contest_id: i64,
    pub index: String,
    pub name: String,
    pub rating: i64,
}

/// A contest of the catalog; `contest_type` is its scoring system by name.
pub struct ContestDTO {
    pub id: i64,
    pub name: String,
    pub contest_type: String,
}

impl ContestDTO {
    pub fn clone(&self) -> (r: Self)
        ensures
            r == *self,
    {
        Self { id: self.id, name: self.name.clone(), contest_type: self.contest_type.clone() }
    }
}

/// A submission of the user, with the rated problem that it was made on.
pub struct SubmissionDTO {
    pub problem: ProblemDTO,
    pub verdict: String,
}

/// The public profile of a user.
pub struct UserInfoDTO {
    pub handle: String,
    pub rank: String,
    pub rating: i64,
    pub max_rank: String,
    pub max_rating: i64,
}

/// A catalog problem entry as the provider lists it: the rating and the
/// contest link may be missing.
pub struct RawProblemEntry {
    pub contest_id: Option<i64>,
    pub index: String,
    pub name: String,
    pub rating: Option<i64>,
}

/// A submission as the provider lists it.
pub struct RawSubmission {
    pub problem: RawProblemEntry,
    pub verdict: String,
}

/// The catalog problem that an entry gives, if it has both a contest and a
/// rating.
pub open spec fn rated(e: RawProblemEntry) -> Option<ProblemDTO> {
    match (e.contest_id, e.rating) {
        (Some(contest_id), Some(rating)) => Some(
            ProblemDTO { contest_id, index: e.index, name: e.name, rating },
        ),
        _ => None,
    }
}

/// The rated problems of a list of entries, in order.
pub open spec fn rated_all(es: Seq<RawProblemEntry>) -> Seq<ProblemDTO>
    decreases es.len(),
{
    if es.len() == 0 {
        Seq::empty()
    } else {
        let rest = rated_all(es.drop_last());
        match rated(es.last()) {
            Some(p) => rest.push(p),
            None => rest,
        }
    }
}

/// The submissions whose problem is rated and linked to a contest, in order.
pub open spec fn rated_submissions_of(ss: Seq<RawSubmission>) -> Seq<SubmissionDTO>
    decreases ss.len(),
{
    if ss.len() == 0 {
        Seq::empty()
    } else {
        let rest = rated_submissions_of(ss.drop_last());
        match rated(ss.last().problem) {
            Some(p) => rest.push(SubmissionDTO { problem: p, verdict: ss.last().verdict }),
            None => rest,
        }
    }
}

fn rate(e: &RawProblemEntry) -> (r: Option<ProblemDTO>)
    ensures
        r == rated(*e),
{
    match (e.contest_id, e.rating) {
        (Some(contest_id), Some(rating)) => Some(
            ProblemDTO { contest_id, index: e.index.clone(), name: e.name.clone(), rating },
        ),
        _ => None,
    }
}

/// The entries that have both a rating and a contest, as catalog problems.
pub fn rated_problems(entries: &Vec<RawProblemEntry>) -> (r: Vec<ProblemDTO>)
    ensures
        r@ == rated_all(entries@),
{
    let ghost es = entries@;
    let mut out: Vec<ProblemDTO> = Vec::new();
    let mut i: usize = 0;
    while i < entries.len()
        invariant
            i <= entries.len(),
            es == entries@,
            out@ == rated_all(es.take(i as int)),
        decreases entries.len() - i,
    {
        proof {
            assert(es.take(i + 1).drop_last() =~= es.take(i as int));
            assert(es.take(i + 1).last() == entries@[i as int]);
        }
        match rate(&entries[i]) {
            Some(p) => out.push(p),
            None => {},
        }
        i = i + 1;
    }
    assert(es.take(entries.len() as int) =~= es);
    out
}

/// The submissions on problems that have both a rating and a contest.
pub fn rated_submissions(submissions: &Vec<RawSubmission>) -> (r: Vec<SubmissionDTO>)
    ensures
        r@ == rated_submissions_of(submissions@),
{
    let ghost ss = submissions@;
    let mut out: Vec<SubmissionDTO> = Vec::new();
    let mut i: usize = 0;
    while i < submissions.len()
        invariant
            i <= submissions.len(),
            ss == submissions@,
            out@ == rated_submissions_of(ss.take(i as int)),
        decreases submissions.len() - i,
    {
        proof {
            assert(ss.take(i + 1).drop_last() =~= ss.take(i as int));
            assert(ss.take(i + 1).last() == submissions@[i as int]);
        }
        let s = &submissions[i];
        match rate(&s.problem) {
            Some(p) => out.push(SubmissionDTO { problem: p, verdict: s.verdict.clone() }),
            None => {},
        }
        i = i + 1;
    }
    assert(ss.take(submissions.len() as int) =~= ss);
    out
}

} // verus!
