//! Classified catalog problems.
use std::collections::HashMap;
use vstd::prelude::*;
use crate::text::{has_substring, contains_text, decimal_of, int_text, same_text};
use crate::dtos::{ProblemDTO, ContestDTO};

verus! {

/// Normalised competitive tier of a contest.
#[derive(PartialEq, Eq, Structural, Clone, Copy, Debug)]
pub enum Division {
    Div1,
    Div2,
    Div12,
    GlobalRound,
    Educational,
    Other,
}

/// Scoring system of a contest.
#[derive(PartialEq, Eq, Structural, Clone, Copy, Debug)]
pub enum CompetitionSystem {
    CF,
    ICPC,
    IOI,
}

/// The division that a contest's name and system classify it as: the first
/// rule that matches wins.
pub open spec fn division_of(name: Seq<char>, system: CompetitionSystem) -> Division {
    if system == CompetitionSystem::CF && has_substring(name, "(Div. 1)"@) {
        Division::Div1
    } else if system == CompetitionSystem::CF && has_substring(name, "Div. 1 + Div. 2"@) {
        Division::Div12
    } else if system == CompetitionSystem::CF && has_substring(name, "Div. 2"@) {
        Division::Div2
    } else if system == CompetitionSystem::CF && has_substring(name, "Global Round"@) {
        Division::GlobalRound
    } else if system == CompetitionSystem::ICPC && has_substring(name, "Educational"@) {
        Division::Educational
    } else {
        Division::Other
    }
}

/// A contest is classified as something other than `Other` only when one of
/// the five substring rules matches it. A CF contest whose name holds
/// "Div. 1 + Div. 2" and not "(Div. 1)" is Div. 1 + 2, never Div. 2, though
/// its name holds "Div. 2" as well.
pub proof fn lemma_division_rules(name: Seq<char>, system: CompetitionSystem)
    ensures
        division_of(name, system) != Division::Other ==> (system == CompetitionSystem::CF && (
        has_substring(name, "(Div. 1)"@) || has_substring(name, "Div. 1 + Div. 2"@)
            || has_substring(name, "Div. 2"@) || has_substring(name, "Global Round"@))) || (system
            == CompetitionSystem::ICPC && has_substring(name, "Educational"@)),
        system == CompetitionSystem::CF && !has_substring(name, "(Div. 1)"@) && has_substring(
            name,
            "Div. 1 + Div. 2"@,
        ) ==> division_of(name, system) == Division::Div12,
{
}

impl Division {
    pub fn determine_division(contest_name: &String, contest_type: &CompetitionSystem) -> (r: Division)
        ensures
            r == division_of(contest_name@, *contest_type),
    {
        let name = contest_name.as_str();
        match contest_type {
            CompetitionSystem::CF => {
                if contains_text(name, "(Div. 1)") {
                    Division::Div1
                } else if contains_text(name, "Div. 1 + Div. 2") {
                    Division::Div12
                } else if contains_text(name, "Div. 2") {
                    Division::Div2
                } else if contains_text(name, "Global Round") {
                    Division::GlobalRound
                } else {
                    Division::Other
                }
            },
            CompetitionSystem::ICPC => {
                if contains_text(name, "Educational") {
                    Division::Educational
                } else {
                    Division::Other
                }
            },
            CompetitionSystem::IOI => Division::Other,
        }
    }
}

/// The scoring system that a contest type names, if it names one.
pub open spec fn system_of(s: Seq<char>) -> Option<CompetitionSystem> {
    if s == "CF"@ {
        Some(CompetitionSystem::CF)
    } else if s == "ICPC"@ {
        Some(CompetitionSystem::ICPC)
    } else if s == "IOI"@ {
        Some(CompetitionSystem::IOI)
    } else {
        None
    }
}

impl CompetitionSystem {
    /// The scoring system named `s` (`CF`, `ICPC` or `IOI`, case-sensitive).
    pub fn parse(s: &str) -> (r: Option<CompetitionSystem>)
        ensures
            r == system_of(s@),
    {
        if same_text(s, "CF") {
            Some(CompetitionSystem::CF)
        } else if same_text(s, "ICPC") {
            Some(CompetitionSystem::ICPC)
        } else if same_text(s, "IOI") {
            Some(CompetitionSystem::IOI)
        } else {
            None
        }
    }
}

/// A classified catalog problem. The pair of contest id and index identifies
/// it.
pub struct Problem {
    pub contest_id: i64,
    pub contest_name: String,
    pub contest_type: CompetitionSystem,
    pub div: Division,
    pub index: String,
    pub name: String,
    pub rating: i64,
}

/// A problem as plain values.
pub struct ProblemView {
    pub contest_id: int,
    pub contest_name: Seq<char>,
    pub contest_type: CompetitionSystem,
    pub div: Division,
    pub index: Seq<char>,
    pub name: Seq<char>,
    pub rating: int,
}

impl View for Problem {
    type V = ProblemView;

    open spec fn view(&self) -> ProblemView {
        ProblemView {
            contest_id: self.contest_id as int,
            contest_name: self.contest_name@,
            contest_type: self.contest_type,
            div: self.div,
            index: self.index@,
            name: self.name@,
            rating: self.rating as int,
        }
    }
}

/// The views of a sequence of problems.
pub open spec fn views(s: Seq<Problem>) -> Seq<ProblemView> {
    s.map_values(|p: Problem| p@)
}

/// The key that identifies a problem: its contest id in decimal, then its
/// index.
pub open spec fn combined_id_of(p: ProblemView) -> Seq<char> {
    decimal_of(p.contest_id) + p.index
}

/// The problem's page, or `nan` for a problem without a name.
pub open spec fn url_of(p: ProblemView) -> Seq<char> {
    if p.name.len() == 0 {
        "nan"@
    } else {
        "https://codeforces.com/problemset/problem/"@ + decimal_of(p.contest_id) + "/"@ + p.index
    }
}

/// The two-line description of a problem: id and name, then its page.
pub open spec fn text_of(p: ProblemView) -> Seq<char> {
    combined_id_of(p) + " - "@ + p.name + "\n"@ + url_of(p)
}

/// The placeholder that stands for no problem.
pub open spec fn unit_view() -> ProblemView {
    ProblemView {
        contest_id: 0,
        contest_name: Seq::empty(),
        contest_type: CompetitionSystem::CF,
        div: Division::Other,
        index: Seq::empty(),
        name: Seq::empty(),
        rating: 0,
    }
}

impl Problem {
    pub fn problem_url(&self) -> (r: String)
        ensures
            r@ == url_of(self@),
    {
        if self.name.as_str().unicode_len() == 0 {
            "nan".to_owned()
        } else {
            let mut url = "https://codeforces.com/problemset/problem/".to_owned();
            let id = int_text(self.contest_id);
            url.append(id.as_str());
            url.append("/");
            url.append(self.index.as_str());
            url
        }
    }

    /// The placeholder problem: no name, no index, zero ids and rating.
    pub fn unit() -> (r: Self)
        ensures
            r@ == unit_view(),
    {
        Self {
            contest_id: 0,
            contest_name: String::new(),
            index: String::new(),
            name: String::new(),
            rating: 0,
            div: Division::Other,
            contest_type: CompetitionSystem::CF,
        }
    }

    pub fn to_string(&self) -> (r: String)
        ensures
            r@ == text_of(self@),
    {
        let mut text = self.combined_id();
        text.append(" - ");
        text.append(self.name.as_str());
        text.append("\n");
        let url = self.problem_url();
        text.append(url.as_str());
        text
    }

    pub fn combined_id(&self) -> (r: String)
        ensures
            r@ == combined_id_of(self@),
    {
        let mut id = int_text(self.contest_id);
        id.append(self.index.as_str());
        id
    }

    pub fn clone(&self) -> (r: Self)
        ensures
            r@ == self@,
    {
        Self {
            contest_id: self.contest_id,
            contest_name: self.contest_name.clone(),
            index: self.index.clone(),
            name: self.name.clone(),
            rating: self.rating,
            div: self.div,
            contest_type: self.contest_type,
        }
    }
}

/// The position of the last contest with id `id`, if any.
pub open spec fn last_contest_index(cs: Seq<ContestDTO>, id: i64) -> Option<int>
    decreases cs.len(),
{
    if cs.len() == 0 {
        None
    } else if cs.last().id == id {
        Some(cs.len() - 1)
    } else {
        last_contest_index(cs.drop_last(), id)
    }
}

/// The problem that a catalog entry becomes within contest `c`, if `c`
/// names a known scoring system.
pub open spec fn classified(p: ProblemDTO, c: ContestDTO) -> Option<ProblemView> {
    match system_of(c.contest_type@) {
        Some(sys) => Some(
            ProblemView {
                contest_id: p.contest_id as int,
                contest_name: c.name@,
                contest_type: sys,
                div: division_of(c.name@, sys),
                index: p.index@,
                name: p.name@,
                rating: p.rating as int,
            },
        ),
        None => None,
    }
}

/// The classified problems of a catalog, in catalog order. An entry whose
/// contest is missing, or whose contest names no known scoring system, is
/// skipped; where contest ids repeat, the last such contest counts.
pub open spec fn catalog(ps: Seq<ProblemDTO>, cs: Seq<ContestDTO>) -> Seq<ProblemView>
    decreases ps.len(),
{
    if ps.len() == 0 {
        Seq::empty()
    } else {
        let rest = catalog(ps.drop_last(), cs);
        match last_contest_index(cs, ps.last().contest_id) {
            Some(k) => match classified(ps.last(), cs[k]) {
                Some(v) => rest.push(v),
                None => rest,
            },
            None => rest,
        }
    }
}

/// The map from contest ids to positions, as far as it is known.
pub open spec fn lookup(m: Map<i64, usize>, id: i64) -> Option<int> {
    if m.contains_key(id) {
        Some(m[id] as int)
    } else {
        None
    }
}

proof fn lemma_last_contest_in_range(cs: Seq<ContestDTO>, id: i64)
    ensures
        last_contest_index(cs, id) matches Some(k) ==> 0 <= k < cs.len() && cs[k].id == id,
    decreases cs.len(),
{
    if cs.len() > 0 && cs.last().id != id {
        lemma_last_contest_in_range(cs.drop_last(), id);
    }
}

pub fn get_problems(probDTOs: &Vec<ProblemDTO>, contDTOs: &Vec<ContestDTO>) -> (r: Vec<Problem>)
    ensures
        views(r@) == catalog(probDTOs@, contDTOs@),
{
    let cs = Ghost(contDTOs@);
    let ps = Ghost(probDTOs@);
    let mut positions: HashMap<i64, usize> = HashMap::new();
    let mut i: usize = 0;
    while i < contDTOs.len()
        invariant
            i <= contDTOs.len(),
            cs@ == contDTOs@,
            forall|id: i64| #[trigger] lookup(positions@, id) == last_contest_index(cs@.take(i as int), id),
        decreases contDTOs.len() - i,
    {
        let id = contDTOs[i].id;
        let ghost earlier = positions@;
        positions.insert(id, i);
        proof {
            let before = cs@.take(i as int);
            let after = cs@.take(i + 1);
            assert(after.drop_last() =~= before);
            assert(after.last() == contDTOs@[i as int]);
            assert(positions@ == earlier.insert(id, i));
            assert forall|k: i64| #[trigger] lookup(positions@, k) == last_contest_index(after, k) by {
                if k != id {
                    assert(lookup(positions@, k) == lookup(earlier, k));
                    assert(last_contest_index(after, k) == last_contest_index(before, k));
                } else {
                    assert(lookup(positions@, k) == Some(i as int));
                }
            }
        }
        i = i + 1;
    }
    assert(cs@.take(contDTOs.len() as int) =~= cs@);
    let mut problems: Vec<Problem> = Vec::new();
    let mut j: usize = 0;
    while j < probDTOs.len()
        invariant
            j <= probDTOs.len(),
            cs@ == contDTOs@,
            ps@ == probDTOs@,
            forall|id: i64| #[trigger] lookup(positions@, id) == last_contest_index(cs@, id),
            views(problems@) == catalog(ps@.take(j as int), cs@),
        decreases probDTOs.len() - j,
    {
        let entry = &probDTOs[j];
        let ghost before = ps@.take(j as int);
        let ghost after = ps@.take(j + 1);
        proof {
            assert(after.drop_last() =~= before);
            assert(after.last() == entry);
            assert(lookup(positions@, entry.contest_id) == last_contest_index(cs@, entry.contest_id));
            lemma_last_contest_in_range(cs@, entry.contest_id);
        }
        match positions.get(&entry.contest_id) {
            Some(k) => {
                let contest = &contDTOs[*k];
                match CompetitionSystem::parse(contest.contest_type.as_str()) {
                    Some(system) => {
                        let problem = Problem {
                            contest_id: entry.contest_id,
                            contest_name: contest.name.clone(),
                            index: entry.index.clone(),
                            name: entry.name.clone(),
                            rating: entry.rating,
                            div: Division::determine_division(&contest.name, &system),
                            contest_type: system,
                        };
                        problems.push(problem);
                        proof {
                            assert(views(problems@) =~= catalog(after, cs@));
                        }
                    },
                    None => {},
                }
            },
            None => {},
        }
        j = j + 1;
    }
    assert(ps@.take(probDTOs.len() as int) =~= ps@);
    problems
}

} // verus!
