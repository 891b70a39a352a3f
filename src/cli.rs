//! The command line's words, and the filter that a query asks for.
use vstd::prelude::*;
use crate::filter::{Criteria, FilterOptions, User, UserView, selection, filter_problems};
use crate::problem::{Division, Problem, views};
use crate::recommender::RECENT_ROUND;
use crate::text::{same_text, parse_i64, i64_of};

verus! {

/// Queries with `-old` reach back to this contest id.
pub const OLD_ROUND: i64 = 1364;

/// Queries with `-rec` keep at most this many problems.
pub const RECENT_POOL_SIZE: i64 = 10;

#[derive(PartialEq, Eq, Structural, Clone, Copy, Debug)]
pub enum Command {
    Help,
    Bind,
    Solved,
    Unsolved,
    Unbind,
    Update,
    Query,
}

#[derive(PartialEq, Eq, Structural, Clone, Copy, Debug)]
pub enum Flag {
    Div1,
    Div2,
    Div12,
    GlobalRound,
    Educational,
    Other,
    ContainOldProblems,
    RecentMode,
}

/// The command that a word names.
pub open spec fn command_of(s: Seq<char>) -> Option<Command> {
    if s == "help"@ {
        Some(Command::Help)
    } else if s == "bind"@ {
        Some(Command::Bind)
    } else if s == "solved"@ {
        Some(Command::Solved)
    } else if s == "unsolved"@ {
        Some(Command::Unsolved)
    } else if s == "drop"@ {
        Some(Command::Unbind)
    } else if s == "update"@ {
        Some(Command::Update)
    } else if s == "query"@ {
        Some(Command::Query)
    } else {
        None
    }
}

/// The flag that a word names.
pub open spec fn flag_of(s: Seq<char>) -> Option<Flag> {
    if s == "-d1"@ {
        Some(Flag::Div1)
    } else if s == "-d2"@ {
        Some(Flag::Div2)
    } else if s == "-d12"@ {
        Some(Flag::Div12)
    } else if s == "-gl"@ {
        Some(Flag::GlobalRound)
    } else if s == "-edu"@ {
        Some(Flag::Educational)
    } else if s == "-other"@ {
        Some(Flag::Other)
    } else if s == "-old"@ {
        Some(Flag::ContainOldProblems)
    } else if s == "-rec"@ {
        Some(Flag::RecentMode)
    } else {
        None
    }
}

pub fn parse_command(s: &str) -> (r: Option<Command>)
    ensures
        r == command_of(s@),
{
    if same_text(s, "help") {
        Some(Command::Help)
    } else if same_text(s, "bind") {
        Some(Command::Bind)
    } else if same_text(s, "solved") {
        Some(Command::Solved)
    } else if same_text(s, "unsolved") {
        Some(Command::Unsolved)
    } else if same_text(s, "drop") {
        Some(Command::Unbind)
    } else if same_text(s, "update") {
        Some(Command::Update)
    } else if same_text(s, "query") {
        Some(Command::Query)
    } else {
        None
    }
}

pub fn parse_flag(s: &str) -> (r: Option<Flag>)
    ensures
        r == flag_of(s@),
{
    if same_text(s, "-d1") {
        Some(Flag::Div1)
    } else if same_text(s, "-d2") {
        Some(Flag::Div2)
    } else if same_text(s, "-d12") {
        Some(Flag::Div12)
    } else if same_text(s, "-gl") {
        Some(Flag::GlobalRound)
    } else if same_text(s, "-edu") {
        Some(Flag::Educational)
    } else if same_text(s, "-other") {
        Some(Flag::Other)
    } else if same_text(s, "-old") {
        Some(Flag::ContainOldProblems)
    } else if same_text(s, "-rec") {
        Some(Flag::RecentMode)
    } else {
        None
    }
}

/// The division that a flag selects, if it selects one.
pub open spec fn flag_division(f: Flag) -> Option<Division> {
    match f {
        Flag::Div1 => Some(Division::Div1),
        Flag::Div2 => Some(Division::Div2),
        Flag::Div12 => Some(Division::Div12),
        Flag::GlobalRound => Some(Division::GlobalRound),
        Flag::Educational => Some(Division::Educational),
        Flag::Other => Some(Division::Other),
        _ => None,
    }
}

/// The divisions that the words select, one per division flag, in order.
pub open spec fn flag_divs(args: Seq<String>) -> Seq<Division>
    decreases args.len(),
{
    if args.len() == 0 {
        Seq::empty()
    } else {
        let rest = flag_divs(args.drop_last());
        match flag_of(args.last()@) {
            Some(f) => match flag_division(f) {
                Some(d) => rest.push(d),
                None => rest,
            },
            None => rest,
        }
    }
}

/// Some word is flag `f`.
pub open spec fn has_flag(args: Seq<String>, f: Flag) -> bool {
    exists|i: int| 0 <= i < args.len() && flag_of(#[trigger] args[i]@) == Some(f)
}

/// What a query for `diff` with the words `args` asks of a problem: exactly
/// that rating, recent contests (back to `OLD_ROUND` with `-old`; with `-rec`
/// no floor on the contest id at all), the flagged divisions or else Div. 1, Div. 1 + 2 and Global
/// Rounds, nothing the user solved or excluded, and with `-rec` at most
/// `RECENT_POOL_SIZE` problems.
pub open spec fn query_criteria(diff: int, args: Seq<String>, user: UserView) -> Criteria {
    let recent = has_flag(args, Flag::RecentMode);
    let divs = flag_divs(args);
    Criteria {
        min_diff: diff,
        max_diff: diff,
        oldest_round: if recent {
            None
        } else if has_flag(args, Flag::ContainOldProblems) {
            Some(OLD_ROUND as int)
        } else {
            Some(RECENT_ROUND as int)
        },
        divs: if divs.len() == 0 {
            seq![Division::Div1, Division::Div12, Division::GlobalRound]
        } else {
            divs
        },
        user: Some(user),
        pool_size: if recent {
            Some(RECENT_POOL_SIZE as int)
        } else {
            None
        },
    }
}

/// The filter options of a query for `diff` with the words `args`.
pub fn query_options(diff: i64, args: &Vec<String>, user: User) -> (r: FilterOptions)
    ensures
        r@ == query_criteria(diff as int, args@, user@),
{
    let ghost words = args@;
    let mut div: Vec<Division> = Vec::new();
    let mut old = false;
    let mut recent = false;
    let mut i: usize = 0;
    while i < args.len()
        invariant
            i <= args.len(),
            words == args@,
            div@ == flag_divs(words.take(i as int)),
            old == has_flag(words.take(i as int), Flag::ContainOldProblems),
            recent == has_flag(words.take(i as int), Flag::RecentMode),
        decreases args.len() - i,
    {
        let ghost before = words.take(i as int);
        let ghost after = words.take(i + 1);
        proof {
            assert(after.drop_last() =~= before);
            assert(after.last() == args@[i as int]);
        }
        let flag = parse_flag(args[i].as_str());
        match flag {
            Some(Flag::Div1) => div.push(Division::Div1),
            Some(Flag::Div2) => div.push(Division::Div2),
            Some(Flag::Div12) => div.push(Division::Div12),
            Some(Flag::GlobalRound) => div.push(Division::GlobalRound),
            Some(Flag::Educational) => div.push(Division::Educational),
            Some(Flag::Other) => div.push(Division::Other),
            Some(Flag::ContainOldProblems) => old = true,
            Some(Flag::RecentMode) => recent = true,
            None => {},
        }
        proof {
            assert forall|f: Flag| #[trigger] has_flag(after, f) == (has_flag(before, f) || flag == Some(f)) by {
                if has_flag(after, f) {
                    let j = choose|j: int| 0 <= j < after.len() && flag_of(#[trigger] after[j]@) == Some(f);
                    if j < i {
                        assert(before[j] == after[j]);
                    }
                }
                if has_flag(before, f) {
                    let j = choose|j: int| 0 <= j < before.len() && flag_of(#[trigger] before[j]@) == Some(f);
                    assert(after[j] == before[j]);
                }
                if flag == Some(f) {
                    assert(flag_of(after[i as int]@) == Some(f));
                }
            }
        }
        i = i + 1;
    }
    proof {
        assert(words.take(args.len() as int) =~= words);
    }
    let oldest_round = if recent {
        None
    } else if old {
        Some(OLD_ROUND)
    } else {
        Some(RECENT_ROUND)
    };
    if div.len() == 0 {
        div = vec![Division::Div1, Division::Div12, Division::GlobalRound];
    }
    FilterOptions {
        min_diff: diff,
        max_diff: diff,
        oldest_round,
        div,
        user: Some(user),
        pool_size: if recent {
            Some(RECENT_POOL_SIZE)
        } else {
            None
        },
    }
}

/// The problems that a query lists: `args[2]` is the difficulty, and every
/// word may be a flag. `None` when the difficulty is not an `i64`.
pub fn query_problems(args: &Vec<String>, problems: &Vec<Problem>, user: User) -> (r: Option<Vec<Problem>>)
    requires
        args.len() >= 3,
    ensures
        match i64_of(args@[2]@) {
            Some(diff) => r matches Some(v) && views(v@) == selection(
                views(problems@),
                query_criteria(diff as int, args@, user@),
            ),
            None => r is None,
        },
{
    match parse_i64(args[2].as_str()) {
        Some(diff) => {
            let options = query_options(diff, args, user);
            Some(filter_problems(problems, &options))
        },
        None => None,
    }
}

} // verus!
