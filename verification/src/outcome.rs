use vstd::prelude::*;

use crate::collections::KeyedSet;
use crate::error::ResolveError;
use crate::package::PackageName;
use crate::resolution::Resolution;
use crate::solver::NoSolution;

verus! {

/// What went wrong, with the packages whose versions had been looked at.
pub struct Failure {
    pub error: ResolveError,
    pub visited: KeyedSet<PackageName>,
}

/// What the resolver leaves behind.
pub enum Outcome {
    /// The requirements were resolved. A reporter, if there is one, is told so.
    Resolved { resolution: Resolution, report: bool },
    /// There is no solution. The packages whose versions had been looked at serve to explain why.
    Unsolvable { reason: NoSolution, visited: KeyedSet<PackageName> },
    /// Something else went wrong.
    Failed(ResolveError),
}

/// Whether what the solver leaves behind is what came back from it, or that it went away.
pub open spec fn is_solved(
    solved: Result<Resolution, Failure>,
    received: Option<Result<Resolution, Failure>>,
) -> bool {
    match received {
        Some(received) => solved == received,
        None => solved matches Err(failure) && failure.error is ChannelClosed
            && failure.visited.wf() && failure.visited@ == Set::<Seq<char>>::empty(),
    }
}

/// Whether what the fetcher leaves behind is its own result.
pub open spec fn is_fetched(fetched: Result<(), Failure>, result: Result<(), ResolveError>) -> bool {
    match result {
        Ok(_) => fetched is Ok,
        Err(error) => fetched matches Err(failure) && failure.error == error
            && failure.visited.wf() && failure.visited@ == Set::<Seq<char>>::empty(),
    }
}

/// What the resolver leaves behind, by the resolution or by what went wrong first.
pub open spec fn outcome_of(joined: Result<Resolution, Failure>, reporting: bool) -> Outcome {
    match joined {
        Ok(resolution) => Outcome::Resolved { resolution, report: reporting },
        Err(failure) => match failure.error {
            ResolveError::NoSolution(reason) => Outcome::Unsolvable {
                reason,
                visited: failure.visited,
            },
            error => Outcome::Failed(error),
        },
    }
}

/// The outcome of the solver, by what came back from it: nothing, if it went away without a word.
pub fn solved(received: Option<Result<Resolution, Failure>>) -> (solved: Result<
    Resolution,
    Failure,
>)
    ensures
        is_solved(solved, received),
{
    match received {
        Some(received) => received,
        None => {
            Err(Failure { error: ResolveError::ChannelClosed, visited: KeyedSet::new() })
        },
    }
}

/// The outcome of the fetcher: it looked at no versions.
pub fn fetched(result: Result<(), ResolveError>) -> (fetched: Result<(), Failure>)
    ensures
        is_fetched(fetched, result),
{
    match result {
        Ok(_) => Ok(()),
        Err(error) => Err(Failure { error, visited: KeyedSet::new() }),
    }
}

/// What the resolver leaves behind, by the resolution or by what went wrong first.
pub fn resolve(joined: Result<Resolution, Failure>, reporting: bool) -> (outcome: Outcome)
    ensures
        outcome == outcome_of(joined, reporting),
{
    match joined {
        Ok(resolution) => Outcome::Resolved { resolution, report: reporting },
        Err(failure) => {
            // Add version information to improve unsat error messages.
            match failure.error {
                ResolveError::NoSolution(reason) => {
                    Outcome::Unsolvable { reason, visited: failure.visited }
                },
                error => Outcome::Failed(error),
            }
        },
    }
}

/// What the solver found is what it leaves behind, be it a resolution or a failure. If it went away
/// without a word, that is an error of its own, and no versions had been looked at.
pub proof fn law_the_solver_has_the_last_word(
    solved: Result<Resolution, Failure>,
    received: Result<Resolution, Failure>,
)
    ensures
        is_solved(solved, Some(received)) ==> solved == received,
        is_solved(solved, None) ==> solved is Err && (solved->Err_0).error is ChannelClosed
            && (solved->Err_0).visited@ == Set::<Seq<char>>::empty(),
{
}

/// The fetcher fails with its own error and with no other, and only then.
pub proof fn law_the_fetcher_fails_with_its_error(
    fetched: Result<(), Failure>,
    error: ResolveError,
)
    ensures
        is_fetched(fetched, Ok(())) ==> fetched is Ok,
        is_fetched(fetched, Err(error)) ==> fetched is Err && (fetched->Err_0).error == error
            && (fetched->Err_0).visited@ == Set::<Seq<char>>::empty(),
{
}

/// A resolution is left behind exactly as it was found, and reported exactly if there is a reporter.
pub proof fn law_a_resolution_is_left_as_it_was_found(resolution: Resolution, reporting: bool)
    ensures
        outcome_of(Ok(resolution), reporting) matches Outcome::Resolved {
            resolution: left,
            report,
        } && left == resolution && report == reporting,
{
}

/// A missing solution is left behind with its reason and with the packages whose versions had been
/// looked at, and any other error as it is, whether or not there is a reporter.
pub proof fn law_failures_are_left_as_they_were_found(failure: Failure, reporting: bool)
    ensures
        failure.error matches ResolveError::NoSolution(reason) ==> (outcome_of(
            Err(failure),
            reporting,
        ) matches Outcome::Unsolvable { reason: left, visited } && left == reason && visited
            == failure.visited),
        !(failure.error is NoSolution) ==> (outcome_of(
            Err(failure),
            reporting,
        ) matches Outcome::Failed(error) && error == failure.error),
{
}

} // verus!
