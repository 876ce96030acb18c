//! The repository cache: one prepare-or-verify operation per distinct
//! repository URL, and the check of an already prepared repository.

use crate::pipeline::RepositoryOutcome;
use vstd::prelude::*;

verus! {

/// What to do for a repository before anything runs.
#[derive(Clone, Copy, PartialEq, Eq, Structural, Debug)]
pub enum RepositoryAction {
    /// Not prepared locally yet: initialise it and register the remote.
    Prepare,
    /// Already prepared: verify that the registered remote is the expected one.
    Verify,
}

/// No earlier position holds the URL at position `i`.
pub open spec fn first_occurrence(urls: Seq<String>, i: int) -> bool {
    forall|j: int| 0 <= j < i ==> (#[trigger] urls[j])@ != urls[i]@
}

/// The positions below `n` at which a URL occurs for the first time, in
/// order.
pub open spec fn first_occurrences(urls: Seq<String>, n: int) -> Seq<usize>
    decreases n,
{
    if n <= 0 {
        Seq::empty()
    } else if first_occurrence(urls, n - 1) {
        first_occurrences(urls, n - 1).push((n - 1) as usize)
    } else {
        first_occurrences(urls, n - 1)
    }
}

/// The set of the URLs at the positions below `n`.
pub open spec fn url_set(urls: Seq<String>, n: int) -> Set<Seq<char>> {
    Set::new(|u: Seq<char>| exists|j: int| 0 <= j < n && (#[trigger] urls[j])@ == u)
}

/// One operation per distinct URL: the URLs at the positions below `n` form
/// a finite set, and the first occurrences are exactly as many as the set
/// has elements, however many positions share a URL.
pub proof fn lemma_one_operation_per_url(urls: Seq<String>, n: int)
    requires
        0 <= n <= urls.len(),
    ensures
        url_set(urls, n).finite(),
        first_occurrences(urls, n).len() == url_set(urls, n).len(),
    decreases n,
{
    if n == 0 {
        assert(url_set(urls, n) =~= Set::<Seq<char>>::empty());
    } else {
        lemma_one_operation_per_url(urls, n - 1);
        let before = url_set(urls, n - 1);
        let url = urls[n - 1]@;
        assert(url_set(urls, n) =~= before.insert(url)) by {
            assert forall|u: Seq<char>| url_set(urls, n).contains(u) implies before.insert(
                url,
            ).contains(u) by {
                let j = choose|j: int| 0 <= j < n && (#[trigger] urls[j])@ == u;
                if j < n - 1 {
                    assert(before.contains(u));
                }
            }
            assert forall|u: Seq<char>| before.insert(url).contains(u) implies url_set(
                urls,
                n,
            ).contains(u) by {
                if u == url {
                    assert(urls[n - 1]@ == u);
                } else {
                    let j = choose|j: int| 0 <= j < n - 1 && (#[trigger] urls[j])@ == u;
                    assert(0 <= j < n && urls[j]@ == u);
                }
            }
        }
        if first_occurrence(urls, n - 1) {
            assert(!before.contains(url)) by {
                if before.contains(url) {
                    let j = choose|j: int| 0 <= j < n - 1 && (#[trigger] urls[j])@ == url;
                    assert(urls[j]@ != urls[n - 1]@);
                }
            }
        } else {
            let j = choose|j: int| 0 <= j < n - 1 && (#[trigger] urls[j])@ == urls[n - 1]@;
            assert(before.contains(url));
        }
    }
}

/// Every listed position is below `n`.
pub proof fn lemma_first_occurrences_in_range(urls: Seq<String>, n: int)
    ensures
        first_occurrences(urls, n).len() <= if n < 0 {
            0
        } else {
            n
        },
        forall|k: int|
            0 <= k < first_occurrences(urls, n).len() ==> (#[trigger] first_occurrences(
                urls,
                n,
            )[k]) < n,
    decreases n,
{
    if n > 0 {
        lemma_first_occurrences_in_range(urls, n - 1);
    }
}

/// The positions at which each distinct URL occurs first, in order: one
/// repository operation is due for each of them and for no other position.
pub fn distinct_urls(urls: &Vec<String>) -> (firsts: Vec<usize>)
    ensures
        firsts@ == first_occurrences(urls@, urls@.len() as int),
        firsts@.len() == url_set(urls@, urls@.len() as int).len(),
        forall|k: int| 0 <= k < firsts@.len() ==> (#[trigger] firsts@[k]) < urls@.len(),
{
    let mut firsts: Vec<usize> = Vec::new();
    let mut i: usize = 0;
    while i < urls.len()
        invariant
            i <= urls.len(),
            firsts@ == first_occurrences(urls@, i as int),
        decreases urls.len() - i,
    {
        let mut seen = false;
        let mut j: usize = 0;
        while j < i && !seen
            invariant
                j <= i < urls.len(),
                !seen ==> forall|k: int| 0 <= k < j ==> (#[trigger] urls@[k])@ != urls@[i as int]@,
                seen ==> exists|k: int| 0 <= k < i && (#[trigger] urls@[k])@ == urls@[i as int]@,
            decreases i - j + if seen { 0int } else { 1int },
        {
            if urls[j] == urls[i] {
                seen = true;
            } else {
                j += 1;
            }
        }
        if !seen {
            firsts.push(i);
        }
        i += 1;
    }
    proof {
        lemma_one_operation_per_url(urls@, urls@.len() as int);
        lemma_first_occurrences_in_range(urls@, urls@.len() as int);
    }
    firsts
}

/// The operation a repository needs: preparation unless it is already
/// prepared locally, verification otherwise.
pub fn plan_repository(already_prepared: bool) -> (action: RepositoryAction)
    ensures
        action == if already_prepared {
            RepositoryAction::Verify
        } else {
            RepositoryAction::Prepare
        },
{
    if already_prepared {
        RepositoryAction::Verify
    } else {
        RepositoryAction::Prepare
    }
}

/// The outcome of verifying an already prepared repository: it is ready
/// when the registered remote could be read and equals the expected URL; a
/// different remote is a mismatch; a remote that could not be read is a
/// failure.
pub fn verify_origin(actual: &Option<String>, expected: &String) -> (outcome: RepositoryOutcome)
    ensures
        outcome == match *actual {
            None => RepositoryOutcome::Failed,
            Some(origin) => if origin@ == expected@ {
                RepositoryOutcome::Ready
            } else {
                RepositoryOutcome::Mismatch
            },
        },
{
    match actual {
        None => RepositoryOutcome::Failed,
        Some(origin) => {
            if *origin == *expected {
                RepositoryOutcome::Ready
            } else {
                RepositoryOutcome::Mismatch
            }
        },
    }
}

} // verus!
