//! Tool-usage metrics: per-tool counters and their merge.
//!
//! A `ToolMetrics` value is read through its totals: for every tool name, how
//! often the tool was used and how often it failed. Merging adds totals
//! pointwise, so the outcome of a sequence of merges does not depend on their
//! order.

use vstd::prelude::*;

verus! {

/// The counters of one tool.
#[derive(Clone, Debug)]
pub struct ToolCount {
    pub name: String,
    pub uses: u32,
    pub failures: u32,
}

/// Counters for a set of tools, at most one entry per tool name.
#[derive(Clone, Debug)]
pub struct ToolMetrics {
    pub entries: Vec<ToolCount>,
}

/// What counters `(uses, failures)` recorded for the tool `tool` add to the
/// total of `name`: the failure count when `of_failures` is set, the use count
/// otherwise, and nothing when `name` is another tool.
pub open spec fn addition(
    tool: Seq<char>,
    uses: u32,
    failures: u32,
    name: Seq<char>,
    of_failures: bool,
) -> nat {
    if tool == name {
        if of_failures {
            failures as nat
        } else {
            uses as nat
        }
    } else {
        0
    }
}

/// What one entry adds to the total of `name`.
pub open spec fn contribution(entry: ToolCount, name: Seq<char>, failures: bool) -> nat {
    addition(entry.name@, entry.uses, entry.failures, name, failures)
}

/// The total that a sequence of entries holds for `name`.
pub open spec fn total(entries: Seq<ToolCount>, name: Seq<char>, failures: bool) -> nat
    decreases entries.len(),
{
    if entries.len() == 0 {
        0
    } else {
        total(entries.drop_last(), name, failures) + contribution(entries.last(), name, failures)
    }
}

/// No two entries carry the same tool name.
pub open spec fn distinct_names(entries: Seq<ToolCount>) -> bool {
    forall|i: int, j: int| 0 <= i < j < entries.len() ==> entries[i].name@ != entries[j].name@
}

/// Replacing one entry changes a total by the difference of the two
/// contributions.
pub proof fn lemma_total_update(
    entries: Seq<ToolCount>,
    i: int,
    entry: ToolCount,
    name: Seq<char>,
    failures: bool,
)
    requires
        0 <= i < entries.len(),
    ensures
        total(entries.update(i, entry), name, failures) + contribution(entries[i], name, failures)
            == total(entries, name, failures) + contribution(entry, name, failures),
    decreases entries.len(),
{
    if i == entries.len() - 1 {
        assert(entries.update(i, entry).drop_last() =~= entries.drop_last());
    } else {
        assert(entries.update(i, entry).drop_last() =~= entries.drop_last().update(i, entry));
        lemma_total_update(entries.drop_last(), i, entry, name, failures);
    }
}

/// No entry contributes more than the total.
pub proof fn lemma_contribution_within_total(
    entries: Seq<ToolCount>,
    i: int,
    name: Seq<char>,
    failures: bool,
)
    requires
        0 <= i < entries.len(),
    ensures
        contribution(entries[i], name, failures) <= total(entries, name, failures),
    decreases entries.len(),
{
    if i < entries.len() - 1 {
        lemma_contribution_within_total(entries.drop_last(), i, name, failures);
    }
}

/// A prefix holds no more than the whole.
pub proof fn lemma_total_prefix(entries: Seq<ToolCount>, k: int, name: Seq<char>, failures: bool)
    requires
        0 <= k <= entries.len(),
    ensures
        total(entries.take(k), name, failures) <= total(entries, name, failures),
    decreases entries.len(),
{
    if k == entries.len() {
        assert(entries.take(k) =~= entries);
    } else {
        assert(entries.drop_last().take(k) =~= entries.take(k));
        lemma_total_prefix(entries.drop_last(), k, name, failures);
    }
}

/// Where no entry carries the name, its total is zero.
pub proof fn lemma_total_absent(entries: Seq<ToolCount>, name: Seq<char>, failures: bool)
    requires
        forall|k: int| 0 <= k < entries.len() ==> (#[trigger] entries[k]).name@ != name,
    ensures
        total(entries, name, failures) == 0,
    decreases entries.len(),
{
    if entries.len() > 0 {
        assert(entries.last().name@ != name);
        assert forall|k: int| 0 <= k < entries.drop_last().len() implies (
        #[trigger] entries.drop_last()[k]).name@ != name by {
            assert(entries.drop_last()[k] == entries[k]);
        }
        lemma_total_absent(entries.drop_last(), name, failures);
    }
}

/// With distinct names, the total of a name is what its one entry holds.
pub proof fn lemma_total_single(entries: Seq<ToolCount>, i: int, failures: bool)
    requires
        distinct_names(entries),
        0 <= i < entries.len(),
    ensures
        total(entries, entries[i].name@, failures) == contribution(
            entries[i],
            entries[i].name@,
            failures,
        ),
    decreases entries.len(),
{
    let name = entries[i].name@;
    let rest = entries.drop_last();
    if i == entries.len() - 1 {
        assert forall|k: int| 0 <= k < rest.len() implies (#[trigger] rest[k]).name@ != name by {
            assert(rest[k] == entries[k]);
        }
        lemma_total_absent(rest, name, failures);
    } else {
        assert(entries.last().name@ != name);
        assert(distinct_names(rest)) by {
            assert forall|a: int, b: int| 0 <= a < b < rest.len() implies rest[a].name@
                != rest[b].name@ by {
                assert(rest[a] == entries[a] && rest[b] == entries[b]);
            }
        }
        assert(rest[i] == entries[i]);
        lemma_total_single(rest, i, failures);
    }
}

/// With distinct names every total is the count of one entry at most, so it
/// fits the counter's type.
pub proof fn lemma_distinct_totals_fit(entries: Seq<ToolCount>, name: Seq<char>, failures: bool)
    requires
        distinct_names(entries),
    ensures
        total(entries, name, failures) <= u32::MAX,
{
    if exists|i: int| 0 <= i < entries.len() && (#[trigger] entries[i]).name@ == name {
        let i = choose|i: int| 0 <= i < entries.len() && (#[trigger] entries[i]).name@ == name;
        lemma_total_single(entries, i, failures);
    } else {
        lemma_total_absent(entries, name, failures);
    }
}

impl ToolMetrics {
    /// Well-formedness: tool names are pairwise distinct.
    pub open spec fn wf(&self) -> bool {
        distinct_names(self.entries@)
    }

    /// How often the tool `name` was used.
    pub open spec fn uses(&self, name: Seq<char>) -> nat {
        total(self.entries@, name, false)
    }

    /// How often the tool `name` failed.
    pub open spec fn failures(&self, name: Seq<char>) -> nat {
        total(self.entries@, name, true)
    }

    /// Metrics that count nothing.
    pub fn new() -> (metrics: ToolMetrics)
        ensures
            metrics.wf(),
            metrics.entries@.len() == 0,
            forall|name: Seq<char>, failures: bool|
                #[trigger] total(metrics.entries@, name, failures) == 0,
    {
        ToolMetrics { entries: Vec::new() }
    }

    /// The use count and the failure count of the tool `name`; both are zero
    /// for a tool that was never recorded.
    pub fn counts_of(&self, name: &String) -> (counts: (u32, u32))
        requires
            self.wf(),
        ensures
            counts.0 == self.uses(name@),
            counts.1 == self.failures(name@),
    {
        let mut i: usize = 0;
        while i < self.entries.len()
            invariant
                self.wf(),
                i <= self.entries.len(),
                forall|k: int| 0 <= k < i ==> (#[trigger] self.entries@[k]).name@ != name@,
            decreases self.entries.len() - i,
        {
            if self.entries[i].name == *name {
                proof {
                    lemma_total_single(self.entries@, i as int, false);
                    lemma_total_single(self.entries@, i as int, true);
                }
                return (self.entries[i].uses, self.entries[i].failures);
            }
            i += 1;
        }
        proof {
            lemma_total_absent(self.entries@, name@, false);
            lemma_total_absent(self.entries@, name@, true);
        }
        (0, 0)
    }

    /// Adds `uses` and `failures` to the counters of the tool `name`,
    /// creating its entry when the tool has none yet.
    pub fn add_counts(&mut self, name: &String, uses: u32, failures: u32)
        requires
            old(self).wf(),
            old(self).uses(name@) + uses <= u32::MAX,
            old(self).failures(name@) + failures <= u32::MAX,
        ensures
            final(self).wf(),
            forall|n: Seq<char>, f: bool| #[trigger]
                total(final(self).entries@, n, f) == total(old(self).entries@, n, f)
                    + addition(name@, uses, failures, n, f),
    {
        let ghost before = self.entries@;
        let mut i: usize = 0;
        while i < self.entries.len()
            invariant
                self.entries@ == before,
                before == old(self).entries@,
                i <= self.entries.len(),
                total(before, name@, false) + uses <= u32::MAX,
                total(before, name@, true) + failures <= u32::MAX,
                distinct_names(before),
                forall|k: int| 0 <= k < i ==> before[k].name@ != name@,
            decreases self.entries.len() - i,
        {
            if self.entries[i].name == *name {
                proof {
                    lemma_contribution_within_total(before, i as int, name@, false);
                    lemma_contribution_within_total(before, i as int, name@, true);
                }
                let entry = ToolCount {
                    name: name.clone(),
                    uses: self.entries[i].uses + uses,
                    failures: self.entries[i].failures + failures,
                };
                self.entries.set(i, entry);
                proof {
                    assert forall|n: Seq<char>, f: bool| #[trigger]
                        total(self.entries@, n, f) == total(before, n, f) + addition(
                            name@,
                            uses,
                            failures,
                            n,
                            f,
                        ) by {
                        lemma_total_update(before, i as int, entry, n, f);
                        assert(self.entries@ == before.update(i as int, entry));
                        assert(contribution(entry, n, f) == contribution(before[i as int], n, f)
                            + addition(name@, uses, failures, n, f));
                    }
                }
                return ;
            }
            i += 1;
        }
        let entry = ToolCount { name: name.clone(), uses, failures };
        self.entries.push(entry);
        proof {
            assert(self.entries@.drop_last() =~= before);
        }
    }

    /// Adds `uses` and `failures` to the counters of the tool `name` where
    /// both sums fit, and says whether they did; otherwise nothing changes.
    pub fn try_add_counts(&mut self, name: &String, uses: u32, failures: u32) -> (added: bool)
        requires
            old(self).wf(),
        ensures
            final(self).wf(),
            added == (old(self).uses(name@) + uses <= u32::MAX && old(self).failures(name@)
                + failures <= u32::MAX),
            added ==> forall|n: Seq<char>, f: bool| #[trigger]
                total(final(self).entries@, n, f) == total(old(self).entries@, n, f) + addition(
                    name@,
                    uses,
                    failures,
                    n,
                    f,
                ),
            !added ==> final(self).entries@ == old(self).entries@,
    {
        let counts = self.counts_of(name);
        if counts.0 > u32::MAX - uses || counts.1 > u32::MAX - failures {
            false
        } else {
            self.add_counts(name, uses, failures);
            true
        }
    }

    /// Adds every counter of `other` to this accumulator where every sum
    /// fits, and says whether they did. Where one does not fit, the
    /// accumulator is left with the counters added up to there.
    pub fn try_merge(&mut self, other: &ToolMetrics) -> (merged: bool)
        requires
            old(self).wf(),
        ensures
            final(self).wf(),
            merged <==> forall|n: Seq<char>, f: bool|
                total(old(self).entries@, n, f) + #[trigger] total(other.entries@, n, f)
                    <= u32::MAX,
            merged ==> forall|n: Seq<char>, f: bool| #[trigger]
                total(final(self).entries@, n, f) == total(old(self).entries@, n, f) + total(
                    other.entries@,
                    n,
                    f,
                ),
    {
        let ghost before = self.entries@;
        let mut j: usize = 0;
        while j < other.entries.len()
            invariant
                self.wf(),
                before == old(self).entries@,
                j <= other.entries.len(),
                forall|n: Seq<char>, f: bool| #[trigger]
                    total(self.entries@, n, f) == total(before, n, f) + total(
                        other.entries@.take(j as int),
                        n,
                        f,
                    ),
            decreases other.entries.len() - j,
        {
            let ghost current = self.entries@;
            let ghost next = other.entries@.take(j + 1);
            let ghost name = other.entries@[j as int].name@;
            proof {
                assert(next.drop_last() =~= other.entries@.take(j as int));
                assert(next.last() == other.entries@[j as int]);
            }
            let added = self.try_add_counts(
                &other.entries[j].name,
                other.entries[j].uses,
                other.entries[j].failures,
            );
            if !added {
                proof {
                    lemma_total_prefix(other.entries@, j + 1, name, false);
                    lemma_total_prefix(other.entries@, j + 1, name, true);
                    assert(total(next, name, false) == total(
                        other.entries@.take(j as int),
                        name,
                        false,
                    ) + contribution(other.entries@[j as int], name, false));
                    assert(total(next, name, true) == total(
                        other.entries@.take(j as int),
                        name,
                        true,
                    ) + contribution(other.entries@[j as int], name, true));
                    if total(current, name, false) + other.entries@[j as int].uses > u32::MAX {
                        assert(total(before, name, false) + total(other.entries@, name, false)
                            > u32::MAX);
                    } else {
                        assert(total(before, name, true) + total(other.entries@, name, true)
                            > u32::MAX);
                    }
                }
                return false;
            }
            proof {
                assert forall|n: Seq<char>, f: bool| #[trigger]
                    total(self.entries@, n, f) == total(before, n, f) + total(next, n, f) by {
                    assert(total(next, n, f) == total(other.entries@.take(j as int), n, f)
                        + contribution(other.entries@[j as int], n, f));
                }
            }
            j += 1;
        }
        proof {
            assert(other.entries@.take(j as int) =~= other.entries@);
            assert forall|n: Seq<char>, f: bool|
                total(before, n, f) + #[trigger] total(other.entries@, n, f) <= u32::MAX by {
                lemma_distinct_totals_fit(self.entries@, n, f);
                assert(total(self.entries@, n, f) == total(before, n, f) + total(
                    other.entries@,
                    n,
                    f,
                ));
            }
        }
        true
    }

    /// Adds every counter of `other` to this accumulator.
    pub fn merge(&mut self, other: &ToolMetrics)
        requires
            old(self).wf(),
            forall|n: Seq<char>, f: bool|
                total(old(self).entries@, n, f) + #[trigger] total(other.entries@, n, f)
                    <= u32::MAX,
        ensures
            final(self).wf(),
            forall|n: Seq<char>, f: bool| #[trigger]
                total(final(self).entries@, n, f) == total(old(self).entries@, n, f) + total(
                    other.entries@,
                    n,
                    f,
                ),
    {
        let ghost before = self.entries@;
        let mut j: usize = 0;
        while j < other.entries.len()
            invariant
                self.wf(),
                j <= other.entries.len(),
                forall|n: Seq<char>, f: bool|
                    total(before, n, f) + #[trigger] total(other.entries@, n, f) <= u32::MAX,
                forall|n: Seq<char>, f: bool| #[trigger]
                    total(self.entries@, n, f) == total(before, n, f) + total(
                        other.entries@.take(j as int),
                        n,
                        f,
                    ),
            decreases other.entries.len() - j,
        {
            let ghost current = self.entries@;
            let ghost next = other.entries@.take(j + 1);
            proof {
                assert(next.drop_last() =~= other.entries@.take(j as int));
                assert(next.last() == other.entries@[j as int]);
                let name = other.entries@[j as int].name@;
                lemma_total_prefix(other.entries@, j + 1, name, false);
                lemma_total_prefix(other.entries@, j + 1, name, true);
            }
            self.add_counts(&other.entries[j].name, other.entries[j].uses, other.entries[j].failures);
            proof {
                assert forall|n: Seq<char>, f: bool| #[trigger]
                    total(self.entries@, n, f) == total(before, n, f) + total(next, n, f) by {
                    assert(total(next, n, f) == total(other.entries@.take(j as int), n, f)
                        + contribution(other.entries@[j as int], n, f));
                }
            }
            j += 1;
        }
        proof {
            assert(other.entries@.take(j as int) =~= other.entries@);
        }
    }
}

} // verus!
