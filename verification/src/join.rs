//! The join stage: one analysis record per repository.
//!
//! Given the canonical repository list and the three mappings — issues,
//! pull requests with references, commits with references — the join
//! emits exactly one `RepoAnalysis` per canonical repository, in list
//! order, whether or not any mapping mentions it: a missing entry
//! degrades to an empty list, never to a missing record. A local mirror
//! handle, when the caller found one, is attached as-is; its absence is
//! a recorded state, not an error. The join cannot fail.

use vstd::prelude::*;

use crate::records::CommitRecord;
use crate::records::IssueRecord;
use crate::records::PullRequestRecord;

verus! {

/// The correlated view of one repository: its name, all its issues,
/// every pull request with the references it carries, the
/// reference-carrying commits, and the optional local mirror handle,
/// owned exclusively by this record once attached.
pub struct RepoAnalysis<L> {
    pub repo_name: String,
    pub issues: Vec<IssueRecord>,
    pub prs_with_issues: Vec<(PullRequestRecord, Vec<String>)>,
    pub commits_with_issues: Vec<(CommitRecord, Vec<String>)>,
    pub local_repo: Option<L>,
}

impl<L> RepoAnalysis<L> {
    /// A fresh analysis record: empty lists, no local mirror.
    pub fn new(repo_name: String) -> (r: Self)
        ensures
            r.repo_name == repo_name,
            r.issues@ == Seq::<IssueRecord>::empty(),
            r.prs_with_issues@ == Seq::<(PullRequestRecord, Vec<String>)>::empty(),
            r.commits_with_issues@ == Seq::<(CommitRecord, Vec<String>)>::empty(),
            r.local_repo is None,
    {
        RepoAnalysis {
            repo_name,
            issues: Vec::new(),
            prs_with_issues: Vec::new(),
            commits_with_issues: Vec::new(),
            local_repo: None,
        }
    }

    /// Attaches what the caller's open-or-absent lookup of the local
    /// mirror produced; everything else stays as it was.
    pub fn attach_local_repo(&mut self, handle: Option<L>)
        ensures
            final(self).local_repo == handle,
            final(self).repo_name == old(self).repo_name,
            final(self).issues == old(self).issues,
            final(self).prs_with_issues == old(self).prs_with_issues,
            final(self).commits_with_issues == old(self).commits_with_issues,
    {
        self.local_repo = handle;
    }
}

/// First value stored under `key`, if any.
pub open spec fn map_lookup<V>(m: Seq<(String, V)>, key: Seq<char>) -> Option<V>
    decreases m.len(),
{
    if m.len() == 0 {
        None
    } else if m[0].0@ == key {
        Some(m[0].1)
    } else {
        map_lookup(m.drop_first(), key)
    }
}

/// A key no entry carries is looked up as absent; through
/// `align_repo_data` such a repository still gets its analysis record,
/// with empty lists.
pub proof fn lemma_lookup_absent<V>(m: Seq<(String, V)>, key: Seq<char>)
    requires
        forall|k: int| 0 <= k < m.len() ==> (#[trigger] m[k]).0@ != key,
    ensures
        map_lookup(m, key) is None,
    decreases m.len(),
{
    if m.len() > 0 {
        assert(m[0].0@ != key);
        assert forall|k: int| 0 <= k < m.drop_first().len() implies (#[trigger] m.drop_first()[k]).0@
            != key by {
            assert(m.drop_first()[k] == m[k + 1]);
        }
        lemma_lookup_absent(m.drop_first(), key);
    }
}

/// Finds the first entry stored under `key`.
fn find_entry<V>(m: &Vec<(String, V)>, key: &String) -> (r: Option<usize>)
    ensures
        match r {
            Some(idx) => idx < m@.len() && map_lookup(m@, key@) == Some(m@[idx as int].1),
            None => map_lookup(m@, key@) is None,
        },
{
    let n = m.len();
    let mut j: usize = 0;
    proof {
        assert(m@.skip(0) =~= m@);
    }
    while j < n
        invariant
            n == m@.len(),
            j <= n,
            map_lookup(m@, key@) == map_lookup(m@.skip(j as int), key@),
        decreases n - j,
    {
        proof {
            assert(m@.skip(j as int)[0] == m@[j as int]);
        }
        let hit = m[j].0.eq(key);
        if hit {
            return Some(j);
        }
        proof {
            assert(m@.skip(j as int).drop_first() =~= m@.skip(j as int + 1));
        }
        j += 1;
    }
    proof {
        assert(m@.skip(n as int) =~= Seq::<(String, V)>::empty());
    }
    None
}

/// Element-for-element copy of a string list.
fn copy_string_vec(v: &Vec<String>) -> (r: Vec<String>)
    ensures
        r@ == v@,
{
    let mut out: Vec<String> = Vec::new();
    let mut j: usize = 0;
    while j < v.len()
        invariant
            j <= v@.len(),
            out@.len() == j,
            forall|k: int| 0 <= k < j ==> out@[k] == v@[k],
        decreases v@.len() - j,
    {
        out.push(v[j].clone());
        j += 1;
    }
    proof {
        assert(out@ =~= v@);
    }
    out
}

/// Element-for-element copy of an issue list.
fn copy_issue_list(v: &Vec<IssueRecord>) -> (r: Vec<IssueRecord>)
    ensures
        r@ == v@,
{
    let mut out: Vec<IssueRecord> = Vec::new();
    let mut j: usize = 0;
    while j < v.len()
        invariant
            j <= v@.len(),
            out@.len() == j,
            forall|k: int| 0 <= k < j ==> out@[k] == v@[k],
        decreases v@.len() - j,
    {
        let rec = v[j].duplicate();
        out.push(rec);
        j += 1;
    }
    proof {
        assert(out@ =~= v@);
    }
    out
}

/// `xs` holds the same pull-request/reference pairs as `ys`, compared
/// record by record and reference list by view.
pub open spec fn pr_pairs_like(
    xs: Seq<(PullRequestRecord, Vec<String>)>,
    ys: Seq<(PullRequestRecord, Vec<String>)>,
) -> bool {
    &&& xs.len() == ys.len()
    &&& forall|k: int|
        0 <= k < xs.len() ==> (#[trigger] xs[k]).0 == ys[k].0 && xs[k].1@ == ys[k].1@
}

/// `xs` holds the same commit/reference pairs as `ys`, compared record
/// by record and reference list by view.
pub open spec fn commit_pairs_like(
    xs: Seq<(CommitRecord, Vec<String>)>,
    ys: Seq<(CommitRecord, Vec<String>)>,
) -> bool {
    &&& xs.len() == ys.len()
    &&& forall|k: int|
        0 <= k < xs.len() ==> (#[trigger] xs[k]).0 == ys[k].0 && xs[k].1@ == ys[k].1@
}

/// Element-for-element copy of a pull-request/reference list.
fn copy_pr_list(v: &Vec<(PullRequestRecord, Vec<String>)>) -> (r: Vec<
    (PullRequestRecord, Vec<String>),
>)
    ensures
        pr_pairs_like(r@, v@),
{
    let mut out: Vec<(PullRequestRecord, Vec<String>)> = Vec::new();
    let mut j: usize = 0;
    while j < v.len()
        invariant
            j <= v@.len(),
            out@.len() == j,
            forall|k: int| 0 <= k < j ==> (#[trigger] out@[k]).0 == v@[k].0 && out@[k].1@ == v@[k].1@,
        decreases v@.len() - j,
    {
        let entry = &v[j];
        let rec = entry.0.duplicate();
        let refs = copy_string_vec(&entry.1);
        out.push((rec, refs));
        j += 1;
    }
    out
}

/// Element-for-element copy of a commit/reference list.
fn copy_commit_list(v: &Vec<(CommitRecord, Vec<String>)>) -> (r: Vec<(CommitRecord, Vec<String>)>)
    ensures
        commit_pairs_like(r@, v@),
{
    let mut out: Vec<(CommitRecord, Vec<String>)> = Vec::new();
    let mut j: usize = 0;
    while j < v.len()
        invariant
            j <= v@.len(),
            out@.len() == j,
            forall|k: int| 0 <= k < j ==> (#[trigger] out@[k]).0 == v@[k].0 && out@[k].1@ == v@[k].1@,
        decreases v@.len() - j,
    {
        let entry = &v[j];
        let rec = entry.0.duplicate();
        let refs = copy_string_vec(&entry.1);
        out.push((rec, refs));
        j += 1;
    }
    out
}

/// Aligns the three mappings against the canonical repository list:
/// one analysis per canonical repository, in list order. A repository
/// missing from a mapping gets the empty list for that kind; `locals`
/// supplies, position by position, what the caller's open-or-absent
/// lookup of each local mirror produced.
pub fn align_repo_data<L>(
    repos: &Vec<String>,
    repo_issues: &Vec<(String, Vec<IssueRecord>)>,
    repo_prs: &Vec<(String, Vec<(PullRequestRecord, Vec<String>)>)>,
    repo_commits: &Vec<(String, Vec<(CommitRecord, Vec<String>)>)>,
    locals: Vec<Option<L>>,
) -> (r: Vec<RepoAnalysis<L>>)
    requires
        locals@.len() == repos@.len(),
    ensures
        r@.len() == repos@.len(),
        forall|i: int|
            0 <= i < repos@.len() ==> {
                let a = #[trigger] r@[i];
                &&& a.repo_name == repos@[i]
                &&& a.issues@ == (match map_lookup(repo_issues@, repos@[i]@) {
                    Some(v) => v@,
                    None => Seq::<IssueRecord>::empty(),
                })
                &&& (match map_lookup(repo_prs@, repos@[i]@) {
                    Some(v) => pr_pairs_like(a.prs_with_issues@, v@),
                    None => a.prs_with_issues@ == Seq::<(PullRequestRecord, Vec<String>)>::empty(),
                })
                &&& (match map_lookup(repo_commits@, repos@[i]@) {
                    Some(v) => commit_pairs_like(a.commits_with_issues@, v@),
                    None => a.commits_with_issues@ == Seq::<(CommitRecord, Vec<String>)>::empty(),
                })
                &&& a.local_repo == locals@[i]
            },
{
    let ghost locals0 = locals@;
    let mut locals_rest = locals;
    let mut out: Vec<RepoAnalysis<L>> = Vec::new();
    let n = repos.len();
    let mut i: usize = 0;
    proof {
        assert(locals0.skip(0) =~= locals0);
    }
    while i < n
        invariant
            n == repos@.len(),
            locals0.len() == repos@.len(),
            i <= n,
            out@.len() == i,
            locals_rest@ == locals0.skip(i as int),
            forall|k: int|
                0 <= k < i ==> {
                    let a = #[trigger] out@[k];
                    &&& a.repo_name == repos@[k]
                    &&& a.issues@ == (match map_lookup(repo_issues@, repos@[k]@) {
                        Some(v) => v@,
                        None => Seq::<IssueRecord>::empty(),
                    })
                    &&& (match map_lookup(repo_prs@, repos@[k]@) {
                        Some(v) => pr_pairs_like(a.prs_with_issues@, v@),
                        None => a.prs_with_issues@ == Seq::<(PullRequestRecord, Vec<String>)>::empty(),
                    })
                    &&& (match map_lookup(repo_commits@, repos@[k]@) {
                        Some(v) => commit_pairs_like(a.commits_with_issues@, v@),
                        None => a.commits_with_issues@ == Seq::<(CommitRecord, Vec<String>)>::empty(),
                    })
                    &&& a.local_repo == locals0[k]
                },
        decreases n - i,
    {
        let name = &repos[i];
        let mut analysis: RepoAnalysis<L> = RepoAnalysis::new(name.clone());
        match find_entry(repo_issues, name) {
            Some(j) => {
                analysis.issues = copy_issue_list(&repo_issues[j].1);
            }
            None => {}
        }
        match find_entry(repo_prs, name) {
            Some(j) => {
                analysis.prs_with_issues = copy_pr_list(&repo_prs[j].1);
            }
            None => {}
        }
        match find_entry(repo_commits, name) {
            Some(j) => {
                analysis.commits_with_issues = copy_commit_list(&repo_commits[j].1);
            }
            None => {}
        }
        let ghost rest0 = locals_rest@;
        let handle = locals_rest.remove(0);
        proof {
            assert(handle == locals0[i as int]);
            assert(locals_rest@ =~= locals0.skip(i as int + 1));
        }
        analysis.attach_local_repo(handle);
        out.push(analysis);
        i += 1;
    }
    out
}

/// The positions, in order, of the pull requests that carry at least
/// one reference.
pub open spec fn linked_pr_positions(prs: Seq<(PullRequestRecord, Vec<String>)>) -> Seq<int>
    decreases prs.len(),
{
    if prs.len() == 0 {
        Seq::empty()
    } else {
        linked_pr_positions(prs.drop_last()) + (if prs.last().1@.len() > 0 {
            seq![prs.len() - 1]
        } else {
            Seq::empty()
        })
    }
}

/// The positions of the pull requests of `a` that carry references;
/// what a report of issue–pull-request relationships walks over.
pub fn linked_pr_indices<L>(a: &RepoAnalysis<L>) -> (r: Vec<usize>)
    ensures
        r@.map_values(|u: usize| u as int) == linked_pr_positions(a.prs_with_issues@),
        forall|k: int| 0 <= k < r@.len() ==> (#[trigger] r@[k]) < a.prs_with_issues@.len(),
{
    let prs = &a.prs_with_issues;
    let mut out: Vec<usize> = Vec::new();
    let mut j: usize = 0;
    proof {
        assert(prs@.subrange(0, 0) =~= Seq::<(PullRequestRecord, Vec<String>)>::empty());
        assert(out@.map_values(|u: usize| u as int) =~= linked_pr_positions(prs@.subrange(0, 0)));
    }
    while j < prs.len()
        invariant
            j <= prs@.len(),
            out@.map_values(|u: usize| u as int) == linked_pr_positions(
                prs@.subrange(0, j as int),
            ),
            forall|k: int| 0 <= k < out@.len() ==> (#[trigger] out@[k]) < j,
        decreases prs@.len() - j,
    {
        proof {
            assert(prs@.subrange(0, j as int + 1).drop_last() =~= prs@.subrange(0, j as int));
            assert(prs@.subrange(0, j as int + 1).last() == prs@[j as int]);
        }
        let has_refs = prs[j].1.len() > 0;
        if has_refs {
            let ghost out0 = out@;
            out.push(j);
            proof {
                assert(out@.map_values(|u: usize| u as int) =~= out0.map_values(
                    |u: usize| u as int,
                ).push(j as int));
                assert(out0.map_values(|u: usize| u as int).push(j as int) =~= linked_pr_positions(
                    prs@.subrange(0, j as int),
                ) + seq![j as int]);
            }
        } else {
            proof {
                assert(linked_pr_positions(prs@.subrange(0, j as int + 1)) =~= linked_pr_positions(
                    prs@.subrange(0, j as int),
                ));
            }
        }
        j += 1;
    }
    proof {
        assert(prs@.subrange(0, prs@.len() as int) =~= prs@);
    }
    out
}

} // verus!
