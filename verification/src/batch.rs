//! Per-repository processing and batch mapping construction.
//!
//! Each repository's fetched records are paired with the references
//! their texts carry, and the per-repository results are assembled into
//! keyed mappings, one entry per repository in input order. Two
//! asymmetries are part of the contract, not accidents:
//!
//! * every pull request is kept, references or none, while a commit is
//!   kept only when its message carries at least one reference;
//! * a repository with an empty pull-request or commit list still gets
//!   its mapping entry, while repositories without issues are omitted
//!   from the issues mapping altogether.

use vstd::prelude::*;

use crate::extract::extract_issues_from_commit;
use crate::extract::extract_issues_from_pr;
use crate::extract::extracted_refs;
use crate::extract::pr_refs;
use crate::records::CommitRecord;
use crate::records::IssueRecord;
use crate::records::PullRequestRecord;

verus! {

/// `output` pairs each pull request of `input`, in order, with exactly
/// the references its title and body carry.
pub open spec fn prs_processed(
    input: Seq<PullRequestRecord>,
    output: Seq<(PullRequestRecord, Vec<String>)>,
) -> bool {
    &&& output.len() == input.len()
    &&& forall|k: int|
        0 <= k < input.len() ==> (#[trigger] output[k]).0 == input[k] && output[k].1.deep_view()
            == pr_refs(input[k])
}

/// The commits of `commits` whose messages carry at least one reference,
/// in order.
pub open spec fn kept_commits(commits: Seq<CommitRecord>) -> Seq<CommitRecord>
    decreases commits.len(),
{
    if commits.len() == 0 {
        Seq::empty()
    } else {
        kept_commits(commits.drop_last()) + (if extracted_refs(commits.last().message@).len()
            > 0 {
            seq![commits.last()]
        } else {
            Seq::empty()
        })
    }
}

/// `output` holds exactly the reference-carrying commits of `input`, in
/// order, each paired with its references — which are never empty.
pub open spec fn commits_processed(
    input: Seq<CommitRecord>,
    output: Seq<(CommitRecord, Vec<String>)>,
) -> bool {
    &&& output.map_values(|p: (CommitRecord, Vec<String>)| p.0) == kept_commits(input)
    &&& forall|k: int|
        0 <= k < output.len() ==> (#[trigger] output[k]).1.deep_view() == extracted_refs(
            output[k].0.message@,
        ) && output[k].1.deep_view().len() > 0
}

/// Pairs every pull request with its extracted references. Pull
/// requests without references are kept, with an empty list.
pub fn process_pull_requests(prs: Vec<PullRequestRecord>) -> (r: Vec<
    (PullRequestRecord, Vec<String>),
>)
    ensures
        prs_processed(prs@, r@),
{
    let ghost orig = prs@;
    let mut rest = prs;
    let mut out: Vec<(PullRequestRecord, Vec<String>)> = Vec::new();
    proof {
        assert(orig.skip(0) =~= orig);
    }
    while rest.len() > 0
        invariant
            out@.len() + rest@.len() == orig.len(),
            rest@ == orig.skip(out@.len() as int),
            forall|k: int|
                0 <= k < out@.len() ==> (#[trigger] out@[k]).0 == orig[k] && out@[k].1.deep_view()
                    == pr_refs(orig[k]),
        decreases rest@.len(),
    {
        let ghost i = out@.len() as int;
        let ghost rest0 = rest@;
        let pr = rest.remove(0);
        proof {
            assert(pr == orig[i]);
            assert(rest@ =~= orig.skip(i + 1));
        }
        let refs = extract_issues_from_pr(&pr);
        out.push((pr, refs));
    }
    out
}

/// Pairs every reference-carrying commit with its extracted references.
/// Commits whose messages carry no reference are dropped.
pub fn process_commits(commits: Vec<CommitRecord>) -> (r: Vec<(CommitRecord, Vec<String>)>)
    ensures
        commits_processed(commits@, r@),
{
    let ghost orig = commits@;
    let mut rest = commits;
    let mut out: Vec<(CommitRecord, Vec<String>)> = Vec::new();
    let ghost mut i: int = 0;
    proof {
        assert(orig.skip(0) =~= orig);
        assert(orig.subrange(0, 0) =~= Seq::<CommitRecord>::empty());
        assert(out@.map_values(|p: (CommitRecord, Vec<String>)| p.0) =~= kept_commits(
            orig.subrange(0, 0),
        ));
    }
    while rest.len() > 0
        invariant
            0 <= i <= orig.len(),
            i + rest@.len() == orig.len(),
            rest@ == orig.skip(i),
            out@.map_values(|p: (CommitRecord, Vec<String>)| p.0) == kept_commits(
                orig.subrange(0, i),
            ),
            forall|k: int|
                0 <= k < out@.len() ==> (#[trigger] out@[k]).1.deep_view() == extracted_refs(
                    out@[k].0.message@,
                ) && out@[k].1.deep_view().len() > 0,
        decreases rest@.len(),
    {
        let c = rest.remove(0);
        proof {
            assert(c == orig[i]);
            assert(rest@ =~= orig.skip(i + 1));
            assert(orig.subrange(0, i + 1).drop_last() =~= orig.subrange(0, i));
            assert(orig.subrange(0, i + 1).last() == orig[i]);
        }
        let refs = extract_issues_from_commit(&c);
        if refs.len() > 0 {
            let ghost out0 = out@;
            out.push((c, refs));
            proof {
                assert(out@.map_values(|p: (CommitRecord, Vec<String>)| p.0) =~= out0.map_values(
                    |p: (CommitRecord, Vec<String>)| p.0,
                ).push(c));
                assert(kept_commits(orig.subrange(0, i + 1)) == kept_commits(
                    orig.subrange(0, i),
                ) + seq![orig[i]]);
                assert(out0.map_values(|p: (CommitRecord, Vec<String>)| p.0).push(c)
                    =~= kept_commits(orig.subrange(0, i)) + seq![orig[i]]);
            }
        } else {
            proof {
                assert(refs@.len() == 0);
                assert(refs.deep_view().len() == 0);
                assert(kept_commits(orig.subrange(0, i + 1)) =~= kept_commits(
                    orig.subrange(0, i),
                ));
            }
        }
        proof {
            i = i + 1;
        }
    }
    proof {
        assert(orig.subrange(0, orig.len() as int) =~= orig);
    }
    out
}

/// Builds the pull-request mapping: one entry per repository of the
/// batch, in input order, holding every pull request paired with its
/// references. An empty pull-request list is still recorded.
pub fn get_pull_requests_with_issues(fetched: Vec<(String, Vec<PullRequestRecord>)>) -> (r: Vec<
    (String, Vec<(PullRequestRecord, Vec<String>)>),
>)
    ensures
        r@.len() == fetched@.len(),
        forall|k: int|
            0 <= k < fetched@.len() ==> (#[trigger] r@[k]).0 == fetched@[k].0 && prs_processed(
                fetched@[k].1@,
                r@[k].1@,
            ),
{
    let ghost orig = fetched@;
    let mut rest = fetched;
    let mut out: Vec<(String, Vec<(PullRequestRecord, Vec<String>)>)> = Vec::new();
    proof {
        assert(orig.skip(0) =~= orig);
    }
    while rest.len() > 0
        invariant
            out@.len() + rest@.len() == orig.len(),
            rest@ == orig.skip(out@.len() as int),
            forall|k: int|
                0 <= k < out@.len() ==> (#[trigger] out@[k]).0 == orig[k].0 && prs_processed(
                    orig[k].1@,
                    out@[k].1@,
                ),
        decreases rest@.len(),
    {
        let ghost i = out@.len() as int;
        let entry = rest.remove(0);
        proof {
            assert(entry == orig[i]);
            assert(rest@ =~= orig.skip(i + 1));
        }
        let (name, prs) = entry;
        let processed = process_pull_requests(prs);
        out.push((name, processed));
    }
    out
}

/// Builds the commit mapping: one entry per repository of the batch, in
/// input order, holding only the reference-carrying commits. An entry
/// whose commit list filters down to nothing is still recorded.
pub fn get_commits_with_issues(fetched: Vec<(String, Vec<CommitRecord>)>) -> (r: Vec<
    (String, Vec<(CommitRecord, Vec<String>)>),
>)
    ensures
        r@.len() == fetched@.len(),
        forall|k: int|
            0 <= k < fetched@.len() ==> (#[trigger] r@[k]).0 == fetched@[k].0 && commits_processed(
                fetched@[k].1@,
                r@[k].1@,
            ),
{
    let ghost orig = fetched@;
    let mut rest = fetched;
    let mut out: Vec<(String, Vec<(CommitRecord, Vec<String>)>)> = Vec::new();
    proof {
        assert(orig.skip(0) =~= orig);
    }
    while rest.len() > 0
        invariant
            out@.len() + rest@.len() == orig.len(),
            rest@ == orig.skip(out@.len() as int),
            forall|k: int|
                0 <= k < out@.len() ==> (#[trigger] out@[k]).0 == orig[k].0 && commits_processed(
                    orig[k].1@,
                    out@[k].1@,
                ),
        decreases rest@.len(),
    {
        let ghost i = out@.len() as int;
        let entry = rest.remove(0);
        proof {
            assert(entry == orig[i]);
            assert(rest@ =~= orig.skip(i + 1));
        }
        let (name, commits) = entry;
        let processed = process_commits(commits);
        out.push((name, processed));
    }
    out
}

/// The entries of an issues batch whose issue lists are non-empty, in
/// order.
pub open spec fn nonempty_issue_entries(m: Seq<(String, Vec<IssueRecord>)>) -> Seq<
    (String, Vec<IssueRecord>),
>
    decreases m.len(),
{
    if m.len() == 0 {
        Seq::empty()
    } else {
        nonempty_issue_entries(m.drop_last()) + (if m.last().1@.len() > 0 {
            seq![m.last()]
        } else {
            Seq::empty()
        })
    }
}

/// Builds the issues mapping: one entry per repository of the batch
/// whose issue list is non-empty, in input order. Repositories without
/// issues are omitted — unlike in the other two mappings.
pub fn get_all_issues(fetched: Vec<(String, Vec<IssueRecord>)>) -> (r: Vec<
    (String, Vec<IssueRecord>),
>)
    ensures
        r@ == nonempty_issue_entries(fetched@),
{
    let ghost orig = fetched@;
    let mut rest = fetched;
    let mut out: Vec<(String, Vec<IssueRecord>)> = Vec::new();
    let ghost mut i: int = 0;
    proof {
        assert(orig.skip(0) =~= orig);
        assert(orig.subrange(0, 0) =~= Seq::<(String, Vec<IssueRecord>)>::empty());
        assert(out@ =~= nonempty_issue_entries(orig.subrange(0, 0)));
    }
    while rest.len() > 0
        invariant
            0 <= i <= orig.len(),
            i + rest@.len() == orig.len(),
            rest@ == orig.skip(i),
            out@ == nonempty_issue_entries(orig.subrange(0, i)),
        decreases rest@.len(),
    {
        let entry = rest.remove(0);
        proof {
            assert(entry == orig[i]);
            assert(rest@ =~= orig.skip(i + 1));
            assert(orig.subrange(0, i + 1).drop_last() =~= orig.subrange(0, i));
            assert(orig.subrange(0, i + 1).last() == orig[i]);
        }
        let keep = entry.1.len() > 0;
        if keep {
            let ghost out0 = out@;
            out.push(entry);
            proof {
                assert(out@ =~= out0.push(orig[i]));
                assert(out0.push(orig[i]) =~= nonempty_issue_entries(orig.subrange(0, i)) + seq![
                    orig[i],
                ]);
            }
        } else {
            proof {
                assert(nonempty_issue_entries(orig.subrange(0, i + 1))
                    =~= nonempty_issue_entries(orig.subrange(0, i)));
            }
        }
        proof {
            i = i + 1;
        }
    }
    proof {
        assert(orig.subrange(0, orig.len() as int) =~= orig);
    }
    out
}

/// A pull request with neither title nor body contributes no references
/// and is still included, paired with the empty list.
pub proof fn lemma_absent_fields_pr_kept(
    prs: Seq<PullRequestRecord>,
    out: Seq<(PullRequestRecord, Vec<String>)>,
    i: int,
)
    requires
        prs_processed(prs, out),
        0 <= i < prs.len(),
        prs[i].title is None,
        prs[i].body is None,
    ensures
        out[i].0 == prs[i],
        out[i].1.deep_view() == Seq::<Seq<char>>::empty(),
{
    assert(pr_refs(prs[i]) =~= Seq::<Seq<char>>::empty());
}

/// A commit whose message carries no reference appears nowhere in the
/// processed commit list.
pub proof fn lemma_refless_commit_dropped(
    commits: Seq<CommitRecord>,
    out: Seq<(CommitRecord, Vec<String>)>,
    c: CommitRecord,
)
    requires
        commits_processed(commits, out),
        extracted_refs(c.message@).len() == 0,
    ensures
        forall|k: int| 0 <= k < out.len() ==> (#[trigger] out[k]).0 != c,
{
    assert forall|k: int| 0 <= k < out.len() implies (#[trigger] out[k]).0 != c by {
        if out[k].0 == c {
            assert(out[k].1.deep_view().len() > 0);
        }
    }
}

} // verus!
