use repo_correlator::batch::get_all_issues;
use repo_correlator::batch::get_commits_with_issues;
use repo_correlator::batch::get_pull_requests_with_issues;
use repo_correlator::batch::process_commits;
use repo_correlator::batch::process_pull_requests;
use repo_correlator::fetch::FetchedPage;
use repo_correlator::fetch::PagedFetch;
use repo_correlator::records::CommitRecord;
use repo_correlator::records::IssueRecord;
use repo_correlator::records::PullRequestRecord;

fn pr(number: u64, title: Option<&str>, body: Option<&str>) -> PullRequestRecord {
    PullRequestRecord {
        number,
        title: title.map(|t| t.to_string()),
        body: body.map(|b| b.to_string()),
        state: "all".to_string(),
        created_at: None,
        merged_at: None,
    }
}

fn commit(sha: &str, message: &str) -> CommitRecord {
    CommitRecord { sha: sha.to_string(), message: message.to_string() }
}

#[test]
fn pr_without_fields_is_kept_with_empty_references() {
    let out = process_pull_requests(vec![pr(4, None, None)]);
    assert_eq!(out.len(), 1);
    assert_eq!(out[0].0.number, 4);
    assert_eq!(out[0].1, Vec::<String>::new());
}

#[test]
fn every_pr_is_kept_in_order() {
    let out = process_pull_requests(vec![
        pr(1, Some("fixes #8"), None),
        pr(2, Some("tidy"), None),
        pr(3, None, Some("closes #9")),
    ]);
    assert_eq!(out.len(), 3);
    assert_eq!(out[0].0.number, 1);
    assert_eq!(out[0].1, vec!["8".to_string()]);
    assert_eq!(out[1].0.number, 2);
    assert_eq!(out[1].1, Vec::<String>::new());
    assert_eq!(out[2].0.number, 3);
    assert_eq!(out[2].1, vec!["9".to_string()]);
}

#[test]
fn commit_without_references_is_dropped() {
    let out = process_commits(vec![
        commit("aaa", "tidy up imports"),
        commit("bbb", "fixes #21"),
    ]);
    assert_eq!(out.len(), 1);
    assert_eq!(out[0].0.sha, "bbb");
    assert_eq!(out[0].1, vec!["21".to_string()]);
}

#[test]
fn all_commits_without_references_leave_an_empty_list() {
    let out = process_commits(vec![commit("aaa", "one"), commit("bbb", "two")]);
    assert!(out.is_empty());
}

#[test]
fn issues_mapping_omits_repositories_without_issues() {
    let mapping = get_all_issues(vec![
        ("a/b".to_string(), vec![IssueRecord { number: 1 }]),
        ("c/d".to_string(), Vec::new()),
        ("e/f".to_string(), vec![IssueRecord { number: 2 }, IssueRecord { number: 3 }]),
    ]);
    assert_eq!(mapping.len(), 2);
    assert_eq!(mapping[0].0, "a/b");
    assert_eq!(mapping[0].1.len(), 1);
    assert_eq!(mapping[1].0, "e/f");
    assert_eq!(mapping[1].1.len(), 2);
}

#[test]
fn pr_mapping_records_empty_lists() {
    let mapping = get_pull_requests_with_issues(vec![("a/b".to_string(), Vec::new())]);
    assert_eq!(mapping.len(), 1);
    assert_eq!(mapping[0].0, "a/b");
    assert!(mapping[0].1.is_empty());
}

#[test]
fn commit_mapping_records_entries_that_filter_to_nothing() {
    let mapping = get_commits_with_issues(vec![(
        "a/b".to_string(),
        vec![commit("aaa", "no reference here")],
    )]);
    assert_eq!(mapping.len(), 1);
    assert_eq!(mapping[0].0, "a/b");
    assert!(mapping[0].1.is_empty());
}

#[test]
fn two_page_batch_keeps_all_pull_requests() {
    // Repository with 150 pull requests delivered in two pages of at
    // most 100; pull request 5 links an issue in its title.
    let mut fetch: PagedFetch<PullRequestRecord> = PagedFetch::new();
    let first: Vec<PullRequestRecord> = (1..=100)
        .map(|n| {
            if n == 5 {
                pr(n, Some("Fix #10"), None)
            } else {
                pr(n, Some("routine work"), None)
            }
        })
        .collect();
    let second: Vec<PullRequestRecord> = (101..=150).map(|n| pr(n, None, None)).collect();
    let more = fetch.on_page(FetchedPage { items: first, has_next: true });
    assert!(more);
    let more = fetch.on_page(FetchedPage { items: second, has_next: false });
    assert!(!more);
    let all_pulls = fetch.into_items();
    assert_eq!(all_pulls.len(), 150);

    let mapping = get_pull_requests_with_issues(vec![("acme/widgets".to_string(), all_pulls)]);
    assert_eq!(mapping.len(), 1);
    assert_eq!(mapping[0].0, "acme/widgets");
    let pairs = &mapping[0].1;
    assert_eq!(pairs.len(), 150);
    for (record, refs) in pairs.iter() {
        if record.number == 5 {
            assert_eq!(refs, &vec!["10".to_string()]);
        } else {
            assert!(refs.is_empty());
        }
    }
}
