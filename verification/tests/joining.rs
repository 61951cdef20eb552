use repo_correlator::join::align_repo_data;
use repo_correlator::join::linked_pr_indices;
use repo_correlator::join::RepoAnalysis;
use repo_correlator::records::CommitRecord;
use repo_correlator::records::IssueRecord;
use repo_correlator::records::PullRequestRecord;
use repo_correlator::repo_id::local_mirror_path;
use repo_correlator::repo_id::split_repo_name;

fn pr(number: u64, title: Option<&str>) -> PullRequestRecord {
    PullRequestRecord {
        number,
        title: title.map(|t| t.to_string()),
        body: None,
        state: "all".to_string(),
        created_at: None,
        merged_at: None,
    }
}

#[test]
fn unknown_repository_still_gets_an_analysis() {
    let repos = vec!["x/y".to_string()];
    let analyses: Vec<RepoAnalysis<u8>> = align_repo_data(
        &repos,
        &Vec::new(),
        &Vec::new(),
        &Vec::new(),
        vec![None],
    );
    assert_eq!(analyses.len(), 1);
    assert_eq!(analyses[0].repo_name, "x/y");
    assert!(analyses[0].issues.is_empty());
    assert!(analyses[0].prs_with_issues.is_empty());
    assert!(analyses[0].commits_with_issues.is_empty());
    assert!(analyses[0].local_repo.is_none());
}

#[test]
fn output_follows_canonical_order_not_mapping_order() {
    let repos = vec!["b/b".to_string(), "a/a".to_string()];
    let issues = vec![
        ("a/a".to_string(), vec![IssueRecord { number: 1 }]),
        ("b/b".to_string(), vec![IssueRecord { number: 2 }, IssueRecord { number: 3 }]),
    ];
    let analyses: Vec<RepoAnalysis<u8>> =
        align_repo_data(&repos, &issues, &Vec::new(), &Vec::new(), vec![None, None]);
    assert_eq!(analyses.len(), 2);
    assert_eq!(analyses[0].repo_name, "b/b");
    assert_eq!(analyses[0].issues.len(), 2);
    assert_eq!(analyses[1].repo_name, "a/a");
    assert_eq!(analyses[1].issues.len(), 1);
}

#[test]
fn mapping_entries_are_carried_into_the_analysis() {
    let repos = vec!["o/r".to_string()];
    let prs = vec![(
        "o/r".to_string(),
        vec![(pr(7, Some("fixes #1")), vec!["1".to_string()])],
    )];
    let commits = vec![(
        "o/r".to_string(),
        vec![(
            CommitRecord { sha: "s".to_string(), message: "closes #2".to_string() },
            vec!["2".to_string()],
        )],
    )];
    let analyses: Vec<RepoAnalysis<u8>> =
        align_repo_data(&repos, &Vec::new(), &prs, &commits, vec![Some(9)]);
    assert_eq!(analyses.len(), 1);
    let a = &analyses[0];
    assert_eq!(a.prs_with_issues.len(), 1);
    assert_eq!(a.prs_with_issues[0].0.number, 7);
    assert_eq!(a.prs_with_issues[0].1, vec!["1".to_string()]);
    assert_eq!(a.commits_with_issues.len(), 1);
    assert_eq!(a.commits_with_issues[0].0.sha, "s");
    assert_eq!(a.commits_with_issues[0].1, vec!["2".to_string()]);
    assert_eq!(a.local_repo, Some(9));
}

#[test]
fn fresh_analysis_is_empty() {
    let a: RepoAnalysis<u8> = RepoAnalysis::new("o/r".to_string());
    assert_eq!(a.repo_name, "o/r");
    assert!(a.issues.is_empty());
    assert!(a.prs_with_issues.is_empty());
    assert!(a.commits_with_issues.is_empty());
    assert!(a.local_repo.is_none());
}

#[test]
fn linked_indices_pick_reference_carrying_prs() {
    let mut a: RepoAnalysis<u8> = RepoAnalysis::new("o/r".to_string());
    a.prs_with_issues = vec![
        (pr(1, None), Vec::new()),
        (pr(2, None), vec!["4".to_string()]),
        (pr(3, None), Vec::new()),
        (pr(4, None), vec!["5".to_string(), "6".to_string()]),
    ];
    assert_eq!(linked_pr_indices(&a), vec![1usize, 3usize]);
}

#[test]
fn repo_names_split_at_their_only_slash() {
    assert_eq!(
        split_repo_name("acme/widgets"),
        Some(("acme".to_string(), "widgets".to_string()))
    );
    assert_eq!(split_repo_name("acmewidgets"), None);
    assert_eq!(split_repo_name("a/b/c"), None);
    assert_eq!(split_repo_name(""), None);
}

#[test]
fn mirror_path_joins_owner_and_name() {
    assert_eq!(local_mirror_path("acme", "widgets"), "repos/acme__widgets");
}
