use repo_correlator::extract::extract_issues_from_commit;
use repo_correlator::extract::extract_issues_from_pr;
use repo_correlator::extract::extract_references;
use repo_correlator::records::CommitRecord;
use repo_correlator::records::PullRequestRecord;

fn pr(title: Option<&str>, body: Option<&str>) -> PullRequestRecord {
    PullRequestRecord {
        number: 1,
        title: title.map(|t| t.to_string()),
        body: body.map(|b| b.to_string()),
        state: "open".to_string(),
        created_at: None,
        merged_at: None,
    }
}

#[test]
fn fixes_hash_number_is_extracted() {
    let refs = extract_references("this change fixes #42 for good");
    assert!(refs.iter().any(|r| r == "42"));
}

#[test]
fn bare_fixes_reference_is_exactly_the_number() {
    assert_eq!(extract_references("fixes #42"), vec!["42".to_string()]);
}

#[test]
fn keyword_and_url_reference_both_emitted() {
    let refs = extract_references("closes #7 and https://github.com/o/r/issues/7");
    let sevens = refs.iter().filter(|r| r.as_str() == "7").count();
    assert_eq!(sevens, 2);
    assert_eq!(refs, vec!["7".to_string(), "7".to_string()]);
}

#[test]
fn keyword_directly_followed_by_digits() {
    assert_eq!(extract_references("fix42"), vec!["42".to_string()]);
    assert_eq!(extract_references("Resolves99 ok"), vec!["99".to_string()]);
    assert_eq!(extract_references("CLOSED7"), vec!["7".to_string()]);
}

#[test]
fn keyword_with_space_matches_through_the_hash() {
    // `fixes ` is not directly followed by digits; the `#` alone matches.
    assert_eq!(extract_references("Fixes #10"), vec!["10".to_string()]);
}

#[test]
fn no_reference_patterns_yield_empty() {
    assert_eq!(extract_references(""), Vec::<String>::new());
    assert_eq!(extract_references("fixture 42"), Vec::<String>::new());
    assert_eq!(extract_references("nothing to see"), Vec::<String>::new());
    assert_eq!(extract_references("trailing #"), Vec::<String>::new());
    assert_eq!(extract_references("#x9"), Vec::<String>::new());
}

#[test]
fn duplicate_hash_references_are_kept() {
    assert_eq!(
        extract_references("#5 and #5 again"),
        vec!["5".to_string(), "5".to_string()]
    );
}

#[test]
fn url_reference_extracted() {
    assert_eq!(
        extract_references("see https://github.com/acme/widgets/issues/123 please"),
        vec!["123".to_string()]
    );
    assert_eq!(
        extract_references("http://github.com/a/b/issues/9"),
        vec!["9".to_string()]
    );
}

#[test]
fn url_with_wrong_shape_is_no_reference() {
    assert_eq!(
        extract_references("https://github.com/a/b/c/issues/9"),
        Vec::<String>::new()
    );
    assert_eq!(
        extract_references("https://github.com/a/issues/9"),
        Vec::<String>::new()
    );
    assert_eq!(
        extract_references("HTTPS://github.com/a/b/issues/9"),
        Vec::<String>::new()
    );
    assert_eq!(
        extract_references("https://gitlab.com/a/b/issues/9"),
        Vec::<String>::new()
    );
}

#[test]
fn url_digit_run_stops_at_first_nondigit() {
    assert_eq!(
        extract_references("https://github.com/a/b/issues/12abc"),
        vec!["12".to_string()]
    );
}

#[test]
fn keyword_captures_precede_url_captures() {
    let refs = extract_references("see https://github.com/o/r/issues/3 and fixes #2");
    assert_eq!(refs, vec!["2".to_string(), "3".to_string()]);
}

#[test]
fn pr_fields_are_scanned_title_then_body() {
    let record = pr(
        Some("fix #1 and https://github.com/a/b/issues/2"),
        Some("#3 then https://github.com/a/b/issues/4"),
    );
    assert_eq!(
        extract_issues_from_pr(&record),
        vec![
            "1".to_string(),
            "2".to_string(),
            "3".to_string(),
            "4".to_string()
        ]
    );
}

#[test]
fn absent_pr_fields_contribute_nothing() {
    let record = pr(None, None);
    assert_eq!(extract_issues_from_pr(&record), Vec::<String>::new());
}

#[test]
fn commit_message_is_scanned() {
    let commit = CommitRecord {
        sha: "abc123".to_string(),
        message: "resolve #11\n\nAlso see https://github.com/x/y/issues/11".to_string(),
    };
    assert_eq!(
        extract_issues_from_commit(&commit),
        vec!["11".to_string(), "11".to_string()]
    );
}
