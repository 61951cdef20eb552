use repo_correlator::fetch::assemble_pages;
use repo_correlator::fetch::FetchedPage;
use repo_correlator::fetch::PagedFetch;
use repo_correlator::fetch::PageOutcome;

fn delivered(items: Vec<u64>, has_next: bool) -> PageOutcome<u64> {
    PageOutcome::Delivered(FetchedPage { items, has_next })
}

#[test]
fn refetch_of_unchanged_source_is_identical() {
    let run = || {
        assemble_pages(vec![
            delivered(vec![1, 2, 3], true),
            delivered(vec![4, 5], true),
            delivered(vec![6], false),
        ])
    };
    assert_eq!(run(), run());
    assert_eq!(run(), vec![1, 2, 3, 4, 5, 6]);
}

#[test]
fn session_collects_pages_in_order() {
    let mut fetch: PagedFetch<u64> = PagedFetch::new();
    let more = fetch.on_page(FetchedPage { items: vec![10, 11], has_next: true });
    assert!(more);
    let more = fetch.on_page(FetchedPage { items: vec![12], has_next: false });
    assert!(!more);
    assert_eq!(fetch.into_items(), vec![10, 11, 12]);
}

#[test]
fn failed_first_request_yields_empty() {
    let mut fetch: PagedFetch<u64> = PagedFetch::new();
    fetch.on_failure();
    assert_eq!(fetch.into_items(), Vec::<u64>::new());
    assert_eq!(assemble_pages::<u64>(vec![PageOutcome::Failed]), Vec::<u64>::new());
}

#[test]
fn mid_sequence_failure_keeps_the_accumulated_prefix() {
    let mut fetch: PagedFetch<u64> = PagedFetch::new();
    let more = fetch.on_page(FetchedPage { items: vec![1, 2], has_next: true });
    assert!(more);
    fetch.on_failure();
    assert_eq!(fetch.into_items(), vec![1, 2]);
    assert_eq!(
        assemble_pages(vec![delivered(vec![1, 2], true), PageOutcome::Failed]),
        vec![1, 2]
    );
}

#[test]
fn fetch_stops_at_first_page_without_continuation() {
    let collected = assemble_pages(vec![
        delivered(vec![1], false),
        delivered(vec![2], true),
    ]);
    assert_eq!(collected, vec![1]);
}

#[test]
fn empty_outcome_run_collects_nothing() {
    assert_eq!(assemble_pages::<u64>(Vec::new()), Vec::<u64>::new());
}
