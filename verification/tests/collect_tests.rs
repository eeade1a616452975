use keyscan::collect::{collect_keys, CollectStep, KeyCollector};
use keyscan::error::StoreError;
use keyscan::keys::present;
use keyscan::scan::{
    CursorScanner, ScanEvent, ScanPage, ScanRequest, ScanStrategy, Scanned, PAGE_SIZE_HINT,
};

fn page(texts: &[&str]) -> ScanPage {
    ScanPage { entries: Some(texts.iter().map(|t| Some(t.to_string())).collect()) }
}

fn texts(list: &[&str]) -> Vec<String> {
    list.iter().map(|t| t.to_string()).collect()
}

fn feed(collector: KeyCollector, scanner: &mut CursorScanner, event: ScanEvent) -> KeyCollector {
    match collector.accept(scanner.advance(event)) {
        CollectStep::More(next) => next,
        _ => panic!("the scan should go on after a page"),
    }
}

fn scanner() -> CursorScanner {
    CursorScanner::start(ScanRequest::new("*".to_string()), false)
}

#[test]
fn request_uses_the_usual_page_size() {
    let request = ScanRequest::new("user:*".to_string());
    assert_eq!(PAGE_SIZE_HINT, 10_000);
    assert_eq!(request.page_size_hint(), 10_000);
    assert_eq!(request.pattern(), "user:*");
}

#[test]
fn request_refuses_a_page_size_of_zero() {
    assert!(ScanRequest::with_page_size("*".to_string(), 0).is_none());
    let request = ScanRequest::with_page_size("*".to_string(), 1).expect("one is a page size");
    assert_eq!(request.page_size_hint(), 1);
    assert_eq!(request.pattern(), "*");
}

#[test]
fn strategy_follows_the_connection() {
    assert_eq!(ScanStrategy::select(true), ScanStrategy::Cluster);
    assert_eq!(ScanStrategy::select(false), ScanStrategy::SingleNode);
}

#[test]
fn present_keeps_order_and_drops_gaps() {
    let entries = vec![None, Some("a".to_string()), None, Some("b".to_string()), Some("a".to_string())];
    assert_eq!(present(entries), texts(&["a", "b", "a"]));
    assert_eq!(present(Vec::new()), Vec::<String>::new());
    assert_eq!(present(vec![None, None]), Vec::<String>::new());
}

#[test]
fn page_without_result_set_yields_no_keys() {
    assert_eq!(ScanPage { entries: None }.into_keys(), Vec::<String>::new());
}

#[test]
fn page_skips_keys_that_are_not_text() {
    let page = ScanPage { entries: Some(vec![Some("k1".to_string()), None, Some("k2".to_string())]) };
    assert_eq!(page.into_keys(), texts(&["k1", "k2"]));
}

#[test]
fn collect_returns_scan_order_unchanged() {
    let pages = vec![page(&["k9", "k1"]), page(&[]), page(&["k5"]), page(&["k1", "k0"])];
    assert_eq!(collect_keys(pages, false, false), texts(&["k9", "k1", "k5", "k1", "k0"]));
}

#[test]
fn collect_of_no_pages_is_empty() {
    assert_eq!(collect_keys(Vec::new(), false, false), Vec::<String>::new());
    assert_eq!(collect_keys(Vec::new(), true, true), Vec::<String>::new());
}

#[test]
fn collect_sorts_only_at_the_end() {
    let pages = vec![page(&["b", "d"]), page(&["a", "c"])];
    assert_eq!(collect_keys(pages, true, false), texts(&["a", "b", "c", "d"]));
}

#[test]
fn collect_reverses_after_sorting() {
    let pages = vec![page(&["b", "d"]), page(&["a", "c"])];
    assert_eq!(collect_keys(pages.clone(), true, true), texts(&["d", "c", "b", "a"]));
    assert_eq!(collect_keys(pages, false, true), texts(&["c", "a", "d", "b"]));
}

#[test]
fn collect_does_not_deduplicate() {
    let pages = vec![page(&["dup", "x"]), page(&["dup"])];
    assert_eq!(collect_keys(pages, true, false), texts(&["dup", "dup", "x"]));
}

#[test]
fn collector_steps_through_a_stream() {
    let mut scan = scanner();
    let mut collector = KeyCollector::new(false, false);
    collector = feed(collector, &mut scan, ScanEvent::Page(page(&["a"])));
    collector = feed(collector, &mut scan, ScanEvent::Page(ScanPage { entries: None }));
    collector = feed(collector, &mut scan, ScanEvent::Page(page(&["b", "c"])));
    assert!(!scan.is_done());
    match collector.accept(scan.advance(ScanEvent::End)) {
        CollectStep::Finished(list) => assert_eq!(list, texts(&["a", "b", "c"])),
        _ => panic!("the end of the stream finishes the collection"),
    }
    assert!(scan.is_done());
}

#[test]
fn collector_fails_without_a_partial_list() {
    let mut scan = scanner();
    let mut collector = KeyCollector::new(true, false);
    collector = feed(collector, &mut scan, ScanEvent::Page(page(&["a", "b"])));
    match collector.accept(scan.advance(ScanEvent::Failure("shard unreachable".to_string()))) {
        CollectStep::Failed(error) => {
            assert_eq!(error, StoreError::Scan("shard unreachable".to_string()));
            assert_eq!(error.message(), "shard unreachable");
            assert_eq!(error.describe(), "scan failed: shard unreachable");
        },
        _ => panic!("a failure ends the collection"),
    }
    assert!(scan.is_done());
}

#[test]
fn collector_add_batch_and_finish() {
    let mut collector = KeyCollector::new(true, true);
    collector.add_batch(texts(&["1", "3"]));
    collector.add_batch(texts(&["2"]));
    assert_eq!(collector.finish(), texts(&["3", "2", "1"]));
}

#[test]
fn scanner_starts_pending_with_its_strategy() {
    let single = CursorScanner::start(ScanRequest::new("a*".to_string()), false);
    assert!(!single.is_done());
    assert_eq!(single.strategy(), ScanStrategy::SingleNode);
    assert_eq!(single.request().pattern(), "a*");
    assert_eq!(single.request().page_size_hint(), 10_000);
    let cluster = CursorScanner::start(ScanRequest::new("a*".to_string()), true);
    assert_eq!(cluster.strategy(), ScanStrategy::Cluster);
}

#[test]
fn scanner_yields_each_page_as_a_batch() {
    let mut scan = scanner();
    match scan.advance(ScanEvent::Page(page(&["k2", "k1", "k2"]))) {
        Scanned::Batch(batch) => assert_eq!(batch, texts(&["k2", "k1", "k2"])),
        _ => panic!("a page yields a batch"),
    }
    match scan.advance(ScanEvent::Page(page(&[]))) {
        Scanned::Batch(batch) => assert!(batch.is_empty()),
        _ => panic!("an empty page yields an empty batch"),
    }
    assert!(!scan.is_done());
}

#[test]
fn scanner_does_not_start_again() {
    let mut ended = scanner();
    assert!(matches!(ended.advance(ScanEvent::End), Scanned::Done));
    assert!(ended.is_done());
    assert!(matches!(ended.advance(ScanEvent::Page(page(&["late"]))), Scanned::Done));
    assert!(matches!(ended.advance(ScanEvent::Failure("late".to_string())), Scanned::Done));
    assert!(ended.is_done());

    let mut failed = scanner();
    match failed.advance(ScanEvent::Failure("timeout".to_string())) {
        Scanned::Failed(error) => assert_eq!(error, StoreError::Scan("timeout".to_string())),
        _ => panic!("a failure is handed on"),
    }
    assert!(failed.is_done());
    assert!(matches!(failed.advance(ScanEvent::Page(page(&["late"]))), Scanned::Done));
}

#[test]
fn errors_name_their_stage() {
    assert_eq!(
        StoreError::Connection("refused".to_string()).describe(),
        "connection failed: refused"
    );
    assert_eq!(
        StoreError::BatchOperation("timeout".to_string()).describe(),
        "batch operation failed: timeout"
    );
    assert_eq!(StoreError::Connection("refused".to_string()).message(), "refused");
    assert_eq!(StoreError::BatchOperation("timeout".to_string()).message(), "timeout");
}
