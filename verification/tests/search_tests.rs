use zinc_core::search::{
    filter_wal_files, logical_path, search, wal_pattern, EchoExecutor, Indicator, MatchAll,
    PrefixMatcher, SearchError, Searching, WalFile,
};
use zinc_core::stream::StreamType;

fn wal(rel: &str, size: u64) -> WalFile {
    WalFile { rel_path: rel.to_string(), size }
}

#[test]
fn logical_path_rebuilds_name_component() {
    assert_eq!(
        logical_path("files/org1/logs/web/2024_01_15_03_abc.json"),
        "files/org1/logs/web/2024/01/15/03/abc.json"
    );
    // Only the name component is rewritten.
    assert_eq!(logical_path("a_b/c_d.json"), "a_b/c/d.json");
    // Without a separator the name stands alone under the root.
    assert_eq!(logical_path("a_b.json"), "/a/b.json");
    // Host separators are normalised to forward slashes.
    assert_eq!(logical_path("org\\logs/web_x.json"), "org/logs/web/x.json");
}

#[test]
fn wal_pattern_matches_layout() {
    assert_eq!(
        wal_pattern("./data/wal", "org1", StreamType::Logs, "web"),
        "./data/wal/files/org1/logs/web/*.json"
    );
    assert_eq!(
        wal_pattern("/wal", "o", StreamType::Filelist, "s"),
        "/wal/files/o/file_list/s/*.json"
    );
}

#[test]
fn indicator_counts_searches() {
    let mut ind = Indicator::new();
    assert!(!ind.is_searching());
    let a = Searching::new(&mut ind);
    let b = Searching::new(&mut ind);
    assert_eq!(ind.count, 2);
    assert!(ind.is_searching());
    a.release(&mut ind);
    assert_eq!(ind.count, 1);
    b.release(&mut ind);
    assert!(!ind.is_searching());
}

#[test]
fn filter_keeps_matching_files() {
    let files = vec![
        wal("files/org1/logs/web/2024_01_15_03_abc.json", 10),
        wal("files/org1/logs/api/2024_01_15_03_def.json", 20),
    ];
    let sql = PrefixMatcher { prefix: "files/org1/logs/web/".to_string() };
    let (kept, size) =
        filter_wal_files(&sql, &"./data/wal/".to_string(), &files).expect("no overflow");
    assert_eq!(kept, vec![
        "./data/wal/files/org1/logs/web/2024_01_15_03_abc.json".to_string()
    ]);
    assert_eq!(size, 10);
}

#[test]
fn cache_search_with_wal_hit() {
    let mut ind = Indicator::new();
    let mut exec = EchoExecutor::new(false);
    let files = vec![wal("files/org1/logs/web/2024_01_15_03_abc.json", 42)];
    let r = search(
        &mut ind,
        &"session-1".to_string(),
        &MatchAll {},
        StreamType::Logs,
        &"./data/wal/".to_string(),
        &files,
        &mut exec,
    )
    .expect("search must succeed");
    let (out, count, size) = r;
    assert_eq!(count, 1);
    assert_eq!(size, 42);
    // The executor received the single full absolute path: the echo
    // executor returns exactly the list it was invoked with.
    assert_eq!(
        out,
        Some(vec!["./data/wal/files/org1/logs/web/2024_01_15_03_abc.json".to_string()])
    );
    // The indicator is back to zero after the call.
    assert_eq!(ind.count, 0);
}

#[test]
fn cache_search_with_no_wal_files() {
    let mut ind = Indicator::new();
    // An executor that would fail when invoked: the empty search must
    // return without consulting it.
    let mut exec = EchoExecutor::new(true);
    let r = search(
        &mut ind,
        &"session-2".to_string(),
        &MatchAll {},
        StreamType::Logs,
        &"./data/wal/".to_string(),
        &Vec::new(),
        &mut exec,
    )
    .expect("an empty search succeeds");
    assert_eq!(r, (None, 0, 0));
    assert_eq!(ind.count, 0);
}

#[test]
fn cache_search_with_no_match() {
    let mut ind = Indicator::new();
    // Again a failing executor: a matchless search never invokes it.
    let mut exec = EchoExecutor::new(true);
    let files = vec![wal("files/org1/logs/web/x.json", 7)];
    let sql = PrefixMatcher { prefix: "files/other/".to_string() };
    let r = search(
        &mut ind,
        &"session-3".to_string(),
        &sql,
        StreamType::Logs,
        &"./data/wal/".to_string(),
        &files,
        &mut exec,
    )
    .expect("a matchless search succeeds");
    assert_eq!(r, (None, 0, 0));
    assert_eq!(ind.count, 0);
}

#[test]
fn executor_error_still_lowers_indicator() {
    let mut ind = Indicator::new();
    let mut exec = EchoExecutor::new(true);
    let files = vec![wal("files/org1/logs/web/x.json", 7)];
    let r = search(
        &mut ind,
        &"session-4".to_string(),
        &MatchAll {},
        StreamType::Logs,
        &"./data/wal/".to_string(),
        &files,
        &mut exec,
    );
    assert_eq!(r, Err(SearchError::Executor));
    assert_eq!(ind.count, 0);
}

#[test]
fn size_overflow_is_reported() {
    let mut ind = Indicator::new();
    let mut exec = EchoExecutor::new(false);
    let files = vec![wal("a.json", u64::MAX), wal("b.json", 1)];
    let r = search(
        &mut ind,
        &"session-5".to_string(),
        &MatchAll {},
        StreamType::Logs,
        &"./data/wal/".to_string(),
        &files,
        &mut exec,
    );
    assert_eq!(r, Err(SearchError::SizeOverflow));
    assert_eq!(ind.count, 0);
}

#[test]
fn stream_type_labels() {
    assert_eq!(StreamType::from_label("logs"), StreamType::Logs);
    assert_eq!(StreamType::from_label("LOGS"), StreamType::Logs);
    assert_eq!(StreamType::from_label("Metrics"), StreamType::Metrics);
    assert_eq!(StreamType::from_label("traces"), StreamType::Traces);
    assert_eq!(StreamType::from_label("metadata"), StreamType::Metadata);
    assert_eq!(StreamType::from_label("file_list"), StreamType::Filelist);
    assert_eq!(StreamType::from_label("anything else"), StreamType::Logs);
    assert_eq!(StreamType::Metrics.label(), "metrics");
    assert_eq!(StreamType::default(), StreamType::Logs);
}
