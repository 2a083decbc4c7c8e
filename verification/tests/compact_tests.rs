use chrono::TimeZone;
use zinc_core::codec::{decompress_manifest, encode_manifest};
use zinc_core::compact::{
    hour_floor, plan_run, resolve_offset, should_compact, streams_ready, MergeAction, MergeJob,
    MergeOutcome, RunPlan, HOUR_MICROS,
};
use zinc_core::record::FileKey;

fn ts(y: i32, mo: u32, d: u32, h: u32, mi: u32) -> i64 {
    chrono::Utc
        .with_ymd_and_hms(y, mo, d, h, mi, 0)
        .unwrap()
        .timestamp_micros()
}

fn rec(key: &str, deleted: bool) -> FileKey {
    let line = format!("{{\"key\":\"{}\",\"deleted\":{}}}", key, deleted).into_bytes();
    FileKey::parse(line).expect("record must parse")
}

fn keys_of(obj: &Vec<u8>) -> Vec<Vec<u8>> {
    zinc_core::codec::decode_manifest(obj)
        .expect("manifest must decode")
        .iter()
        .map(|r| r.key.clone())
        .collect()
}

#[test]
fn hour_floor_quantizes_to_utc_hour() {
    let t = ts(2024, 1, 15, 3, 42);
    assert_eq!(hour_floor(t), ts(2024, 1, 15, 3, 0));
    assert_eq!(hour_floor(ts(2024, 1, 15, 3, 0)), ts(2024, 1, 15, 3, 0));
    assert_eq!(hour_floor(0), 0);
}

#[test]
fn offset_never_decreases() {
    // The next global offset is one hour past the merged hour, at or above
    // the offset the run started from.
    for t in [1i64, ts(2024, 1, 15, 3, 42), ts(2024, 1, 15, 3, 0)] {
        assert!(hour_floor(t) + HOUR_MICROS >= t);
    }
}

#[test]
fn resolve_offset_takes_earliest_created() {
    let created = vec![ts(2024, 1, 10, 0, 0), ts(2024, 1, 9, 5, 0)];
    let now = ts(2024, 1, 15, 3, 0);
    assert_eq!(resolve_offset(0, now, &created), ts(2024, 1, 9, 5, 0));
    assert_eq!(resolve_offset(7, now, &created), 7);
    assert_eq!(resolve_offset(0, now, &vec![]), now);
}

#[test]
fn progress_gating() {
    let offset = ts(2024, 1, 15, 3, 0);
    // Caught up: offsets one hour past the caller's offset.
    assert!(streams_ready(offset, &vec![offset + HOUR_MICROS]));
    // Not caught up: an offset lagging half an hour behind.
    assert!(!streams_ready(offset, &vec![offset + HOUR_MICROS / 2]));
    // No streams at all: nothing to do.
    assert!(!streams_ready(offset, &vec![]));
}

#[test]
fn per_stream_not_caught_up_skips() {
    let offset = ts(2024, 1, 15, 3, 0);
    // The per-stream offset lags the caller's offset by half an hour: the
    // run returns without writing anything.
    let per_stream = offset - HOUR_MICROS / 2;
    let plan = plan_run(offset, ts(2024, 1, 15, 6, 0), &vec![], &vec![per_stream]);
    assert_eq!(plan, RunPlan::Skip);
}

#[test]
fn test_compact() {
    // A per-stream offset two hours in, a caller offset of one hour: the
    // stream has passed the hour, so the run merges it.
    let per_stream = 2 * HOUR_MICROS;
    let caller = HOUR_MICROS;
    let plan = plan_run(caller, 6 * HOUR_MICROS, &vec![], &vec![per_stream]);
    assert_eq!(plan, RunPlan::MergeHour { hour: HOUR_MICROS });
}

#[test]
fn two_file_merge_without_tombstones() {
    let hour = ts(2024, 1, 15, 3, 0);
    let mut job = MergeJob::new(true, hour, "abc123".to_string());
    assert_eq!(job.prefix(), "file_list/2024/01/15/03/");
    assert_eq!(job.lock_key(), "compactor/file_list");

    assert_eq!(job.begin(), MergeAction::AcquireLock);
    assert_eq!(job.on_lock(true), MergeAction::List);
    let names = vec![
        "file_list/2024/01/15/03/one.json.zst".to_string(),
        "file_list/2024/01/15/03/two.json.zst".to_string(),
    ];
    assert_eq!(job.on_listed(names.clone()), MergeAction::Fetch);
    assert_eq!(job.names, names);

    let one = encode_manifest(&vec![rec("a", false)]).unwrap();
    let two = encode_manifest(&vec![rec("b", false)]).unwrap();
    assert_eq!(job.on_fetched(vec![one, two]), MergeAction::Put);
    assert_eq!(job.output_name, "file_list/2024/01/15/03/abc123.json.zst");
    assert_eq!(keys_of(&job.output_data), vec![b"a".to_vec(), b"b".to_vec()]);

    assert_eq!(job.on_put(true), MergeAction::Delete);
    assert_eq!(job.on_cleaned(), MergeAction::Unlock);
    assert_eq!(job.on_unlocked(), MergeAction::Finish);
    assert_eq!(job.outcome, MergeOutcome::Published);
    // Offset advances to 04:00Z, one hour past the merged hour.
    assert_eq!(job.next_offset(), Some(ts(2024, 1, 15, 4, 0)));
}

#[test]
fn tombstone_wins_regardless_of_order() {
    let hour = ts(2024, 1, 15, 3, 0);
    let live = encode_manifest(&vec![rec("a", false)]).unwrap();
    let dead = encode_manifest(&vec![rec("a", true)]).unwrap();
    for inputs in [
        vec![live.clone(), dead.clone()],
        vec![dead.clone(), live.clone()],
    ] {
        let mut job = MergeJob::new(false, hour, "id1".to_string());
        assert_eq!(job.begin(), MergeAction::List);
        let names = vec!["x".to_string(), "y".to_string()];
        assert_eq!(job.on_listed(names), MergeAction::Fetch);
        assert_eq!(job.on_fetched(inputs), MergeAction::Put);
        // No record lines survive: the output payload is empty.
        assert_eq!(decompress_manifest(&job.output_data).unwrap(), Vec::<u8>::new());
    }
}

#[test]
fn single_input_short_circuits() {
    let hour = ts(2024, 1, 15, 3, 0);
    let mut job = MergeJob::new(true, hour, "id2".to_string());
    assert_eq!(job.begin(), MergeAction::AcquireLock);
    assert_eq!(job.on_lock(true), MergeAction::List);
    // One object at most: release the lock, publish nothing.
    assert_eq!(
        job.on_listed(vec!["only.json.zst".to_string()]),
        MergeAction::Unlock
    );
    assert_eq!(job.on_unlocked(), MergeAction::Finish);
    assert_eq!(job.outcome, MergeOutcome::SkippedFew);
    // The offset does not advance.
    assert_eq!(job.next_offset(), None);
}

#[test]
fn lock_timeout_skips_silently() {
    let hour = ts(2024, 1, 15, 3, 0);
    let mut job = MergeJob::new(true, hour, "id3".to_string());
    assert_eq!(job.begin(), MergeAction::AcquireLock);
    assert_eq!(job.on_lock(false), MergeAction::Finish);
    assert_eq!(job.outcome, MergeOutcome::SkippedLock);
    assert_eq!(job.next_offset(), None);
}

#[test]
fn upload_failure_keeps_inputs() {
    let hour = ts(2024, 1, 15, 3, 0);
    let mut job = MergeJob::new(false, hour, "id4".to_string());
    job.begin();
    job.on_listed(vec!["x".to_string(), "y".to_string()]);
    let one = encode_manifest(&vec![rec("a", false)]).unwrap();
    let two = encode_manifest(&vec![rec("b", false)]).unwrap();
    assert_eq!(job.on_fetched(vec![one, two]), MergeAction::Put);
    // The upload failed: no delete, no advance; the next run retries.
    assert_eq!(job.on_put(false), MergeAction::Finish);
    assert_eq!(job.outcome, MergeOutcome::SkippedUpload);
    assert_eq!(job.next_offset(), None);
}

#[test]
fn decode_failure_fails_the_pass() {
    let hour = ts(2024, 1, 15, 3, 0);
    let mut job = MergeJob::new(true, hour, "id5".to_string());
    job.begin();
    job.on_lock(true);
    job.on_listed(vec!["x".to_string(), "y".to_string()]);
    // Corrupt input: the pass fails but the lock is still released.
    assert_eq!(
        job.on_fetched(vec![b"garbage".to_vec(), b"junk".to_vec()]),
        MergeAction::Unlock
    );
    assert_eq!(job.on_unlocked(), MergeAction::Finish);
    assert_eq!(job.outcome, MergeOutcome::Failed);
    assert_eq!(job.next_offset(), None);
}

#[test]
fn scheduler_gating() {
    assert!(should_compact(true, true));
    assert!(!should_compact(false, true));
    assert!(!should_compact(true, false));
}
