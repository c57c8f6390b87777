//! Behaviour of the in-memory aggregate store and the ingestor.

use readtrack::identity::{ClientId, Identifier};
use readtrack::store::{
    MergeDecision, ReadStore, DAILY_CAP_SECONDS, MERGE_WINDOW_SECONDS, SECONDS_PER_DAY,
};

fn client(n: u128) -> Identifier {
    Identifier::Known(ClientId(n))
}

#[test]
fn merge_within_window_scenario() {
    // One client reads edition 5: 10 s at t=0, 5 s ten minutes later
    // (inside the 30-minute window), 5 s forty minutes after that.
    let a = client(0xA);
    let mut store = ReadStore::new();

    store.record_read_times(a, 5, &vec![10], 0);
    assert_eq!(store.row_count(), 1);
    let row = store.row_at(0);
    assert_eq!(row.page_number, 0);
    assert_eq!(row.read_time, 10);
    assert_eq!(row.timestamp, 0);
    assert_eq!(row.edition_id, 5);

    store.record_read_times(a, 5, &vec![5], 600);
    assert_eq!(store.row_count(), 1);
    let row = store.row_at(0);
    assert_eq!(row.read_time, 15);
    assert_eq!(row.timestamp, 600);

    store.record_read_times(a, 5, &vec![5], 2400);
    assert_eq!(store.row_count(), 2);
    assert_eq!(store.row_at(0).read_time, 15);
    let second = store.row_at(1);
    assert_eq!(second.read_time, 5);
    assert_eq!(second.timestamp, 2400);
}

#[test]
fn zero_first_page_creates_no_row() {
    // A two-page edition with deltas [0, 3]: only page 1 gets a row.
    let b = client(0xB);
    let mut store = ReadStore::new();
    store.record_read_times(b, 7, &vec![0, 3], 50);
    assert_eq!(store.row_count(), 1);
    let row = store.row_at(0);
    assert_eq!(row.page_number, 1);
    assert_eq!(row.read_time, 3);
}

#[test]
fn zero_deltas_are_noops() {
    let a = client(1);
    let mut store = ReadStore::new();
    store.record_read_times(a, 1, &vec![0, 0, 0], 0);
    assert_eq!(store.row_count(), 0);
    store.record_read_times(a, 1, &vec![4], 10);
    store.record_read_times(a, 1, &vec![0], 20);
    assert_eq!(store.row_count(), 1);
    let row = store.row_at(0);
    assert_eq!(row.read_time, 4);
    assert_eq!(row.timestamp, 10);
}

#[test]
fn cap_blocks_once_reached() {
    let a = client(2);
    let mut store = ReadStore::new();
    store.record_read_times(a, 1, &vec![DAILY_CAP_SECONDS], 0);
    assert_eq!(store.row_count(), 1);
    assert_eq!(store.row_at(0).read_time, DAILY_CAP_SECONDS);

    // The trailing-24h sum now equals the cap: nothing changes.
    store.record_read_times(a, 1, &vec![7], 100);
    assert_eq!(store.row_count(), 1);
    assert_eq!(store.row_at(0).read_time, DAILY_CAP_SECONDS);
    assert_eq!(store.row_at(0).timestamp, 0);
}

#[test]
fn cap_resets_after_a_day() {
    let a = client(3);
    let mut store = ReadStore::new();
    store.record_read_times(a, 1, &vec![DAILY_CAP_SECONDS], 0);
    // A day and a bit later the old row has left the trailing window, and
    // the merge window has long passed: a fresh row is created.
    store.record_read_times(a, 1, &vec![7], SECONDS_PER_DAY + 100);
    assert_eq!(store.row_count(), 2);
    assert_eq!(store.row_at(1).read_time, 7);
}

#[test]
fn cap_does_not_clip_the_last_delta() {
    let a = client(4);
    let mut store = ReadStore::new();
    store.record_read_times(a, 1, &vec![DAILY_CAP_SECONDS - 1], 0);
    // Still under the cap, so this delta is accepted in full and the sum
    // overshoots the cap by almost one delta.
    store.record_read_times(a, 1, &vec![50], 60);
    assert_eq!(store.row_count(), 1);
    assert_eq!(store.row_at(0).read_time, DAILY_CAP_SECONDS - 1 + 50);
    // From here on the key is exhausted for the day.
    store.record_read_times(a, 1, &vec![1], 120);
    assert_eq!(store.row_at(0).read_time, DAILY_CAP_SECONDS - 1 + 50);
}

#[test]
fn different_identifiers_never_share_a_row() {
    let a = client(10);
    let b = client(11);
    let mut store = ReadStore::new();
    store.record_read_times(a, 9, &vec![4], 10);
    store.record_read_times(b, 9, &vec![4], 10);
    assert_eq!(store.row_count(), 2);
    let first = store.row_at(0);
    let second = store.row_at(1);
    assert_eq!(first.read_time, 4);
    assert_eq!(second.read_time, 4);
    assert_ne!(first.client, second.client);
    assert_ne!(first.id, second.id);
}

#[test]
fn anonymous_clients_aggregate_together() {
    let mut store = ReadStore::new();
    store.record_read_times(Identifier::Anonymous, 2, &vec![3], 0);
    store.record_read_times(Identifier::Anonymous, 2, &vec![5], 30);
    assert_eq!(store.row_count(), 1);
    assert_eq!(store.row_at(0).read_time, 8);
}

#[test]
fn gap_of_exactly_the_window_starts_a_new_session() {
    let a = client(12);
    let mut store = ReadStore::new();
    store.record_read_times(a, 1, &vec![5], 0);
    store.record_read_times(a, 1, &vec![5], MERGE_WINDOW_SECONDS);
    assert_eq!(store.row_count(), 2);

    let mut close = ReadStore::new();
    close.record_read_times(a, 1, &vec![5], 0);
    close.record_read_times(a, 1, &vec![5], MERGE_WINDOW_SECONDS - 1);
    assert_eq!(close.row_count(), 1);
    assert_eq!(close.row_at(0).read_time, 10);
}

#[test]
fn one_huge_delta_exhausts_the_key() {
    let a = client(13);
    let mut store = ReadStore::new();
    store.record_read_times(a, 1, &vec![u64::MAX], 0);
    assert_eq!(store.row_count(), 1);
    assert_eq!(store.row_at(0).read_time, u64::MAX);
    let mut other = ReadStore::new();
    other.record_read_times(a, 1, &vec![u64::MAX], 0);
    other.record_read_times(a, 1, &vec![0], 1);
    assert_eq!(other.row_count(), 1);
}

#[test]
fn pages_are_independent_keys() {
    let a = client(14);
    let mut store = ReadStore::new();
    store.record_read_times(a, 3, &vec![2, 4, 6], 0);
    assert_eq!(store.row_count(), 3);
    for page in 0..3 {
        let row = store.row_at(page);
        assert_eq!(row.page_number, page);
        assert_eq!(row.read_time, 2 * (page as u64 + 1));
    }
    store.record_read_times(a, 3, &vec![1, 1, 1], 60);
    assert_eq!(store.row_count(), 3);
    assert_eq!(store.row_at(0).read_time, 3);
    assert_eq!(store.row_at(1).read_time, 5);
    assert_eq!(store.row_at(2).read_time, 7);
}

#[test]
fn editions_are_independent_keys() {
    let a = client(15);
    let mut store = ReadStore::new();
    store.record_read_times(a, 1, &vec![5], 0);
    store.record_read_times(a, 2, &vec![5], 10);
    assert_eq!(store.row_count(), 2);
}

#[test]
fn store_operations_directly() {
    let a = client(20);
    let mut store = ReadStore::new();
    let id0 = store.insert(a, 1, 0, 9, 100);
    let id1 = store.insert(a, 1, 1, 2, 100);
    assert_eq!(id0, 0);
    assert_eq!(id1, 1);
    assert_eq!(store.row_count(), 2);

    // Sums are keyed and bounded by the timestamp range.
    assert_eq!(store.sum_since(a, 1, 0, 0, 200), 9);
    assert_eq!(store.sum_since(a, 1, 1, 0, 200), 2);
    assert_eq!(store.sum_since(a, 1, 0, 101, 200), 0);
    assert_eq!(store.sum_since(a, 1, 0, 0, 99), 0);

    // The cap consults the trailing day only.
    assert!(store.permits(a, 1, 0, 150));
    assert!(store.permits(a, 1, 2, 150));

    // Updating an existing row overwrites accumulator and timestamp;
    // updating an unknown id changes nothing.
    assert!(store.update(id0, 11, 130));
    let row = store.row_at(0);
    assert_eq!(row.read_time, 11);
    assert_eq!(row.timestamp, 130);
    assert!(!store.update(77, 1, 1));
    assert_eq!(store.row_at(0).read_time, 11);
    assert_eq!(store.row_at(1).read_time, 2);
}

#[test]
fn resolve_picks_the_most_recent_row_in_window() {
    let a = client(21);
    let mut store = ReadStore::new();
    store.insert(a, 1, 0, 1, 1000);
    store.insert(a, 1, 0, 2, 2000);
    store.insert(a, 1, 0, 3, 1500);
    match store.resolve(a, 1, 0, 2500) {
        MergeDecision::MergeInto(row) => {
            assert_eq!(row.timestamp, 2000);
            assert_eq!(row.read_time, 2);
        }
        MergeDecision::CreateNew => panic!("expected a merge target"),
    }
    // Far past the window nothing qualifies.
    match store.resolve(a, 1, 0, 2000 + MERGE_WINDOW_SECONDS) {
        MergeDecision::MergeInto(_) => panic!("expected no merge target"),
        MergeDecision::CreateNew => {}
    }
    // A different client sees no row either.
    match store.resolve(client(22), 1, 0, 2500) {
        MergeDecision::MergeInto(_) => panic!("expected no merge target"),
        MergeDecision::CreateNew => {}
    }
}

#[test]
fn find_latest_within_bounds() {
    let a = client(23);
    let mut store = ReadStore::new();
    store.insert(a, 1, 0, 1, 500);
    // Window is exclusive at its lower edge: a row stamped exactly
    // `now - window` does not qualify.
    assert!(store.find_latest_within(a, 1, 0, 500 + 100, 100).is_none());
    assert!(store.find_latest_within(a, 1, 0, 500 + 99, 100).is_some());
}

#[test]
fn record_read_times_now_runs() {
    let a = client(30);
    let mut store = ReadStore::new();
    store.record_read_times_now(a, 1, &vec![3]);
    assert_eq!(store.row_count(), 1);
    assert_eq!(store.row_at(0).read_time, 3);
}
