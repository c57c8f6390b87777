//! The in-memory aggregate store and the decision logic that writes to it.
//!
//! One `ReadRow` sums the reading duration that one client reported for one
//! page of one edition within one reading session. Sessions are delimited by
//! the merge window: a delta arriving within the window of a row's last
//! update is merged into that row, a delta arriving later starts a new row.
//! A rolling daily cap bounds the read time credited per key.
//!
//! The store is accessed through an exclusive reference, so the find-then-
//! write sequence of a submission cannot interleave with another writer; the
//! per-key read-modify-write is serialized by construction.

use vstd::prelude::*;

use crate::identity::Identifier;

verus! {

/// Editions are identified by a small integer id.
pub type EditionId = i32;

/// The merge window, in seconds: the greatest gap between consecutive deltas
/// for one key that still coalesces them into one session row (30 minutes).
pub const MERGE_WINDOW_SECONDS: u64 = 1800;

/// The rolling daily cap, in seconds: the greatest read time credited per
/// page per client within 24 hours (3 minutes). The cap and the `read_time`
/// accumulator deliberately share the seconds unit.
pub const DAILY_CAP_SECONDS: u64 = 180;

/// The length of the rolling cap interval, in seconds.
pub const SECONDS_PER_DAY: u64 = 86400;

/// One persisted aggregate row: accumulated read time for a key
/// `(client, edition_id, page_number)`, last updated at `timestamp`.
/// Read time and timestamps are counted in whole seconds; timestamps are
/// seconds of UTC time.
#[derive(Clone, Copy, PartialEq, Eq, Structural, Debug)]
pub struct ReadRow {
    pub id: u64,
    pub client: Identifier,
    pub edition_id: EditionId,
    pub page_number: usize,
    pub read_time: u64,
    pub timestamp: u64,
}

/// The mathematical image of one row: the same fields over unbounded
/// integers.
pub struct RowModel {
    pub id: int,
    pub client: Identifier,
    pub edition_id: int,
    pub page_number: int,
    pub read_time: int,
    pub timestamp: int,
}

impl View for ReadRow {
    type V = RowModel;

    open spec fn view(&self) -> RowModel {
        RowModel {
            id: self.id as int,
            client: self.client,
            edition_id: self.edition_id as int,
            page_number: self.page_number as int,
            read_time: self.read_time as int,
            timestamp: self.timestamp as int,
        }
    }
}

/// The mathematical image of the whole store: the sequence of rows in
/// insertion order, and the id the next inserted row will get.
#[verifier::ext_equal]
pub struct StoreModel {
    pub rows: Seq<RowModel>,
    pub next_id: int,
}

/// The row `r` with its accumulator and timestamp replaced, as the store's
/// `update` operation leaves it.
pub open spec fn replaced_row(r: RowModel, read_time: int, timestamp: int) -> RowModel {
    RowModel { read_time, timestamp, ..r }
}

/// Every row's fields fit the machine integers of the running store.
pub open spec fn valid_rows(rows: Seq<RowModel>) -> bool {
    forall|i: int| 0 <= i < rows.len() ==> (#[trigger] rows[i]).valid()
}

/// The trailing-24-hour read-time sum for a key: the sum over the key's rows
/// whose timestamp lies in `[now - 24h, now]`.
pub open spec fn day_sum(
    rows: Seq<RowModel>,
    client: Identifier,
    edition_id: int,
    page_number: int,
    now: int,
) -> int {
    range_sum(rows, client, edition_id, page_number, now - (SECONDS_PER_DAY as int), now)
}

/// Does the daily cap still admit a delta for the key at `now`? The delta
/// itself is not consulted: the cap does not clip, so one accepted delta may
/// push the trailing sum past the cap by its own size.
pub open spec fn cap_allows(
    rows: Seq<RowModel>,
    client: Identifier,
    edition_id: int,
    page_number: int,
    now: int,
) -> bool {
    day_sum(rows, client, edition_id, page_number, now) < DAILY_CAP_SECONDS as int
}

/// The row a freshly inserted aggregate starts from.
pub open spec fn made_row(
    id: int,
    client: Identifier,
    edition_id: int,
    page_number: int,
    read_time: int,
    timestamp: int,
) -> RowModel {
    RowModel { id, client, edition_id, page_number, read_time, timestamp }
}

/// The row `r` after an accepted delta was merged into it at `now`.
pub open spec fn merged_row(r: RowModel, delta: int, now: int) -> RowModel {
    RowModel { read_time: r.read_time + delta, timestamp: now, ..r }
}

/// Does row `r` belong to the key `(client, edition_id, page_number)`?
pub open spec fn row_key_matches(
    r: RowModel,
    client: Identifier,
    edition_id: int,
    page_number: int,
) -> bool {
    r.client == client && r.edition_id == edition_id && r.page_number == page_number
}

/// Was row `r` last updated strictly later than `now - window`?
pub open spec fn row_in_window(r: RowModel, now: int, window: int) -> bool {
    r.timestamp + window > now
}

/// Sum of `read_time` over the rows of the key whose timestamp lies in the
/// closed interval `[since, upto]`.
pub open spec fn range_sum(
    rows: Seq<RowModel>,
    client: Identifier,
    edition_id: int,
    page_number: int,
    since: int,
    upto: int,
) -> int
    decreases rows.len(),
{
    if rows.len() == 0 {
        0
    } else {
        range_sum(rows.drop_last(), client, edition_id, page_number, since, upto) + {
            let r = rows.last();
            if row_key_matches(r, client, edition_id, page_number) && since <= r.timestamp
                && r.timestamp <= upto {
                r.read_time
            } else {
                0
            }
        }
    }
}

/// Sum of `read_time` over all rows, whatever their key.
pub open spec fn total_time(rows: Seq<RowModel>) -> int
    decreases rows.len(),
{
    if rows.len() == 0 {
        0
    } else {
        total_time(rows.drop_last()) + rows.last().read_time
    }
}

/// The index of the row an incoming delta for the key would merge into: the
/// first row of the key carrying the greatest timestamp still inside the
/// window, or `None` if the key has no row inside the window.
pub open spec fn merge_target(
    rows: Seq<RowModel>,
    client: Identifier,
    edition_id: int,
    page_number: int,
    now: int,
    window: int,
) -> Option<int>
    decreases rows.len(),
{
    if rows.len() == 0 {
        None
    } else {
        let i = rows.len() - 1;
        let prev = merge_target(rows.drop_last(), client, edition_id, page_number, now, window);
        if row_key_matches(rows[i], client, edition_id, page_number) && row_in_window(
            rows[i],
            now,
            window,
        ) {
            match prev {
                None => Some(i),
                Some(j) => if rows[i].timestamp > rows[j].timestamp {
                    Some(i)
                } else {
                    Some(j)
                },
            }
        } else {
            prev
        }
    }
}

impl StoreModel {
    /// Row ids are unique and below the id counter, and every field fits the
    /// machine integer that holds it in the running store.
    pub open spec fn wf(self) -> bool {
        &&& forall|i: int|
            0 <= i < self.rows.len() ==> (#[trigger] self.rows[i]).id < self.next_id
        &&& forall|i: int, j: int|
            0 <= i < j < self.rows.len() ==> self.rows[i].id != self.rows[j].id
        &&& forall|i: int| 0 <= i < self.rows.len() ==> (#[trigger] self.rows[i]).valid()
        &&& 0 <= self.next_id <= u64::MAX
    }
}

impl RowModel {
    /// Every field fits the machine integer that holds it in the running
    /// store.
    pub open spec fn valid(self) -> bool {
        &&& 0 <= self.id <= u64::MAX
        &&& i32::MIN <= self.edition_id <= i32::MAX
        &&& 0 <= self.page_number <= usize::MAX
        &&& 0 <= self.read_time <= u64::MAX
        &&& 0 <= self.timestamp <= u64::MAX
    }
}

/// Appending one element relates `take(i + 1)` to `take(i)`.
pub proof fn lemma_take_succ(rows: Seq<RowModel>, i: int)
    requires
        0 <= i < rows.len(),
    ensures
        rows.take(i + 1).drop_last() =~= rows.take(i),
        rows.take(i + 1).last() == rows[i],
        rows.take(i + 1).len() == i + 1,
{
}

/// Validity restricts to prefixes.
pub proof fn lemma_valid_rows_take(rows: Seq<RowModel>, k: int)
    requires
        valid_rows(rows),
        0 <= k <= rows.len(),
    ensures
        valid_rows(rows.take(k)),
{
    assert forall|j: int| 0 <= j < rows.take(k).len() implies (#[trigger] rows.take(
        k,
    )[j]).valid() by {
        assert(rows.take(k)[j] == rows[j]);
    }
}

/// The total over valid rows is non-negative.
pub proof fn lemma_total_time_nonneg(rows: Seq<RowModel>)
    requires
        valid_rows(rows),
    ensures
        total_time(rows) >= 0,
    decreases rows.len(),
{
    if rows.len() > 0 {
        assert forall|j: int| 0 <= j < rows.drop_last().len() implies (#[trigger] rows.drop_last()[j]).valid() by {
            assert(rows.drop_last()[j] == rows[j]);
        }
        lemma_total_time_nonneg(rows.drop_last());
        assert(rows.last() == rows[rows.len() - 1]);
    }
}

/// The total over a prefix of valid rows is at most the total over all rows.
pub proof fn lemma_total_time_take_le(rows: Seq<RowModel>, k: int)
    requires
        valid_rows(rows),
        0 <= k <= rows.len(),
    ensures
        total_time(rows.take(k)) <= total_time(rows),
    decreases rows.len(),
{
    if k == rows.len() {
        assert(rows.take(k) =~= rows);
    } else {
        assert forall|j: int| 0 <= j < rows.drop_last().len() implies (#[trigger] rows.drop_last()[j]).valid() by {
            assert(rows.drop_last()[j] == rows[j]);
        }
        lemma_total_time_take_le(rows.drop_last(), k);
        assert(rows.drop_last().take(k) =~= rows.take(k));
        assert(rows.last() == rows[rows.len() - 1]);
    }
}

/// A keyed range sum over valid rows is non-negative and bounded by the
/// total over all rows.
pub proof fn lemma_range_sum_le_total(
    rows: Seq<RowModel>,
    client: Identifier,
    edition_id: int,
    page_number: int,
    since: int,
    upto: int,
)
    requires
        valid_rows(rows),
    ensures
        0 <= range_sum(rows, client, edition_id, page_number, since, upto),
        range_sum(rows, client, edition_id, page_number, since, upto) <= total_time(rows),
    decreases rows.len(),
{
    if rows.len() > 0 {
        assert forall|j: int| 0 <= j < rows.drop_last().len() implies (#[trigger] rows.drop_last()[j]).valid() by {
            assert(rows.drop_last()[j] == rows[j]);
        }
        lemma_range_sum_le_total(rows.drop_last(), client, edition_id, page_number, since, upto);
        assert(rows.last() == rows[rows.len() - 1]);
    }
}

/// With all timestamps non-negative, any non-positive lower bound gives the
/// same range sum.
pub proof fn lemma_range_sum_nonpos_since(
    rows: Seq<RowModel>,
    client: Identifier,
    edition_id: int,
    page_number: int,
    since1: int,
    since2: int,
    upto: int,
)
    requires
        valid_rows(rows),
        since1 <= 0,
        since2 <= 0,
    ensures
        range_sum(rows, client, edition_id, page_number, since1, upto) == range_sum(
            rows,
            client,
            edition_id,
            page_number,
            since2,
            upto,
        ),
    decreases rows.len(),
{
    if rows.len() > 0 {
        assert forall|j: int| 0 <= j < rows.drop_last().len() implies (#[trigger] rows.drop_last()[j]).valid() by {
            assert(rows.drop_last()[j] == rows[j]);
        }
        lemma_range_sum_nonpos_since(
            rows.drop_last(),
            client,
            edition_id,
            page_number,
            since1,
            since2,
            upto,
        );
        assert(rows.last() == rows[rows.len() - 1]);
    }
}

/// Updating one row changes the total by the difference of that row.
pub proof fn lemma_total_time_update(rows: Seq<RowModel>, i: int, r: RowModel)
    requires
        0 <= i < rows.len(),
    ensures
        total_time(rows.update(i, r)) == total_time(rows) - rows[i].read_time + r.read_time,
    decreases rows.len(),
{
    if i == rows.len() - 1 {
        assert(rows.update(i, r).drop_last() =~= rows.drop_last());
        assert(rows.update(i, r).last() == r);
    } else {
        assert(rows.update(i, r).drop_last() =~= rows.drop_last().update(i, r));
        assert(rows.update(i, r).last() == rows.last());
        lemma_total_time_update(rows.drop_last(), i, r);
        assert(rows.drop_last()[i] == rows[i]);
    }
}

/// Appending one row adds its accumulator to the total.
pub proof fn lemma_total_time_push(rows: Seq<RowModel>, r: RowModel)
    ensures
        total_time(rows.push(r)) == total_time(rows) + r.read_time,
{
    assert(rows.push(r).drop_last() =~= rows);
    assert(rows.push(r).last() == r);
}

/// One valid row's accumulator is at most the total over all valid rows.
pub proof fn lemma_row_le_total(rows: Seq<RowModel>, i: int)
    requires
        valid_rows(rows),
        0 <= i < rows.len(),
    ensures
        rows[i].read_time <= total_time(rows),
    decreases rows.len(),
{
    assert forall|j: int| 0 <= j < rows.drop_last().len() implies (#[trigger] rows.drop_last()[j]).valid() by {
        assert(rows.drop_last()[j] == rows[j]);
    }
    if i == rows.len() - 1 {
        lemma_total_time_nonneg(rows.drop_last());
        assert(rows.last() == rows[i]);
    } else {
        lemma_row_le_total(rows.drop_last(), i);
        assert(rows.drop_last()[i] == rows[i]);
        assert(rows.last() == rows[rows.len() - 1]);
    }
}

/// What the merge target is: a row of the key inside the window carrying the
/// greatest such timestamp, or nothing when the key has no row inside the
/// window.
pub proof fn lemma_merge_target_props(
    rows: Seq<RowModel>,
    client: Identifier,
    edition_id: int,
    page_number: int,
    now: int,
    window: int,
)
    ensures
        match merge_target(rows, client, edition_id, page_number, now, window) {
            Some(i) => 0 <= i < rows.len() && row_key_matches(rows[i], client, edition_id, page_number)
                && row_in_window(rows[i], now, window) && (forall|j: int|
                0 <= j < rows.len() && row_key_matches(
                    #[trigger] rows[j],
                    client,
                    edition_id,
                    page_number,
                ) && row_in_window(rows[j], now, window) ==> rows[j].timestamp <= rows[i].timestamp),
            None => forall|j: int|
                0 <= j < rows.len() ==> !(row_key_matches(
                    #[trigger] rows[j],
                    client,
                    edition_id,
                    page_number,
                ) && row_in_window(rows[j], now, window)),
        },
    decreases rows.len(),
{
    if rows.len() > 0 {
        lemma_merge_target_props(rows.drop_last(), client, edition_id, page_number, now, window);
        assert(rows.last() == rows[rows.len() - 1]);
        assert forall|j: int| 0 <= j < rows.drop_last().len() implies rows.drop_last()[j]
            == rows[j] by {}
    }
}

/// How the merge target grows from the prefix `take(i)` to `take(i + 1)`.
pub proof fn lemma_merge_target_step(
    rows: Seq<RowModel>,
    client: Identifier,
    edition_id: int,
    page_number: int,
    now: int,
    window: int,
    i: int,
)
    requires
        0 <= i < rows.len(),
    ensures
        ({
            let prev = merge_target(rows.take(i), client, edition_id, page_number, now, window);
            let cur = merge_target(rows.take(i + 1), client, edition_id, page_number, now, window);
            if row_key_matches(rows[i], client, edition_id, page_number) && row_in_window(
                rows[i],
                now,
                window,
            ) {
                match prev {
                    None => cur == Some(i),
                    Some(j) => 0 <= j < i && cur == (if rows[i].timestamp > rows[j].timestamp {
                        Some(i)
                    } else {
                        Some(j)
                    }),
                }
            } else {
                cur == prev
            }
        }),
{
    lemma_take_succ(rows, i);
    lemma_merge_target_props(rows.take(i), client, edition_id, page_number, now, window);
    assert(rows.take(i + 1).drop_last() == rows.take(i));
    assert(rows.take(i + 1)[i] == rows[i]);
    match merge_target(rows.take(i), client, edition_id, page_number, now, window) {
        Some(j) => {
            assert(rows.take(i)[j] == rows[j]);
            assert(rows.take(i + 1)[j] == rows[j]);
        },
        None => {},
    }
}

/// The in-memory aggregate store: a relational table of `ReadRow`s in
/// insertion order. Rows are never deleted; retention is an external
/// concern.
pub struct ReadStore {
    rows: Vec<ReadRow>,
    next_id: u64,
}

impl View for ReadStore {
    type V = StoreModel;

    closed spec fn view(&self) -> StoreModel {
        StoreModel { rows: self.rows@.map_values(|r: ReadRow| r@), next_id: self.next_id as int }
    }
}

impl ReadStore {
    /// An empty store.
    pub fn new() -> (s: ReadStore)
        ensures
            s@.rows.len() == 0,
            s@.next_id == 0,
            s@.wf(),
    {
        ReadStore { rows: Vec::new(), next_id: 0 }
    }

    /// How many rows the store holds.
    pub fn row_count(&self) -> (n: usize)
        ensures
            n == self@.rows.len(),
    {
        self.rows.len()
    }

    /// The row at position `i`, in insertion order.
    pub fn row_at(&self, i: usize) -> (r: ReadRow)
        requires
            i < self@.rows.len(),
        ensures
            r@ == self@.rows[i as int],
    {
        self.rows[i]
    }

    /// Create a new aggregate row for the key and return its id.
    pub fn insert(
        &mut self,
        client: Identifier,
        edition_id: EditionId,
        page_number: usize,
        read_time: u64,
        timestamp: u64,
    ) -> (id: u64)
        requires
            old(self)@.wf(),
            old(self)@.next_id < u64::MAX,
        ensures
            final(self)@.wf(),
            id as int == old(self)@.next_id,
            final(self)@.rows == old(self)@.rows.push(
                made_row(
                    old(self)@.next_id,
                    client,
                    edition_id as int,
                    page_number as int,
                    read_time as int,
                    timestamp as int,
                ),
            ),
            final(self)@.next_id == old(self)@.next_id + 1,
    {
        let id = self.next_id;
        let row = ReadRow { id, client, edition_id, page_number, read_time, timestamp };
        self.rows.push(row);
        self.next_id = self.next_id + 1;
        proof {
            assert(self@.rows =~= old(self)@.rows.push(row@));
        }
        id
    }

    /// Overwrite the accumulator and timestamp of the row with id `row_id`;
    /// report whether such a row exists. Without one the store is unchanged.
    pub fn update(&mut self, row_id: u64, new_read_time: u64, new_timestamp: u64) -> (found:
        bool)
        requires
            old(self)@.wf(),
        ensures
            final(self)@.wf(),
            final(self)@.next_id == old(self)@.next_id,
            found == (exists|i: int|
                0 <= i < old(self)@.rows.len() && (#[trigger] old(self)@.rows[i]).id
                    == row_id as int),
            forall|i: int|
                0 <= i < old(self)@.rows.len() && (#[trigger] old(self)@.rows[i]).id
                    == row_id as int ==> final(self)@.rows == old(self)@.rows.update(
                    i,
                    replaced_row(old(self)@.rows[i], new_read_time as int, new_timestamp as int),
                ),
            !found ==> final(self)@.rows == old(self)@.rows,
    {
        let n = self.rows.len();
        let mut j: usize = 0;
        while j < n
            invariant
                j <= n,
                n == self.rows.len(),
                self@ == old(self)@,
                old(self)@.wf(),
                forall|k: int| 0 <= k < j ==> (#[trigger] self@.rows[k]).id != row_id as int,
            decreases n - j,
        {
            proof {
                assert(self@.rows[j as int] == self.rows@[j as int]@);
            }
            if self.rows[j].id == row_id {
                let mut row = self.rows[j];
                row.read_time = new_read_time;
                row.timestamp = new_timestamp;
                self.rows[j] = row;
                proof {
                    assert(self@.rows =~= old(self)@.rows.update(
                        j as int,
                        replaced_row(
                            old(self)@.rows[j as int],
                            new_read_time as int,
                            new_timestamp as int,
                        ),
                    ));
                    assert forall|i: int|
                        0 <= i < old(self)@.rows.len() && (#[trigger] old(self)@.rows[i]).id
                            == row_id as int implies i == j as int by {}
                }
                return true;
            }
            j = j + 1;
        }
        false
    }

    /// The row of the key carrying the greatest timestamp still inside the
    /// window (stamped strictly later than `now - window`), if the key has
    /// one; rows sharing that greatest timestamp yield the earliest
    /// inserted of them.
    pub fn find_latest_within(
        &self,
        client: Identifier,
        edition_id: EditionId,
        page_number: usize,
        now: u64,
        window: u64,
    ) -> (r: Option<ReadRow>)
        ensures
            match merge_target(
                self@.rows,
                client,
                edition_id as int,
                page_number as int,
                now as int,
                window as int,
            ) {
                Some(i) => r is Some && r.unwrap()@ == self@.rows[i],
                None => r is None,
            },
    {
        let mut best: Option<ReadRow> = None;
        let mut i: usize = 0;
        while i < self.rows.len()
            invariant
                i <= self.rows.len(),
                match merge_target(
                    self@.rows.take(i as int),
                    client,
                    edition_id as int,
                    page_number as int,
                    now as int,
                    window as int,
                ) {
                    Some(j) => best is Some && best.unwrap()@ == self@.rows[j],
                    None => best is None,
                },
            decreases self.rows.len() - i,
        {
            let row = self.rows[i];
            proof {
                lemma_take_succ(self@.rows, i as int);
                assert(self@.rows[i as int] == self.rows@[i as int]@);
                lemma_merge_target_step(
                    self@.rows,
                    client,
                    edition_id as int,
                    page_number as int,
                    now as int,
                    window as int,
                    i as int,
                );
            }
            let key_match = row.client == client && row.edition_id == edition_id
                && row.page_number == page_number;
            let in_win = (row.timestamp as u128) + (window as u128) > (now as u128);
            if key_match && in_win {
                best = match best {
                    None => Some(row),
                    Some(b) => if row.timestamp > b.timestamp {
                        Some(row)
                    } else {
                        Some(b)
                    },
                };
            }
            i = i + 1;
        }
        proof {
            assert(self@.rows.take(self.rows@.len() as int) =~= self@.rows);
        }
        best
    }

    /// Sum of `read_time` over the rows of the key whose timestamp lies in
    /// `[since, now]`.
    pub fn sum_since(
        &self,
        client: Identifier,
        edition_id: EditionId,
        page_number: usize,
        since: u64,
        now: u64,
    ) -> (s: u64)
        requires
            self@.wf(),
            total_time(self@.rows) <= u64::MAX,
        ensures
            s as int == range_sum(
                self@.rows,
                client,
                edition_id as int,
                page_number as int,
                since as int,
                now as int,
            ),
    {
        let mut s: u64 = 0;
        let mut i: usize = 0;
        while i < self.rows.len()
            invariant
                i <= self.rows.len(),
                self@.wf(),
                total_time(self@.rows) <= u64::MAX,
                s as int == range_sum(
                    self@.rows.take(i as int),
                    client,
                    edition_id as int,
                    page_number as int,
                    since as int,
                    now as int,
                ),
            decreases self.rows.len() - i,
        {
            let row = self.rows[i];
            proof {
                lemma_take_succ(self@.rows, i as int);
                assert(self@.rows[i as int] == self.rows@[i as int]@);
                assert(valid_rows(self@.rows));
                lemma_valid_rows_take(self@.rows, i as int + 1);
                lemma_range_sum_le_total(
                    self@.rows.take(i as int + 1),
                    client,
                    edition_id as int,
                    page_number as int,
                    since as int,
                    now as int,
                );
                lemma_total_time_take_le(self@.rows, i as int + 1);
            }
            if row.client == client && row.edition_id == edition_id && row.page_number
                == page_number && since <= row.timestamp && row.timestamp <= now {
                s = s + row.read_time;
            }
            i = i + 1;
        }
        proof {
            assert(self@.rows.take(self.rows@.len() as int) =~= self@.rows);
        }
        s
    }

    /// `DailyCapEnforcer`: does the rolling daily cap still admit a delta
    /// for the key at `now`? Read-only; the delta itself is not consulted,
    /// so an accepted delta may overshoot the cap once (the cap bounds, it
    /// does not clip).
    pub fn permits(
        &self,
        client: Identifier,
        edition_id: EditionId,
        page_number: usize,
        now: u64,
    ) -> (r: bool)
        requires
            self@.wf(),
            total_time(self@.rows) <= u64::MAX,
        ensures
            r == cap_allows(self@.rows, client, edition_id as int, page_number as int, now as int),
    {
        let since = if now >= SECONDS_PER_DAY {
            now - SECONDS_PER_DAY
        } else {
            0
        };
        let s = self.sum_since(client, edition_id, page_number, since, now);
        proof {
            assert(valid_rows(self@.rows));
            if now < SECONDS_PER_DAY {
                lemma_range_sum_nonpos_since(
                    self@.rows,
                    client,
                    edition_id as int,
                    page_number as int,
                    now as int - SECONDS_PER_DAY as int,
                    0,
                    now as int,
                );
            }
        }
        s < DAILY_CAP_SECONDS
    }

    /// `MergeWindowResolver`: direct an incoming delta either into the most
    /// recent row of the key still inside the merge window, or into a new
    /// row.
    pub fn resolve(
        &self,
        client: Identifier,
        edition_id: EditionId,
        page_number: usize,
        now: u64,
    ) -> (d: MergeDecision)
        ensures
            match merge_target(
                self@.rows,
                client,
                edition_id as int,
                page_number as int,
                now as int,
                MERGE_WINDOW_SECONDS as int,
            ) {
                Some(i) => d matches MergeDecision::MergeInto(row) && row@ == self@.rows[i],
                None => d is CreateNew,
            },
    {
        match self.find_latest_within(client, edition_id, page_number, now, MERGE_WINDOW_SECONDS) {
            Some(row) => MergeDecision::MergeInto(row),
            None => MergeDecision::CreateNew,
        }
    }
}

/// Sum of a sequence of reported deltas.
pub open spec fn seq_sum(times: Seq<u64>) -> int
    decreases times.len(),
{
    if times.len() == 0 {
        0
    } else {
        seq_sum(times.drop_last()) + times.last() as int
    }
}

/// Sum of the deltas from position `k` on.
pub open spec fn seq_sum_from(times: Seq<u64>, k: int) -> int
    decreases times.len() - k,
{
    if 0 <= k < times.len() {
        times[k] as int + seq_sum_from(times, k + 1)
    } else {
        0
    }
}

/// A suffix sum of deltas is non-negative.
pub proof fn lemma_seq_sum_from_nonneg(times: Seq<u64>, k: int)
    ensures
        seq_sum_from(times, k) >= 0,
    decreases times.len() - k,
{
    if 0 <= k < times.len() {
        lemma_seq_sum_from_nonneg(times, k + 1);
    }
}

/// The whole sum splits into the first `k` deltas and the rest.
pub proof fn lemma_seq_sum_split(times: Seq<u64>, k: int)
    requires
        0 <= k <= times.len(),
    ensures
        seq_sum(times.take(k)) + seq_sum_from(times, k) == seq_sum(times),
    decreases times.len() - k,
{
    if k == times.len() {
        assert(times.take(k) =~= times);
    } else {
        lemma_seq_sum_split(times, k + 1);
        assert(times.take(k + 1).drop_last() =~= times.take(k));
        assert(times.take(k + 1).last() == times[k]);
    }
}

/// What one reported delta does to the store: nothing for a zero delta or
/// under an exhausted daily cap; otherwise it merges into the most recent
/// row of the key inside the merge window, advancing that row's timestamp,
/// or starts a new row when the key has none inside the window.
pub open spec fn apply_delta(
    s: StoreModel,
    client: Identifier,
    edition_id: int,
    page_number: int,
    delta: int,
    now: int,
) -> StoreModel {
    if delta == 0 {
        s
    } else if !cap_allows(s.rows, client, edition_id, page_number, now) {
        s
    } else {
        match merge_target(
            s.rows,
            client,
            edition_id,
            page_number,
            now,
            MERGE_WINDOW_SECONDS as int,
        ) {
            Some(i) => StoreModel { rows: s.rows.update(i, merged_row(s.rows[i], delta, now)), ..s },
            None => StoreModel {
                rows: s.rows.push(
                    made_row(s.next_id, client, edition_id, page_number, delta, now),
                ),
                next_id: s.next_id + 1,
            },
        }
    }
}

/// One submission applied from page `k` on: each page is an independent
/// key, processed in page order.
pub open spec fn ingest_from(
    s: StoreModel,
    client: Identifier,
    edition_id: int,
    times: Seq<u64>,
    k: int,
    now: int,
) -> StoreModel
    decreases times.len() - k,
{
    if 0 <= k < times.len() {
        ingest_from(
            apply_delta(s, client, edition_id, k, times[k] as int, now),
            client,
            edition_id,
            times,
            k + 1,
            now,
        )
    } else {
        s
    }
}

/// One whole submission: the per-page deltas `times`, indexed by page
/// number, applied to the store at `now`.
pub open spec fn ingest(
    s: StoreModel,
    client: Identifier,
    edition_id: int,
    times: Seq<u64>,
    now: int,
) -> StoreModel {
    ingest_from(s, client, edition_id, times, 0, now)
}

impl ReadStore {
    /// `ReadEventIngestor`: record the read times one client reports for an
    /// edition, one delta per page. Zero deltas are ignored; a delta whose
    /// key exhausted the rolling daily cap is silently dropped; any other
    /// delta merges into the key's row inside the merge window or starts a
    /// new row.
    pub fn record_read_times(
        &mut self,
        client: Identifier,
        edition_id: EditionId,
        page_times: &Vec<u64>,
        now: u64,
    )
        requires
            old(self)@.wf(),
            total_time(old(self)@.rows) + seq_sum(page_times@) <= u64::MAX,
            old(self)@.next_id + page_times@.len() <= u64::MAX,
        ensures
            final(self)@.wf(),
            final(self)@ == ingest(old(self)@, client, edition_id as int, page_times@, now as int),
    {
        proof {
            lemma_seq_sum_split(page_times@, 0);
        }
        let mut page: usize = 0;
        while page < page_times.len()
            invariant
                page <= page_times.len(),
                self@.wf(),
                total_time(self@.rows) + seq_sum_from(page_times@, page as int) <= u64::MAX,
                self@.next_id + (page_times@.len() - page as int) <= u64::MAX,
                ingest_from(self@, client, edition_id as int, page_times@, page as int, now as int)
                    == ingest(old(self)@, client, edition_id as int, page_times@, now as int),
            decreases page_times.len() - page,
        {
            let ghost entry = self@;
            let delta = page_times[page];
            proof {
                lemma_seq_sum_from_nonneg(page_times@, page as int + 1);
                assert(valid_rows(self@.rows));
            }
            if delta != 0 {
                if self.permits(client, edition_id, page, now) {
                    match self.resolve(client, edition_id, page, now) {
                        MergeDecision::MergeInto(row) => {
                            proof {
                                lemma_merge_target_props(
                                    entry.rows,
                                    client,
                                    edition_id as int,
                                    page as int,
                                    now as int,
                                    MERGE_WINDOW_SECONDS as int,
                                );
                                let i = merge_target(
                                    entry.rows,
                                    client,
                                    edition_id as int,
                                    page as int,
                                    now as int,
                                    MERGE_WINDOW_SECONDS as int,
                                ).unwrap();
                                lemma_row_le_total(entry.rows, i);
                            }
                            let merged = self.update(row.id, row.read_time + delta, now);
                            proof {
                                let i = merge_target(
                                    entry.rows,
                                    client,
                                    edition_id as int,
                                    page as int,
                                    now as int,
                                    MERGE_WINDOW_SECONDS as int,
                                ).unwrap();
                                assert(entry.rows[i].id == row.id as int);
                                assert(self@.rows == entry.rows.update(
                                    i,
                                    merged_row(entry.rows[i], delta as int, now as int),
                                ));
                                lemma_total_time_update(
                                    entry.rows,
                                    i,
                                    merged_row(entry.rows[i], delta as int, now as int),
                                );
                                assert(self@ == apply_delta(
                                    entry,
                                    client,
                                    edition_id as int,
                                    page as int,
                                    delta as int,
                                    now as int,
                                ));
                            }
                        },
                        MergeDecision::CreateNew => {
                            let _ = self.insert(client, edition_id, page, delta, now);
                            proof {
                                lemma_total_time_push(
                                    entry.rows,
                                    made_row(
                                        entry.next_id,
                                        client,
                                        edition_id as int,
                                        page as int,
                                        delta as int,
                                        now as int,
                                    ),
                                );
                                assert(self@ == apply_delta(
                                    entry,
                                    client,
                                    edition_id as int,
                                    page as int,
                                    delta as int,
                                    now as int,
                                ));
                            }
                        },
                    }
                } else {
                    proof {
                        assert(self@ == apply_delta(
                            entry,
                            client,
                            edition_id as int,
                            page as int,
                            delta as int,
                            now as int,
                        ));
                    }
                }
            } else {
                proof {
                    assert(self@ == apply_delta(
                        entry,
                        client,
                        edition_id as int,
                        page as int,
                        delta as int,
                        now as int,
                    ));
                }
            }
            page = page + 1;
        }
    }
}

impl ReadStore {
    /// As `record_read_times`, stamped with the current clock time. The
    /// store afterwards holds the submission ingested at whatever instant
    /// the clock gave.
    pub fn record_read_times_now(
        &mut self,
        client: Identifier,
        edition_id: EditionId,
        page_times: &Vec<u64>,
    )
        requires
            old(self)@.wf(),
            total_time(old(self)@.rows) + seq_sum(page_times@) <= u64::MAX,
            old(self)@.next_id + page_times@.len() <= u64::MAX,
        ensures
            final(self)@.wf(),
            exists|t: u64|
                final(self)@ == ingest(
                    old(self)@,
                    client,
                    edition_id as int,
                    page_times@,
                    t as int,
                ),
    {
        let now = crate::clock::now_seconds();
        self.record_read_times(client, edition_id, page_times, now);
        proof {
            assert(self@ == ingest(old(self)@, client, edition_id as int, page_times@, now as int));
        }
    }
}

/// What `resolve` directs for an incoming delta: merge it into an existing
/// row or create a new one.
#[derive(Clone, Copy, Debug)]
pub enum MergeDecision {
    MergeInto(ReadRow),
    CreateNew,
}

} // verus!
