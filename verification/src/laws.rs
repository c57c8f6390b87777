//! The general guarantees of the aggregator, stated and proved over the
//! store model: merge correctness, session splitting, cap enforcement, the
//! zero-delta no-op, and identity isolation.

use vstd::prelude::*;

use crate::identity::Identifier;
use crate::store::{
    apply_delta, cap_allows, day_sum, ingest, ingest_from, made_row, merge_target, merged_row,
    range_sum, row_in_window, row_key_matches, lemma_merge_target_props, StoreModel,
    DAILY_CAP_SECONDS, MERGE_WINDOW_SECONDS, SECONDS_PER_DAY,
};

verus! {

/// The key `(client, edition_id, page_number)` owns no row of `rows`.
pub open spec fn no_key_rows(
    rows: Seq<crate::store::RowModel>,
    client: Identifier,
    edition_id: int,
    page_number: int,
) -> bool {
    forall|i: int|
        0 <= i < rows.len() ==> !row_key_matches(
            #[trigger] rows[i],
            client,
            edition_id,
            page_number,
        )
}

/// Consecutive submission instants `i` and `i + 1` are ordered and less
/// than the merge window apart.
pub open spec fn gap_within_window(stamps: Seq<int>, i: int) -> bool {
    stamps[i] <= stamps[i + 1] < stamps[i] + MERGE_WINDOW_SECONDS as int
}

/// Sum of a sequence of deltas.
pub open spec fn delta_sum(deltas: Seq<int>) -> int
    decreases deltas.len(),
{
    if deltas.len() == 0 {
        0
    } else {
        delta_sum(deltas.drop_last()) + deltas.last()
    }
}

/// The state after submitting `deltas[i]` at instant `stamps[i]`, in order,
/// each as one delta for the key `(client, edition_id, page_number)`.
pub open spec fn submit_each(
    s: StoreModel,
    client: Identifier,
    edition_id: int,
    page_number: int,
    deltas: Seq<int>,
    stamps: Seq<int>,
) -> StoreModel
    recommends
        deltas.len() == stamps.len(),
    decreases deltas.len(),
{
    if deltas.len() == 0 {
        s
    } else {
        apply_delta(
            submit_each(
                s,
                client,
                edition_id,
                page_number,
                deltas.drop_last(),
                stamps.drop_last(),
            ),
            client,
            edition_id,
            page_number,
            deltas.last(),
            stamps.last(),
        )
    }
}

/// A range sum over rows of which none belongs to the key is zero.
proof fn lemma_range_sum_no_match(
    rows: Seq<crate::store::RowModel>,
    client: Identifier,
    edition_id: int,
    page_number: int,
    since: int,
    upto: int,
)
    requires
        no_key_rows(rows, client, edition_id, page_number),
    ensures
        range_sum(rows, client, edition_id, page_number, since, upto) == 0,
    decreases rows.len(),
{
    if rows.len() > 0 {
        assert forall|j: int| 0 <= j < rows.drop_last().len() implies !row_key_matches(
            #[trigger] rows.drop_last()[j],
            client,
            edition_id,
            page_number,
        ) by {
            assert(rows.drop_last()[j] == rows[j]);
        }
        lemma_range_sum_no_match(
            rows.drop_last(),
            client,
            edition_id,
            page_number,
            since,
            upto,
        );
        assert(rows.last() == rows[rows.len() - 1]);
    }
}

/// Appending a row adds exactly its contribution to a range sum.
proof fn lemma_range_sum_push(
    rows: Seq<crate::store::RowModel>,
    r: crate::store::RowModel,
    client: Identifier,
    edition_id: int,
    page_number: int,
    since: int,
    upto: int,
)
    ensures
        range_sum(rows.push(r), client, edition_id, page_number, since, upto) == range_sum(
            rows,
            client,
            edition_id,
            page_number,
            since,
            upto,
        ) + if row_key_matches(r, client, edition_id, page_number) && since <= r.timestamp
            && r.timestamp <= upto {
            r.read_time
        } else {
            0
        },
{
    assert(rows.push(r).drop_last() =~= rows);
    assert(rows.push(r).last() == r);
}

/// Where no row of the key lies inside the window there is no merge target.
proof fn lemma_merge_target_none(
    rows: Seq<crate::store::RowModel>,
    client: Identifier,
    edition_id: int,
    page_number: int,
    now: int,
    window: int,
)
    requires
        forall|i: int|
            0 <= i < rows.len() ==> !(row_key_matches(
                #[trigger] rows[i],
                client,
                edition_id,
                page_number,
            ) && row_in_window(rows[i], now, window)),
    ensures
        merge_target(rows, client, edition_id, page_number, now, window) is None,
{
    lemma_merge_target_props(rows, client, edition_id, page_number, now, window);
}

/// When only the appended row belongs to the key inside the window, it is
/// the merge target.
proof fn lemma_merge_target_push_only(
    rows: Seq<crate::store::RowModel>,
    r: crate::store::RowModel,
    client: Identifier,
    edition_id: int,
    page_number: int,
    now: int,
    window: int,
)
    requires
        no_key_rows(rows, client, edition_id, page_number),
        row_key_matches(r, client, edition_id, page_number),
        row_in_window(r, now, window),
    ensures
        merge_target(rows.push(r), client, edition_id, page_number, now, window) == Some(
            rows.len() as int,
        ),
{
    assert(rows.push(r).drop_last() =~= rows);
    assert(rows.push(r).last() == r);
    lemma_merge_target_none(rows, client, edition_id, page_number, now, window);
}

/// Merge correctness: deltas submitted for one key with inter-arrival gaps
/// inside the merge window, whose sum stays within the daily cap, coalesce
/// into a single row whose accumulator is exactly the sum of the deltas and
/// whose timestamp is the last submission instant. Rows of other keys are
/// untouched.
pub proof fn lemma_merge_correctness(
    s: StoreModel,
    client: Identifier,
    edition_id: int,
    page_number: int,
    deltas: Seq<int>,
    stamps: Seq<int>,
)
    requires
        no_key_rows(s.rows, client, edition_id, page_number),
        deltas.len() == stamps.len(),
        deltas.len() >= 1,
        forall|i: int| 0 <= i < deltas.len() ==> #[trigger] deltas[i] > 0,
        delta_sum(deltas) <= DAILY_CAP_SECONDS as int,
        forall|i: int| 0 <= i < stamps.len() - 1 ==> #[trigger] gap_within_window(stamps, i),
    ensures
        submit_each(s, client, edition_id, page_number, deltas, stamps).rows == s.rows.push(
            made_row(
                s.next_id,
                client,
                edition_id,
                page_number,
                delta_sum(deltas),
                stamps.last(),
            ),
        ),
        submit_each(s, client, edition_id, page_number, deltas, stamps).next_id == s.next_id + 1,
    decreases deltas.len(),
{
    let n = deltas.len();
    if n == 1 {
        assert(submit_each(s, client, edition_id, page_number, deltas.drop_last(), stamps.drop_last())
            == s);
        lemma_range_sum_no_match(
            s.rows,
            client,
            edition_id,
            page_number,
            stamps.last() - SECONDS_PER_DAY as int,
            stamps.last(),
        );
        assert(cap_allows(s.rows, client, edition_id, page_number, stamps.last()));
        assert forall|i: int| 0 <= i < s.rows.len() implies !(row_key_matches(
            #[trigger] s.rows[i],
            client,
            edition_id,
            page_number,
        ) && row_in_window(s.rows[i], stamps.last(), MERGE_WINDOW_SECONDS as int)) by {}
        lemma_merge_target_none(
            s.rows,
            client,
            edition_id,
            page_number,
            stamps.last(),
            MERGE_WINDOW_SECONDS as int,
        );
        assert(delta_sum(deltas) == deltas.last());
    } else {
        let dl = deltas.drop_last();
        let sl = stamps.drop_last();
        assert forall|i: int| 0 <= i < dl.len() implies #[trigger] dl[i] > 0 by {
            assert(dl[i] == deltas[i]);
        }
        assert(delta_sum(dl) == delta_sum(deltas) - deltas.last());
        assert(deltas.last() == deltas[n - 1]);
        assert(deltas[n - 1] > 0);
        assert forall|i: int| 0 <= i < sl.len() - 1 implies #[trigger] gap_within_window(
            sl,
            i,
        ) by {
            assert(gap_within_window(stamps, i));
            assert(sl[i] == stamps[i]);
            assert(sl[i + 1] == stamps[i + 1]);
        }
        lemma_merge_correctness(s, client, edition_id, page_number, dl, sl);
        let s1 = submit_each(s, client, edition_id, page_number, dl, sl);
        let r1 = made_row(
            s.next_id,
            client,
            edition_id,
            page_number,
            delta_sum(dl),
            sl.last(),
        );
        assert(s1.rows == s.rows.push(r1));
        let now = stamps.last();
        let prev = sl.last();
        assert(prev == stamps[n - 2] && now == stamps[n - 1]);
        assert(gap_within_window(stamps, n - 2));
        assert(prev <= now < prev + MERGE_WINDOW_SECONDS as int);
        // The daily cap still admits the last delta: the single row of the
        // key holds the sum of the earlier deltas, which is below the cap.
        lemma_range_sum_no_match(s.rows, client, edition_id, page_number, now - SECONDS_PER_DAY as int, now);
        lemma_range_sum_push(
            s.rows,
            r1,
            client,
            edition_id,
            page_number,
            now - SECONDS_PER_DAY as int,
            now,
        );
        assert(day_sum(s1.rows, client, edition_id, page_number, now) == delta_sum(dl));
        assert(cap_allows(s1.rows, client, edition_id, page_number, now));
        // The single row of the key lies inside the merge window, so the
        // last delta merges into it.
        lemma_merge_target_push_only(
            s.rows,
            r1,
            client,
            edition_id,
            page_number,
            now,
            MERGE_WINDOW_SECONDS as int,
        );
        let merged = merged_row(r1, deltas.last(), now);
        assert(s1.rows.update(s.rows.len() as int, merged) =~= s.rows.push(merged));
        assert(merged == made_row(
            s.next_id,
            client,
            edition_id,
            page_number,
            delta_sum(deltas),
            stamps.last(),
        ));
    }
}

/// Session splitting: two deltas for one key separated by more than the
/// merge window land in two distinct rows, each holding its own delta.
pub proof fn lemma_session_splitting(
    s: StoreModel,
    client: Identifier,
    edition_id: int,
    page_number: int,
    d1: int,
    d2: int,
    t1: int,
    t2: int,
)
    requires
        no_key_rows(s.rows, client, edition_id, page_number),
        0 < d1 < DAILY_CAP_SECONDS as int,
        0 < d2,
        t2 - t1 > MERGE_WINDOW_SECONDS as int,
    ensures
        ({
            let s2 = apply_delta(
                apply_delta(s, client, edition_id, page_number, d1, t1),
                client,
                edition_id,
                page_number,
                d2,
                t2,
            );
            s2.rows == s.rows.push(made_row(s.next_id, client, edition_id, page_number, d1, t1))
                .push(made_row(s.next_id + 1, client, edition_id, page_number, d2, t2))
                && s2.next_id == s.next_id + 2
        }),
{
    lemma_range_sum_no_match(s.rows, client, edition_id, page_number, t1 - SECONDS_PER_DAY as int, t1);
    assert(cap_allows(s.rows, client, edition_id, page_number, t1));
    lemma_merge_target_none(
        s.rows,
        client,
        edition_id,
        page_number,
        t1,
        MERGE_WINDOW_SECONDS as int,
    );
    let r1 = made_row(s.next_id, client, edition_id, page_number, d1, t1);
    let s1 = apply_delta(s, client, edition_id, page_number, d1, t1);
    assert(s1.rows == s.rows.push(r1));
    // The first row is past the merge window at the second instant, and its
    // accumulator is below the cap, so the second delta starts a new row.
    lemma_range_sum_no_match(s.rows, client, edition_id, page_number, t2 - SECONDS_PER_DAY as int, t2);
    lemma_range_sum_push(s.rows, r1, client, edition_id, page_number, t2 - SECONDS_PER_DAY as int, t2);
    assert(day_sum(s1.rows, client, edition_id, page_number, t2) <= d1);
    assert(cap_allows(s1.rows, client, edition_id, page_number, t2));
    assert(!row_in_window(r1, t2, MERGE_WINDOW_SECONDS as int));
    assert forall|i: int| 0 <= i < s1.rows.len() implies !(row_key_matches(
        #[trigger] s1.rows[i],
        client,
        edition_id,
        page_number,
    ) && row_in_window(s1.rows[i], t2, MERGE_WINDOW_SECONDS as int)) by {
        if i < s.rows.len() {
            assert(s1.rows[i] == s.rows[i]);
        } else {
            assert(s1.rows[i] == r1);
        }
    }
    lemma_merge_target_none(
        s1.rows,
        client,
        edition_id,
        page_number,
        t2,
        MERGE_WINDOW_SECONDS as int,
    );
}

/// Replacing one row changes a range sum by the difference of the two
/// rows' contributions.
proof fn lemma_range_sum_update(
    rows: Seq<crate::store::RowModel>,
    i: int,
    r: crate::store::RowModel,
    client: Identifier,
    edition_id: int,
    page_number: int,
    since: int,
    upto: int,
)
    requires
        0 <= i < rows.len(),
    ensures
        range_sum(rows.update(i, r), client, edition_id, page_number, since, upto) == range_sum(
            rows,
            client,
            edition_id,
            page_number,
            since,
            upto,
        ) - contribution(rows[i], client, edition_id, page_number, since, upto) + contribution(
            r,
            client,
            edition_id,
            page_number,
            since,
            upto,
        ),
    decreases rows.len(),
{
    if i == rows.len() - 1 {
        assert(rows.update(i, r).drop_last() =~= rows.drop_last());
        assert(rows.update(i, r).last() == r);
        assert(rows.last() == rows[i]);
    } else {
        assert(rows.update(i, r).drop_last() =~= rows.drop_last().update(i, r));
        assert(rows.update(i, r).last() == rows.last());
        lemma_range_sum_update(
            rows.drop_last(),
            i,
            r,
            client,
            edition_id,
            page_number,
            since,
            upto,
        );
        assert(rows.drop_last()[i] == rows[i]);
        assert(rows.last() == rows[rows.len() - 1]);
    }
}

/// What one row adds to a keyed range sum.
spec fn contribution(
    r: crate::store::RowModel,
    client: Identifier,
    edition_id: int,
    page_number: int,
    since: int,
    upto: int,
) -> int {
    if row_key_matches(r, client, edition_id, page_number) && since <= r.timestamp
        && r.timestamp <= upto {
        r.read_time
    } else {
        0
    }
}

/// With a clock that has not run backwards, no submission ever lowers a
/// row's timestamp: a merged row is stamped `now`, at or after its old
/// stamp, and every other row keeps its stamp.
pub proof fn lemma_timestamp_monotone(
    s: StoreModel,
    client: Identifier,
    edition_id: int,
    page_number: int,
    delta: int,
    now: int,
)
    requires
        forall|i: int| 0 <= i < s.rows.len() ==> (#[trigger] s.rows[i]).timestamp <= now,
    ensures
        ({
            let s2 = apply_delta(s, client, edition_id, page_number, delta, now);
            &&& forall|i: int|
                0 <= i < s.rows.len() ==> s.rows[i].timestamp <= (#[trigger] s2.rows[i]).timestamp
            &&& forall|i: int|
                0 <= i < s2.rows.len() ==> (#[trigger] s2.rows[i]).timestamp <= now
        }),
{
    lemma_merge_target_props(
        s.rows,
        client,
        edition_id,
        page_number,
        now,
        MERGE_WINDOW_SECONDS as int,
    );
}

/// The cap bounds, it does not clip: one submission raises the
/// trailing-24-hour sum of its key by exactly its delta while the cap
/// still admits it, and not at all otherwise. Since admission requires the
/// old sum to be below the cap, the sum never passes the cap by more than
/// one delta's worth.
pub proof fn lemma_cap_overshoot_bound(
    s: StoreModel,
    client: Identifier,
    edition_id: int,
    page_number: int,
    delta: int,
    now: int,
)
    requires
        delta >= 0,
        forall|i: int| 0 <= i < s.rows.len() ==> (#[trigger] s.rows[i]).timestamp <= now,
    ensures
        ({
            let s2 = apply_delta(s, client, edition_id, page_number, delta, now);
            day_sum(s2.rows, client, edition_id, page_number, now) == if delta != 0 && cap_allows(
                s.rows,
                client,
                edition_id,
                page_number,
                now,
            ) {
                day_sum(s.rows, client, edition_id, page_number, now) + delta
            } else {
                day_sum(s.rows, client, edition_id, page_number, now)
            }
        }),
        day_sum(
            apply_delta(s, client, edition_id, page_number, delta, now).rows,
            client,
            edition_id,
            page_number,
            now,
        ) < DAILY_CAP_SECONDS as int + delta || day_sum(
            apply_delta(s, client, edition_id, page_number, delta, now).rows,
            client,
            edition_id,
            page_number,
            now,
        ) == day_sum(s.rows, client, edition_id, page_number, now),
{
    let since = now - SECONDS_PER_DAY as int;
    if delta != 0 && cap_allows(s.rows, client, edition_id, page_number, now) {
        match merge_target(
            s.rows,
            client,
            edition_id,
            page_number,
            now,
            MERGE_WINDOW_SECONDS as int,
        ) {
            Some(i) => {
                lemma_merge_target_props(
                    s.rows,
                    client,
                    edition_id,
                    page_number,
                    now,
                    MERGE_WINDOW_SECONDS as int,
                );
                lemma_range_sum_update(
                    s.rows,
                    i,
                    merged_row(s.rows[i], delta, now),
                    client,
                    edition_id,
                    page_number,
                    since,
                    now,
                );
            },
            None => {
                lemma_range_sum_push(
                    s.rows,
                    made_row(s.next_id, client, edition_id, page_number, delta, now),
                    client,
                    edition_id,
                    page_number,
                    since,
                    now,
                );
            },
        }
    }
}

/// Cap enforcement: once the trailing-24-hour sum for a key reaches the
/// daily cap, a further delta for that key changes nothing — no new row, no
/// mutation.
pub proof fn lemma_cap_enforcement(
    s: StoreModel,
    client: Identifier,
    edition_id: int,
    page_number: int,
    delta: int,
    now: int,
)
    requires
        day_sum(s.rows, client, edition_id, page_number, now) >= DAILY_CAP_SECONDS as int,
    ensures
        apply_delta(s, client, edition_id, page_number, delta, now) == s,
{
}

/// Zero-delta no-op: a delta of exactly zero never creates or mutates a
/// row.
pub proof fn lemma_zero_delta_noop(
    s: StoreModel,
    client: Identifier,
    edition_id: int,
    page_number: int,
    now: int,
)
    ensures
        apply_delta(s, client, edition_id, page_number, 0, now) == s,
{
}

/// Identity isolation: a submission by one identifier never mutates a row
/// of a different identifier, and any row it creates carries its own
/// identifier — identical deltas from different clients never share a row.
pub proof fn lemma_identity_isolation(
    s: StoreModel,
    a: Identifier,
    b: Identifier,
    edition_id: int,
    page_number: int,
    delta: int,
    now: int,
)
    requires
        a != b,
    ensures
        ({
            let s2 = apply_delta(s, b, edition_id, page_number, delta, now);
            &&& s.rows.len() <= s2.rows.len() <= s.rows.len() + 1
            &&& forall|i: int|
                0 <= i < s.rows.len() && (#[trigger] s.rows[i]).client == a ==> s2.rows[i]
                    == s.rows[i]
            &&& forall|i: int|
                s.rows.len() <= i < s2.rows.len() ==> (#[trigger] s2.rows[i]).client == b
        }),
{
    lemma_merge_target_props(
        s.rows,
        b,
        edition_id,
        page_number,
        now,
        MERGE_WINDOW_SECONDS as int,
    );
}

/// A submission whose remaining deltas are all zero changes nothing.
proof fn lemma_ingest_zero_tail(
    s: StoreModel,
    client: Identifier,
    edition_id: int,
    times: Seq<u64>,
    k: int,
    now: int,
)
    requires
        forall|j: int| k <= j < times.len() ==> times[j] == 0,
    ensures
        ingest_from(s, client, edition_id, times, k, now) == s,
    decreases times.len() - k,
{
    if 0 <= k < times.len() {
        lemma_ingest_zero_tail(s, client, edition_id, times, k + 1, now);
    }
}

/// A whole submission with a single non-zero page acts on the store exactly
/// as that one delta does: the other pages leave no trace.
pub proof fn lemma_single_page_submission(
    s: StoreModel,
    client: Identifier,
    edition_id: int,
    times: Seq<u64>,
    page_number: int,
    now: int,
)
    requires
        0 <= page_number < times.len(),
        forall|k: int| 0 <= k < times.len() && k != page_number ==> times[k] == 0,
    ensures
        ingest(s, client, edition_id, times, now) == apply_delta(
            s,
            client,
            edition_id,
            page_number,
            times[page_number] as int,
            now,
        ),
{
    lemma_ingest_single_from(s, client, edition_id, times, 0, page_number, now);
}

/// The generalisation of `lemma_single_page_submission` to an arbitrary
/// starting page.
proof fn lemma_ingest_single_from(
    s: StoreModel,
    client: Identifier,
    edition_id: int,
    times: Seq<u64>,
    k: int,
    page_number: int,
    now: int,
)
    requires
        0 <= k <= page_number < times.len(),
        forall|j: int| k <= j < times.len() && j != page_number ==> times[j] == 0,
    ensures
        ingest_from(s, client, edition_id, times, k, now) == apply_delta(
            s,
            client,
            edition_id,
            page_number,
            times[page_number] as int,
            now,
        ),
    decreases page_number - k,
{
    if k == page_number {
        lemma_ingest_zero_tail(
            apply_delta(s, client, edition_id, page_number, times[page_number] as int, now),
            client,
            edition_id,
            times,
            k + 1,
            now,
        );
    } else {
        lemma_ingest_single_from(s, client, edition_id, times, k + 1, page_number, now);
    }
}

} // verus!
