//! The retry queue for syncs that could not reach a peer.
//!
//! The queue is a table of rows; storing it is left to the caller.
use vstd::prelude::*;
use vstd::seq_lib::*;
use vstd::string::*;

use crate::match_key::{ItemUserData, MatchKey, MatchKeyView, UserDataView};
use crate::sorting;
use crate::text;

verus! {

/// A row leaves the queue after this many attempts.
pub const MAX_RETRY_ATTEMPTS: i64 = 60;

/// How many rows one drain takes at most.
pub const DRAIN_LIMIT: usize = 500;

/// A queued sync. The time of the last change is in seconds.
#[derive(Debug)]
pub struct QueueEntry {
    pub id: i64,
    pub user_id: String,
    pub server_id: i64,
    pub title_key: String,
    pub match_key: MatchKey,
    pub user_data: ItemUserData,
    pub attempts: i64,
    pub updated_at: i64,
}

/// The data in a [`QueueEntry`].
pub struct EntryView {
    pub id: i64,
    pub user_id: Seq<char>,
    pub server_id: i64,
    pub title_key: Seq<char>,
    pub match_key: MatchKeyView,
    pub user_data: UserDataView,
    pub attempts: i64,
    pub updated_at: i64,
}

impl View for QueueEntry {
    type V = EntryView;

    open spec fn view(&self) -> EntryView {
        EntryView {
            id: self.id,
            user_id: self.user_id@,
            server_id: self.server_id,
            title_key: self.title_key@,
            match_key: self.match_key@,
            user_data: self.user_data@,
            attempts: self.attempts,
            updated_at: self.updated_at,
        }
    }
}

/// The data in a list of rows.
pub open spec fn entries(rows: Seq<QueueEntry>) -> Seq<EntryView> {
    rows.map_values(|r: QueueEntry| r@)
}

/// Whether a row is of this user, server and title.
pub open spec fn is_about(
    row: EntryView,
    user_id: Seq<char>,
    server_id: i64,
    title_key: Seq<char>,
) -> bool {
    row.user_id == user_id && row.server_id == server_id && row.title_key == title_key
}

/// Whether no two rows are of the same user, server and title.
pub open spec fn deduped(rows: Seq<EntryView>) -> bool {
    forall|i: int, j: int|
        0 <= i < j < rows.len() ==> !is_about(
            #[trigger] rows[i],
            (#[trigger] rows[j]).user_id,
            rows[j].server_id,
            rows[j].title_key,
        )
}

/// Whether no two rows have the same id, and every id is below `next`, unless
/// that is the last one, which no row is given.
pub open spec fn ids_below(rows: Seq<EntryView>, next: i64) -> bool {
    &&& forall|i: int| 0 <= i < rows.len() ==> (#[trigger] rows[i]).id < next || next == i64::MAX
    &&& forall|i: int, j: int|
        0 <= i < j < rows.len() ==> (#[trigger] rows[i]).id != (#[trigger] rows[j]).id
}

/// Whether two rows cannot stand in one queue: they have the same id or are of
/// the same user, server and title.
pub open spec fn clash(a: EntryView, b: EntryView) -> bool {
    a.id == b.id || is_about(a, b.user_id, b.server_id, b.title_key)
}

/// The rows with one more, to which those give way that it clashes with.
pub open spec fn with_row(rows: Seq<EntryView>, row: EntryView) -> Seq<EntryView> {
    rows.filter(|r: EntryView| !clash(r, row)).push(row)
}

/// What remains of stored rows: of those that clash the latest.
pub open spec fn kept_rows(rows: Seq<EntryView>) -> Seq<EntryView>
    decreases rows.len(),
{
    if rows.len() == 0 {
        Seq::empty()
    } else {
        with_row(kept_rows(rows.drop_last()), rows.last())
    }
}

/// The next id once a row with an id is there.
pub open spec fn id_after(next: i64, id: i64) -> i64 {
    if next > id {
        next
    } else if id == i64::MAX {
        i64::MAX
    } else {
        (id + 1) as i64
    }
}

/// The id that a new row gets beside stored ones.
pub open spec fn next_after(rows: Seq<EntryView>) -> i64
    decreases rows.len(),
{
    if rows.len() == 0 {
        1
    } else {
        id_after(next_after(rows.drop_last()), rows.last().id)
    }
}

/// The row with a newer intent: the attempts start anew.
pub open spec fn refreshed(
    row: EntryView,
    match_key: MatchKeyView,
    user_data: UserDataView,
    now: i64,
) -> EntryView {
    EntryView { match_key, user_data, attempts: 0, updated_at: now, ..row }
}

/// The rows after a sync was queued: the row of the same user, server and
/// title is refreshed, or a new one is added.
pub open spec fn enqueued(
    rows: Seq<EntryView>,
    next: i64,
    user_id: Seq<char>,
    server_id: i64,
    title_key: Seq<char>,
    match_key: MatchKeyView,
    user_data: UserDataView,
    now: i64,
) -> Seq<EntryView> {
    if exists|i: int| 0 <= i < rows.len() && is_about(#[trigger] rows[i], user_id, server_id, title_key) {
        rows.map_values(
            |row: EntryView|
                if is_about(row, user_id, server_id, title_key) {
                    refreshed(row, match_key, user_data, now)
                } else {
                    row
                },
        )
    } else {
        rows.push(
            EntryView {
                id: next,
                user_id,
                server_id,
                title_key,
                match_key,
                user_data,
                attempts: 0,
                updated_at: now,
            },
        )
    }
}

/// The rows after an attempt was counted on the row with the id.
pub open spec fn bumped(rows: Seq<EntryView>, id: i64, now: i64) -> Seq<EntryView> {
    rows.map_values(
        |row: EntryView|
            if row.id == id {
                EntryView { attempts: (row.attempts + 1) as i64, updated_at: now, ..row }
            } else {
                row
            },
    )
}

/// Whether a row may still be retried.
pub open spec fn retriable() -> spec_fn(EntryView) -> bool {
    |row: EntryView| row.attempts < MAX_RETRY_ATTEMPTS
}

/// The order in which rows are drained: the longest unchanged first.
pub open spec fn by_age() -> spec_fn(EntryView, EntryView) -> bool {
    |a: EntryView, b: EntryView| a.updated_at <= b.updated_at
}

/// The rows that one drain takes.
pub open spec fn pending(rows: Seq<EntryView>) -> Seq<EntryView> {
    let all = sorting::in_order(rows.filter(retriable()), by_age());
    if all.len() <= DRAIN_LIMIT {
        all
    } else {
        all.take(DRAIN_LIMIT as int)
    }
}

/// Retry queue for syncs that could not reach a peer: one row at most per
/// user, server and title.
#[derive(Debug)]
pub struct WatchedSyncQueue {
    rows: Vec<QueueEntry>,
    next_id: i64,
}

impl QueueEntry {
    /// The same row once more.
    pub fn copy(&self) -> (r: Self)
        ensures
            r@ == self@,
    {
        QueueEntry {
            id: self.id,
            user_id: self.user_id.clone(),
            server_id: self.server_id,
            title_key: self.title_key.clone(),
            match_key: self.match_key.copy(),
            user_data: self.user_data.copy(),
            attempts: self.attempts,
            updated_at: self.updated_at,
        }
    }

    fn clashes(&self, other: &QueueEntry) -> (r: bool)
        ensures
            r == clash(self@, other@),
    {
        self.id == other.id || self.is_about(
            other.user_id.as_str(),
            other.server_id,
            other.title_key.as_str(),
        )
    }

    fn is_about(&self, user_id: &str, server_id: i64, title_key: &str) -> (r: bool)
        ensures
            r == is_about(self@, user_id@, server_id, title_key@),
    {
        self.server_id == server_id && text::str_eq(self.user_id.as_str(), user_id) && text::str_eq(
            self.title_key.as_str(),
            title_key,
        )
    }
}

impl WatchedSyncQueue {
    /// The rows.
    pub closed spec fn rows(self) -> Seq<EntryView> {
        entries(self.rows@)
    }

    /// The id that the next new row gets.
    pub closed spec fn next_id(self) -> i64 {
        self.next_id
    }

    /// One row per user, server and title, and one per id.
    pub open spec fn well_formed(self) -> bool {
        deduped(self.rows()) && ids_below(self.rows(), self.next_id())
    }

    /// An empty queue.
    pub fn new() -> (r: Self)
        ensures
            r.well_formed(),
            r.rows() == Seq::<EntryView>::empty(),
            r.next_id() == 1,
    {
        let r = WatchedSyncQueue { rows: Vec::new(), next_id: 1 };
        assert(r.rows() =~= Seq::<EntryView>::empty());
        r
    }

    /// A queue with the given rows, as they were stored. A row gives way to a
    /// later one of the same user, server and title or with the same id.
    pub fn restore(rows: Vec<QueueEntry>) -> (r: Self)
        ensures
            r.well_formed(),
            r.rows() == kept_rows(entries(rows@)),
            r.next_id() == next_after(entries(rows@)),
    {
        let ghost all = entries(rows@);
        let mut q = WatchedSyncQueue::new();
        assert(q.rows() =~= kept_rows(all.take(0)));
        for j in 0..rows.len()
            invariant
                all == entries(rows@),
                q.well_formed(),
                q.rows() == kept_rows(all.take(j as int)),
                q.next_id() == next_after(all.take(j as int)),
        {
            assert(all.take(j + 1).drop_last() =~= all.take(j as int));
            assert(all.take(j + 1).last() == rows[j as int]@);
            q.put_back(rows[j].copy());
        }
        assert(all.take(rows.len() as int) =~= all);
        q
    }

    fn put_back(&mut self, row: QueueEntry)
        requires
            old(self).well_formed(),
        ensures
            final(self).well_formed(),
            final(self).rows() == with_row(old(self).rows(), row@),
            final(self).next_id() == id_after(old(self).next_id(), row@.id),
    {
        let ghost before = self.rows();
        let ghost new = row@;
        let ghost keep = |r: EntryView| !clash(r, new);
        let mut apart = true;
        for i in 0..self.rows.len()
            invariant
                *self == *old(self),
                before == self.rows(),
                new == row@,
                apart ==> forall|k: int| 0 <= k < i ==> !clash(#[trigger] before[k], new),
        {
            assert(before[i as int] == self.rows[i as int]@);
            if self.rows[i].clashes(&row) {
                apart = false;
            }
        }
        if apart {
            proof {
                sorting::nothing_left_out(before, keep);
            }
        } else {
            let stays = |r: &QueueEntry| -> (o: bool)
                ensures
                    o == !clash(r@, row@),
                { !r.clashes(&row) };
            self.retain(stays, Ghost(keep));
        }
        let ghost kept = self.rows();
        assert(kept == before.filter(keep));
        proof {
            filter_keeps_the_rows_apart(before, keep, self.next_id);
        }
        let id: i64 = row.id;
        if self.next_id <= id {
            self.next_id = if id == i64::MAX {
                i64::MAX
            } else {
                id + 1
            };
        }
        self.rows.push(row);
        assert(self.rows() =~= kept.push(new));
        proof {
            let after = self.rows();
            let next = self.next_id;
            assert forall|x: int| 0 <= x < kept.len() implies !clash(#[trigger] kept[x], new) by {
                before.lemma_filter_pred(keep, x);
            }
            assert forall|x: int, y: int| 0 <= x < y < after.len() implies !is_about(
                #[trigger] after[x],
                (#[trigger] after[y]).user_id,
                after[y].server_id,
                after[y].title_key,
            ) && after[x].id != after[y].id by {
                assert(after[x] == kept[x]);
                if y < kept.len() {
                    assert(after[y] == kept[y]);
                }
            }
            assert forall|x: int| 0 <= x < after.len() implies (#[trigger] after[x]).id < next
                || next == i64::MAX by {
                if x < kept.len() {
                    assert(after[x] == kept[x]);
                }
            }
        }
    }

    /// Whether another row can be given an id.
    pub fn has_room(&self) -> (r: bool)
        ensures
            r == (self.next_id() < i64::MAX),
    {
        self.next_id < i64::MAX
    }

    /// Queues (or refreshes) a pending sync. Deduped per user, server and
    /// title: a newer intent overwrites the old one and resets the attempts.
    pub fn enqueue(
        &mut self,
        user_id: &str,
        server_id: i64,
        title_key: &str,
        match_key: &MatchKey,
        user_data: &ItemUserData,
        now: i64,
    )
        requires
            old(self).well_formed(),
            old(self).next_id() < i64::MAX,
        ensures
            final(self).well_formed(),
            final(self).rows() == enqueued(
                old(self).rows(),
                old(self).next_id(),
                user_id@,
                server_id,
                title_key@,
                match_key@,
                user_data@,
                now,
            ),
            final(self).rows().len() == old(self).rows().len() ==> final(self).next_id() == old(
                self,
            ).next_id(),
            final(self).rows().len() > old(self).rows().len() ==> final(self).next_id() == old(
                self,
            ).next_id() + 1,
    {
        let ghost before = self.rows();
        let n: usize = self.rows.len();
        for i in 0..n
            invariant
                n == self.rows.len(),
                self.rows() == before,
                *self == *old(self),
                before == old(self).rows(),
                deduped(before),
                ids_below(before, self.next_id()),
                forall|j: int|
                    0 <= j < i ==> !is_about(
                        #[trigger] before[j],
                        user_id@,
                        server_id,
                        title_key@,
                    ),
        {
            assert(before[i as int] == self.rows[i as int]@);
            if self.rows[i].is_about(user_id, server_id, title_key) {
                let row = QueueEntry {
                    id: self.rows[i].id,
                    user_id: self.rows[i].user_id.clone(),
                    server_id: self.rows[i].server_id,
                    title_key: self.rows[i].title_key.clone(),
                    match_key: match_key.copy(),
                    user_data: user_data.copy(),
                    attempts: 0,
                    updated_at: now,
                };
                self.rows.set(i, row);
                assert(self.rows() =~= enqueued(
                    before,
                    self.next_id(),
                    user_id@,
                    server_id,
                    title_key@,
                    match_key@,
                    user_data@,
                    now,
                ));
                return ;
            }
        }
        let row = QueueEntry {
            id: self.next_id,
            user_id: user_id.to_owned(),
            server_id,
            title_key: title_key.to_owned(),
            match_key: match_key.copy(),
            user_data: user_data.copy(),
            attempts: 0,
            updated_at: now,
        };
        let ghost r = row@;
        self.rows.push(row);
        self.next_id = self.next_id + 1;
        assert(self.rows() =~= before.push(r));
    }

    /// Keeps the rows at which `keep` holds.
    fn retain<F: Fn(&QueueEntry) -> bool>(&mut self, keep: F, Ghost(kept): Ghost<spec_fn(EntryView) -> bool>)
        requires
            forall|row: &QueueEntry| call_requires(keep, (row,)),
            forall|row: &QueueEntry, o: bool| call_ensures(keep, (row,), o) ==> o == kept(row@),
        ensures
            final(self).rows() == old(self).rows().filter(kept),
            final(self).next_id() == old(self).next_id(),
            old(self).well_formed() ==> final(self).well_formed(),
    {
        let ghost before = self.rows();
        let mut out: Vec<QueueEntry> = Vec::new();
        proof {
            reveal(Seq::filter);
        }
        assert(entries(out@) =~= before.take(0).filter(kept));
        for i in 0..self.rows.len()
            invariant
                forall|row: &QueueEntry| call_requires(keep, (row,)),
                forall|row: &QueueEntry, o: bool| call_ensures(keep, (row,), o) ==> o == kept(row@),
                before == entries(self.rows@),
                *self == *old(self),
                entries(out@) == before.take(i as int).filter(kept),
        {
            proof {
                reveal(Seq::filter);
            }
            let ghost so_far = entries(out@);
            assert(before.take(i + 1).drop_last() =~= before.take(i as int));
            assert(before.take(i + 1).last() == self.rows[i as int]@);
            if keep(&self.rows[i]) {
                out.push(self.rows[i].copy());
                assert(entries(out@) =~= so_far.push(self.rows[i as int]@));
            }
        }
        assert(before.take(self.rows.len() as int) =~= before);
        self.rows = out;
        proof {
            filter_keeps_the_rows_apart(before, kept, self.next_id);
        }
    }

    /// Removes the row of this user, server and title.
    pub fn remove(&mut self, user_id: &str, server_id: i64, title_key: &str)
        ensures
            final(self).rows() == old(self).rows().filter(
                |row: EntryView| !is_about(row, user_id@, server_id, title_key@),
            ),
            final(self).next_id() == old(self).next_id(),
            old(self).well_formed() ==> final(self).well_formed(),
    {
        let keep = |row: &QueueEntry| -> (o: bool)
            ensures
                o == !is_about(row@, user_id@, server_id, title_key@),
            { !row.is_about(user_id, server_id, title_key) };
        self.retain(
            keep,
            Ghost(|row: EntryView| !is_about(row, user_id@, server_id, title_key@)),
        );
    }

    /// Removes the row with the id.
    pub fn remove_by_id(&mut self, id: i64)
        ensures
            final(self).rows() == old(self).rows().filter(|row: EntryView| row.id != id),
            final(self).next_id() == old(self).next_id(),
            old(self).well_formed() ==> final(self).well_formed(),
    {
        let keep = |row: &QueueEntry| -> (o: bool)
            ensures
                o == (row@.id != id),
            { row.id != id };
        self.retain(keep, Ghost(|row: EntryView| row.id != id));
    }

    /// Drops the rows that have used up their attempts.
    pub fn purge_exhausted(&mut self)
        ensures
            final(self).rows() == old(self).rows().filter(retriable()),
            final(self).next_id() == old(self).next_id(),
            old(self).well_formed() ==> final(self).well_formed(),
    {
        let keep = |row: &QueueEntry| -> (o: bool)
            ensures
                o == (row@.attempts < MAX_RETRY_ATTEMPTS),
            { row.attempts < MAX_RETRY_ATTEMPTS };
        self.retain(keep, Ghost(retriable()));
    }

    /// Counts an attempt on the row with the id.
    pub fn bump(&mut self, id: i64, now: i64)
        requires
            forall|i: int|
                0 <= i < old(self).rows().len() && (#[trigger] old(self).rows()[i]).id == id ==> old(
                    self,
                ).rows()[i].attempts < i64::MAX,
        ensures
            final(self).rows() == bumped(old(self).rows(), id, now),
            final(self).next_id() == old(self).next_id(),
            old(self).well_formed() ==> final(self).well_formed(),
    {
        let ghost before = self.rows();
        let n: usize = self.rows.len();
        for i in 0..n
            invariant
                self.rows.len() == n,
                before == old(self).rows(),
                before.len() == n,
                self.next_id == old(self).next_id,
                forall|j: int|
                    0 <= j < n && (#[trigger] before[j]).id == id ==> before[j].attempts < i64::MAX,
                self.rows() == bumped(before, id, now).take(i as int) + before.skip(i as int),
        {
            let ghost at = self.rows();
            assert(at[i as int] == self.rows[i as int]@);
            assert(at[i as int] == before[i as int]);
            if self.rows[i].id == id {
                let mut row = self.rows[i].copy();
                row.attempts = row.attempts + 1;
                row.updated_at = now;
                let ghost r = row@;
                self.rows.set(i, row);
                assert(self.rows() =~= at.update(i as int, r));
                assert(r == bumped(before, id, now)[i as int]);
            }
            assert(self.rows() =~= bumped(before, id, now).take(i + 1) + before.skip(i + 1));
        }
        assert(self.rows() =~= bumped(before, id, now));
    }

    /// The rows that the next drain takes: those with attempts left, the
    /// longest unchanged first, [`DRAIN_LIMIT`] at most.
    pub fn list_pending(&self) -> (r: Vec<QueueEntry>)
        ensures
            entries(r@) == pending(self.rows()),
    {
        let ghost all = self.rows();
        let mut open: Vec<QueueEntry> = Vec::new();
        proof {
            reveal(Seq::filter);
        }
        assert(entries(open@) =~= all.take(0).filter(retriable()));
        for i in 0..self.rows.len()
            invariant
                all == entries(self.rows@),
                entries(open@) == all.take(i as int).filter(retriable()),
        {
            proof {
                reveal(Seq::filter);
            }
            let ghost so_far = entries(open@);
            assert(all.take(i + 1).drop_last() =~= all.take(i as int));
            assert(all.take(i + 1).last() == self.rows[i as int]@);
            if self.rows[i].attempts < MAX_RETRY_ATTEMPTS {
                open.push(self.rows[i].copy());
                assert(entries(open@) =~= so_far.push(self.rows[i as int]@));
            }
        }
        assert(all.take(self.rows.len() as int) =~= all);
        let ghost left = entries(open@);
        let le = |a: usize, b: usize| -> (o: bool)
            requires
                a < open.len(),
                b < open.len(),
            ensures
                o == (open[a as int]@.updated_at <= open[b as int]@.updated_at),
            { open[a].updated_at <= open[b].updated_at };
        let order = sorting::sort_positions(
            open.len(),
            le,
            Ghost(sorting::by_element(left, by_age())),
        );
        let ghost at = sorting::as_positions(order@);
        let ghost sorted = sorting::in_order(left, by_age());
        proof {
            sorting::in_order_at_positions(left, sorting::positions(left.len()), by_age());
            sorting::all_positions(left);
        }
        assert(sorted == sorting::at_positions(left, at));
        let n: usize = if order.len() <= DRAIN_LIMIT {
            order.len()
        } else {
            DRAIN_LIMIT
        };
        let mut out: Vec<QueueEntry> = Vec::new();
        for i in 0..n
            invariant
                n <= order.len(),
                order.len() == open.len(),
                left == entries(open@),
                at == sorting::as_positions(order@),
                sorted == sorting::at_positions(left, at),
                forall|k: int| 0 <= k < order.len() ==> #[trigger] order[k] < open.len(),
                entries(out@) == sorted.take(i as int),
        {
            let ghost so_far = entries(out@);
            out.push(open[order[i]].copy());
            assert(entries(out@) =~= so_far.push(left[at[i as int]]));
            assert(entries(out@) =~= sorted.take(i + 1));
        }
        assert(sorted.take(sorted.len() as int) =~= sorted);
        out
    }
}

/// Leaving rows out keeps the others apart.
proof fn filter_keeps_the_rows_apart(
    rows: Seq<EntryView>,
    kept: spec_fn(EntryView) -> bool,
    next: i64,
)
    ensures
        deduped(rows) && ids_below(rows, next) ==> deduped(rows.filter(kept)) && ids_below(
            rows.filter(kept),
            next,
        ),
    decreases rows.len(),
{
    reveal(Seq::filter);
    if rows.len() > 0 && deduped(rows) && ids_below(rows, next) {
        let head = rows.drop_last();
        assert(deduped(head)) by {
            assert forall|i: int, j: int| 0 <= i < j < head.len() implies !is_about(
                #[trigger] head[i],
                (#[trigger] head[j]).user_id,
                head[j].server_id,
                head[j].title_key,
            ) by {
                assert(head[i] == rows[i] && head[j] == rows[j]);
            }
        }
        assert(ids_below(head, next)) by {
            assert forall|i: int| 0 <= i < head.len() implies (#[trigger] head[i]).id < next || next
                == i64::MAX by {
                assert(head[i] == rows[i]);
            }
            assert forall|i: int, j: int| 0 <= i < j < head.len() implies (#[trigger] head[i]).id
                != (#[trigger] head[j]).id by {
                assert(head[i] == rows[i] && head[j] == rows[j]);
            }
        }
        filter_keeps_the_rows_apart(head, kept, next);
        let f = head.filter(kept);
        assert forall|i: int| 0 <= i < f.len() implies exists|k: int|
            0 <= k < head.len() && head[k] == #[trigger] f[i] by {
            head.lemma_filter_contains_rev(kept, f[i]);
        }
        if kept(rows.last()) {
            let g = rows.filter(kept);
            assert(g == f.push(rows.last()));
            assert forall|i: int, j: int| 0 <= i < j < g.len() implies !is_about(
                #[trigger] g[i],
                (#[trigger] g[j]).user_id,
                g[j].server_id,
                g[j].title_key,
            ) && g[i].id != g[j].id by {
                if j == f.len() {
                    let k = choose|k: int| 0 <= k < head.len() && head[k] == f[i];
                    assert(rows[k] == g[i]);
                    assert(rows[rows.len() - 1] == g[j]);
                } else {
                    assert(g[i] == f[i] && g[j] == f[j]);
                }
            }
            assert forall|i: int| 0 <= i < g.len() implies (#[trigger] g[i]).id < next || next
                == i64::MAX by {
                if i < f.len() {
                    assert(g[i] == f[i]);
                } else {
                    assert(rows[rows.len() - 1] == g[i]);
                }
            }
        }
    }
}

/// Rows that do not clash are restored as they were stored.
pub proof fn rows_that_agree_are_restored(rows: Seq<EntryView>)
    requires
        forall|i: int, j: int|
            0 <= i < j < rows.len() ==> !clash(#[trigger] rows[i], #[trigger] rows[j]),
    ensures
        kept_rows(rows) == rows,
    decreases rows.len(),
{
    if rows.len() > 0 {
        let head = rows.drop_last();
        assert forall|i: int, j: int| 0 <= i < j < head.len() implies !clash(
            #[trigger] head[i],
            #[trigger] head[j],
        ) by {
            assert(head[i] == rows[i] && head[j] == rows[j]);
        }
        rows_that_agree_are_restored(head);
        let keep = |r: EntryView| !clash(r, rows.last());
        assert forall|i: int| 0 <= i < head.len() implies keep(#[trigger] head[i]) by {
            assert(!clash(rows[i], rows[rows.len() - 1]));
        }
        sorting::nothing_left_out(head, keep);
        assert(head.push(rows.last()) =~= rows);
    } else {
        assert(kept_rows(rows) =~= rows);
    }
}

/// After a sync was queued there is exactly one row of its user, server and
/// title. It holds the newest intent, with no attempt counted, and every other
/// row is as it was.
pub proof fn newest_intent_is_queued(
    rows: Seq<EntryView>,
    next: i64,
    user_id: Seq<char>,
    server_id: i64,
    title_key: Seq<char>,
    match_key: MatchKeyView,
    user_data: UserDataView,
    now: i64,
)
    requires
        deduped(rows),
    ensures
        ({
            let after = enqueued(
                rows,
                next,
                user_id,
                server_id,
                title_key,
                match_key,
                user_data,
                now,
            );
            &&& deduped(after)
            &&& exists|i: int|
                0 <= i < after.len() && is_about(#[trigger] after[i], user_id, server_id, title_key)
            &&& forall|i: int|
                0 <= i < after.len() && is_about(
                    #[trigger] after[i],
                    user_id,
                    server_id,
                    title_key,
                ) ==> after[i].match_key == match_key && after[i].user_data == user_data
                    && after[i].attempts == 0 && after[i].updated_at == now
            &&& forall|i: int|
                0 <= i < rows.len() && !is_about(
                    #[trigger] rows[i],
                    user_id,
                    server_id,
                    title_key,
                ) ==> after[i] == rows[i]
        }),
{
    let after = enqueued(rows, next, user_id, server_id, title_key, match_key, user_data, now);
    if exists|i: int| 0 <= i < rows.len() && is_about(#[trigger] rows[i], user_id, server_id, title_key) {
        let i = choose|i: int|
            0 <= i < rows.len() && is_about(#[trigger] rows[i], user_id, server_id, title_key);
        assert(is_about(after[i], user_id, server_id, title_key));
        assert forall|x: int, y: int| 0 <= x < y < after.len() implies !is_about(
            #[trigger] after[x],
            (#[trigger] after[y]).user_id,
            after[y].server_id,
            after[y].title_key,
        ) by {
            assert(!is_about(rows[x], rows[y].user_id, rows[y].server_id, rows[y].title_key));
        }
    } else {
        assert(is_about(after[rows.len() as int], user_id, server_id, title_key));
        assert forall|x: int, y: int| 0 <= x < y < after.len() implies !is_about(
            #[trigger] after[x],
            (#[trigger] after[y]).user_id,
            after[y].server_id,
            after[y].title_key,
        ) by {
            assert(after[x] == rows[x]);
            if y < rows.len() {
                assert(after[y] == rows[y]);
            }
        }
    }
}

/// A drain takes rows of the queue that have attempts left, the longest
/// unchanged first, and no more than its limit of them.
pub proof fn drains_take_retriable_rows(rows: Seq<EntryView>)
    ensures
        pending(rows).len() <= DRAIN_LIMIT,
        forall|i: int|
            0 <= i < pending(rows).len() ==> rows.contains(#[trigger] pending(rows)[i])
                && pending(rows)[i].attempts < MAX_RETRY_ATTEMPTS,
        forall|i: int, j: int|
            0 <= i < j < pending(rows).len() ==> (#[trigger] pending(rows)[i]).updated_at <= (
            #[trigger] pending(rows)[j]).updated_at,
{
    let left = rows.filter(retriable());
    let sorted = sorting::in_order(left, by_age());
    sorting::in_order_sorted(left, by_age());
    assert forall|i: int, j: int| 0 <= i < j < pending(rows).len() implies (#[trigger] pending(
        rows,
    )[i]).updated_at <= (#[trigger] pending(rows)[j]).updated_at by {
        assert(by_age()(sorted[i], sorted[j]));
    }
    assert forall|i: int| 0 <= i < pending(rows).len() implies rows.contains(
        #[trigger] pending(rows)[i],
    ) && pending(rows)[i].attempts < MAX_RETRY_ATTEMPTS by {
        let x = pending(rows)[i];
        broadcast use group_to_multiset_ensures;

        assert(sorted[i] == x);
        assert(sorted.to_multiset().count(x) > 0);
        assert(left.contains(x));
        let k = choose|k: int| 0 <= k < left.len() && left[k] == x;
        rows.lemma_filter_pred(retriable(), k);
        rows.lemma_filter_contains_rev(retriable(), x);
    }
}

/// Rows that have used up their attempts are never drained: dropping them
/// changes nothing about what a drain takes.
pub proof fn purging_keeps_what_is_pending(rows: Seq<EntryView>)
    ensures
        pending(rows.filter(retriable())) == pending(rows),
{
    filter_twice(rows);
}

proof fn filter_twice(rows: Seq<EntryView>)
    ensures
        rows.filter(retriable()).filter(retriable()) == rows.filter(retriable()),
    decreases rows.len(),
{
    reveal(Seq::filter);
    if rows.len() > 0 {
        filter_twice(rows.drop_last());
        let f = rows.drop_last().filter(retriable());
        if retriable()(rows.last()) {
            assert(f.push(rows.last()).drop_last() =~= f);
        }
    }
}

/// A sync of a user, server and title that is queued already refreshes its row,
/// which keeps its place and its id; any other becomes a new row at the end,
/// with the next id.
pub proof fn a_title_is_queued_once(
    rows: Seq<EntryView>,
    next: i64,
    user_id: Seq<char>,
    server_id: i64,
    title_key: Seq<char>,
    match_key: MatchKeyView,
    user_data: UserDataView,
    now: i64,
)
    ensures
        ({
            let after = enqueued(
                rows,
                next,
                user_id,
                server_id,
                title_key,
                match_key,
                user_data,
                now,
            );
            let about = |r: EntryView|
                r.user_id == user_id && r.server_id == server_id && r.title_key == title_key;
            let queued = exists|i: int| 0 <= i < rows.len() && about(#[trigger] rows[i]);
            &&& after.len() == rows.len() + if queued {
                0int
            } else {
                1
            }
            &&& forall|i: int|
                0 <= i < rows.len() ==> (#[trigger] after[i]).id == rows[i].id && after[i].user_id
                    == rows[i].user_id && after[i].server_id == rows[i].server_id
                    && after[i].title_key == rows[i].title_key
            &&& forall|i: int|
                0 <= i < rows.len() && !about(rows[i]) ==> #[trigger] after[i] == rows[i]
            &&& forall|i: int|
                0 <= i < rows.len() && about(rows[i]) ==> (#[trigger] after[i]).match_key
                    == match_key && after[i].user_data == user_data && after[i].attempts == 0
                    && after[i].updated_at == now
            &&& !queued ==> after.last() == (EntryView {
                id: next,
                user_id,
                server_id,
                title_key,
                match_key,
                user_data,
                attempts: 0,
                updated_at: now,
            })
        }),
{
    let about = |r: EntryView|
        r.user_id == user_id && r.server_id == server_id && r.title_key == title_key;
    assert forall|i: int| 0 <= i < rows.len() implies about(#[trigger] rows[i]) == is_about(
        rows[i],
        user_id,
        server_id,
        title_key,
    ) by {}
    if exists|i: int| 0 <= i < rows.len() && about(#[trigger] rows[i]) {
        let i = choose|i: int| 0 <= i < rows.len() && about(#[trigger] rows[i]);
        assert(is_about(rows[i], user_id, server_id, title_key));
    }
}

/// Counting an attempt changes the row with the id, by one attempt and the time,
/// and nothing else.
pub proof fn an_attempt_counts_on_one_row(rows: Seq<EntryView>, id: i64, now: i64)
    ensures
        ({
            let after = bumped(rows, id, now);
            &&& after.len() == rows.len()
            &&& forall|i: int|
                0 <= i < rows.len() && rows[i].id != id ==> #[trigger] after[i] == rows[i]
            &&& forall|i: int|
                0 <= i < rows.len() && rows[i].id == id && rows[i].attempts < i64::MAX ==> (
                #[trigger] after[i]) == (EntryView {
                    attempts: (rows[i].attempts + 1) as i64,
                    updated_at: now,
                    ..rows[i]
                }) && after[i].attempts == rows[i].attempts + 1
        }),
{
}

/// No row with fewer than sixty attempts is passed over by a drain but for ones
/// that changed longest ago, and these five hundred in number: a row that is
/// left out finds the drain full of rows that are no newer. What is taken is
/// taken once.
pub proof fn a_drain_takes_all_it_can(rows: Seq<EntryView>)
    ensures
        ({
            let open = rows.filter(|r: EntryView| r.attempts < 60);
            let taken = pending(rows);
            &&& open.len() <= 500 ==> taken.to_multiset() == open.to_multiset()
            &&& open.len() > 500 ==> taken.len() == 500 && taken.to_multiset().subset_of(
                open.to_multiset(),
            )
            &&& forall|i: int|
                0 <= i < rows.len() && (#[trigger] rows[i]).attempts < 60 && !taken.contains(
                    rows[i],
                ) ==> taken.len() == 500 && forall|k: int|
                    0 <= k < taken.len() ==> (#[trigger] taken[k]).updated_at <= rows[i].updated_at
        }),
{
    broadcast use group_to_multiset_ensures;

    let keep = |r: EntryView| r.attempts < 60;
    assert(keep =~= retriable());
    let open = rows.filter(keep);
    let sorted = sorting::in_order(open, by_age());
    let taken = pending(rows);
    sorting::in_order_sorted(open, by_age());
    assert(sorted.to_multiset().len() == open.to_multiset().len());
    if open.len() > 500 {
        assert(sorted =~= taken + sorted.skip(500));
        lemma_multiset_commutative(taken, sorted.skip(500));
        assert forall|x: EntryView| #[trigger] taken.to_multiset().count(x) <= open.to_multiset().count(
            x,
        ) by {
            assert(sorted.to_multiset() == taken.to_multiset().add(sorted.skip(500).to_multiset()));
        }
    }
    assert forall|i: int|
        0 <= i < rows.len() && (#[trigger] rows[i]).attempts < 60 && !taken.contains(
            rows[i],
        ) implies taken.len() == 500 && forall|k: int|
        0 <= k < taken.len() ==> (#[trigger] taken[k]).updated_at <= rows[i].updated_at by {
        rows.lemma_filter_contains(keep, i);
        assert(open.contains(rows[i]));
        assert(sorted.to_multiset().count(rows[i]) > 0);
        assert(sorted.contains(rows[i]));
        let m = choose|m: int| 0 <= m < sorted.len() && sorted[m] == rows[i];
        if sorted.len() <= 500 || m < 500 {
            assert(taken[m] == rows[i]);
            assert(taken.contains(rows[i]));
        }
        assert forall|k: int| 0 <= k < taken.len() implies (#[trigger] taken[k]).updated_at
            <= rows[i].updated_at by {
            assert(taken[k] == sorted[k]);
            assert(by_age()(sorted[k], sorted[m]));
        }
    }
}

/// Whether no later row takes the place of the one at `i`: none has its id or is
/// of its user, server and title.
pub open spec fn stays(rows: Seq<EntryView>, i: int) -> bool {
    forall|j: int|
        i < j < rows.len() ==> (#[trigger] rows[j]).id != rows[i].id && !(rows[j].user_id
            == rows[i].user_id && rows[j].server_id == rows[i].server_id && rows[j].title_key
            == rows[i].title_key)
}

/// Of stored rows exactly those are restored whose place no later row takes, in
/// their order. Gives the places that they had.
pub proof fn later_rows_take_the_place_of_earlier_ones(rows: Seq<EntryView>) -> (at: Seq<int>)
    ensures
        at.len() == kept_rows(rows).len(),
        forall|k: int|
            0 <= k < at.len() ==> 0 <= #[trigger] at[k] < rows.len() && stays(rows, at[k])
                && kept_rows(rows)[k] == rows[at[k]],
        forall|j: int, k: int| 0 <= j < k < at.len() ==> #[trigger] at[j] < #[trigger] at[k],
        forall|i: int|
            0 <= i < rows.len() && #[trigger] stays(rows, i) ==> at.contains(i),
    decreases rows.len(),
{
    if rows.len() == 0 {
        Seq::empty()
    } else {
        let head = rows.drop_last();
        let n = rows.len() - 1;
        let before = later_rows_take_the_place_of_earlier_ones(head);
        let old_rows = kept_rows(head);
        let keep = |r: EntryView| !clash(r, rows.last());
        let picked = sorting::kept_places(old_rows, keep);
        let mapped = picked.map_values(|k: int| before[k]);
        let at = mapped.push(n);
        let kept = old_rows.filter(keep);
        assert(kept_rows(rows) == kept.push(rows.last()));
        assert forall|k: int| 0 <= k < at.len() implies 0 <= #[trigger] at[k] < rows.len() && stays(
            rows,
            at[k],
        ) && kept_rows(rows)[k] == rows[at[k]] by {
            if k < kept.len() {
                assert(at[k] == before[picked[k]]);
                assert(kept[k] == old_rows[picked[k]]);
                assert(old_rows[picked[k]] == head[before[picked[k]]]);
                assert(rows[at[k]] == head[at[k]]);
                old_rows.lemma_filter_pred(keep, k);
                assert(stays(head, before[picked[k]]));
                assert forall|j: int| at[k] < j < rows.len() implies (#[trigger] rows[j]).id
                    != rows[at[k]].id && !(rows[j].user_id == rows[at[k]].user_id
                    && rows[j].server_id == rows[at[k]].server_id && rows[j].title_key
                    == rows[at[k]].title_key) by {
                    if j < n {
                        assert(head[j] == rows[j]);
                    }
                }
            }
        }
        assert forall|j: int, k: int| 0 <= j < k < at.len() implies #[trigger] at[j]
            < #[trigger] at[k] by {
            assert(at[j] == before[picked[j]]);
            if k < kept.len() {
                assert(at[k] == before[picked[k]]);
                assert(picked[j] < picked[k]);
            }
        }
        assert forall|i: int| 0 <= i < rows.len() && #[trigger] stays(rows, i) implies at.contains(
            i,
        ) by {
            if i == n {
                assert(at[kept.len() as int] == n);
            } else {
                assert(head[i] == rows[i]);
                assert(stays(head, i)) by {
                    assert forall|j: int| i < j < head.len() implies (#[trigger] head[j]).id
                        != head[i].id && !(head[j].user_id == head[i].user_id && head[j].server_id
                        == head[i].server_id && head[j].title_key == head[i].title_key) by {
                        assert(head[j] == rows[j]);
                    }
                }
                assert(before.contains(i));
                let k = choose|k: int| 0 <= k < before.len() && before[k] == i;
                assert(old_rows[k] == rows[i]);
                assert(rows[n].id != rows[i].id);
                assert(keep(old_rows[k]));
                assert(picked.contains(k));
                let p = choose|p: int| 0 <= p < picked.len() && picked[p] == k;
                assert(at[p] == i);
            }
        }
        at
    }
}

/// The next id is the least from one on that is above every stored one, as far
/// as ids go.
pub proof fn the_next_id_is_above_all_stored(rows: Seq<EntryView>)
    ensures
        next_after(rows) >= 1,
        forall|i: int|
            0 <= i < rows.len() ==> (#[trigger] rows[i]).id < next_after(rows) || next_after(rows)
                == i64::MAX,
        next_after(rows) > 1 ==> exists|i: int|
            0 <= i < rows.len() && ((#[trigger] rows[i]).id == next_after(rows) - 1 || rows[i].id
                == i64::MAX),
    decreases rows.len(),
{
    if rows.len() > 0 {
        let head = rows.drop_last();
        let n = rows.len() - 1;
        the_next_id_is_above_all_stored(head);
        assert forall|i: int| 0 <= i < rows.len() implies (#[trigger] rows[i]).id < next_after(rows)
            || next_after(rows) == i64::MAX by {
            if i < n {
                assert(head[i] == rows[i]);
            }
        }
        if next_after(rows) > 1 {
            if next_after(head) > rows[n].id {
                let i = choose|i: int|
                    0 <= i < head.len() && ((#[trigger] head[i]).id == next_after(head) - 1
                        || head[i].id == i64::MAX);
                assert(rows[i] == head[i]);
            } else {
                assert(rows[n].id == next_after(rows) - 1 || rows[n].id == i64::MAX);
            }
        }
    }
}

/// A row is retried up to sixty attempts, and a drain takes five hundred rows at
/// most.
pub proof fn queue_limits()
    ensures
        MAX_RETRY_ATTEMPTS == 60,
        DRAIN_LIMIT == 500,
{
}

}
