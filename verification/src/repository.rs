//! The process table and its query and update semantics.
//!
//! The dispatcher owns one relational table of processes. This module models
//! that table as an explicit sequence of rows and verifies the semantics of
//! every query and write the dispatcher issues against it: newest row per
//! source, oldest claimable row per source, claimable sources for a
//! supervisor, inserting a fresh process, and the atomic assignment write.
//! The binary runs the same statements against the real database; the
//! contracts here are what the dispatcher logic relies on.

use vstd::prelude::*;
use vstd::string::StringExecFns;
use crate::dispatcher::{DispatchState, DispatcherError, ProcessingMode};
use crate::dispatch_time::MAX_EPOCH_MILLIS;

verus! {

/// One row of the processes table.
#[derive(Clone, Copy, Debug, PartialEq, Eq)]
pub struct ProcessRow {
    pub uuid: u128,
    pub source_id: u32,
    pub state: DispatchState,
    pub mode: ProcessingMode,
    pub supervisor_id: Option<u128>,
    pub created_at_ms: i64,
}

/// A row any supervisor may take: created or pending.
pub open spec fn row_claimable(r: ProcessRow) -> bool {
    r.state == DispatchState::Created || r.state == DispatchState::Pending
}

/// A row supervisor `sup` may take: created or pending and unassigned, or
/// an errored row that the same supervisor last held.
pub open spec fn row_claimable_for(r: ProcessRow, sup: u128) -> bool {
    ||| (row_claimable(r) && r.supervisor_id is None)
    ||| (r.state == DispatchState::Error && r.supervisor_id == Some(sup))
}

/// Well-formedness of a row sequence: unique primary keys, every processing
/// row carries its supervisor, timestamps in the representable range.
pub open spec fn rows_wf(rows: Seq<ProcessRow>) -> bool {
    &&& forall|i: int, j: int| 0 <= i < j < rows.len() ==> rows[i].uuid != rows[j].uuid
    &&& forall|i: int|
        0 <= i < rows.len() ==> ((#[trigger] rows[i]).state == DispatchState::Processing
            ==> rows[i].supervisor_id is Some)
    &&& forall|i: int|
        0 <= i < rows.len() ==> 0 <= (#[trigger] rows[i]).created_at_ms <= MAX_EPOCH_MILLIS
}

/// The newest row for `sid`, by `created_at`; on equal timestamps the row
/// inserted later wins.
pub open spec fn spec_latest_in(rows: Seq<ProcessRow>, sid: u32) -> Option<ProcessRow>
    decreases rows.len(),
{
    if rows.len() == 0 {
        None
    } else {
        let prev = spec_latest_in(rows.drop_last(), sid);
        let last = rows.last();
        if last.source_id == sid && (prev is None || prev.unwrap().created_at_ms
            <= last.created_at_ms) {
            Some(last)
        } else {
            prev
        }
    }
}

/// The newest row for a source is a row of the table for that source.
pub proof fn lemma_latest_in_membership(rows: Seq<ProcessRow>, sid: u32)
    ensures
        spec_latest_in(rows, sid) matches Some(p) ==> p.source_id == sid && exists|i: int|
            0 <= i < rows.len() && rows[i] == p,
    decreases rows.len(),
{
    if rows.len() > 0 {
        lemma_latest_in_membership(rows.drop_last(), sid);
        if spec_latest_in(rows, sid) is Some {
            let p = spec_latest_in(rows, sid).unwrap();
            if rows.last().source_id == sid && (spec_latest_in(rows.drop_last(), sid) is None
                || spec_latest_in(rows.drop_last(), sid).unwrap().created_at_ms
                <= rows.last().created_at_ms) {
                assert(rows[rows.len() - 1] == p);
            } else {
                let i = choose|i: int|
                    0 <= i < rows.drop_last().len() && rows.drop_last()[i] == p;
                assert(rows[i] == p);
            }
        }
    }
}

/// Inserting a row no older than every present row makes it the newest row
/// of its source.
pub proof fn lemma_insert_then_latest(rows: Seq<ProcessRow>, row: ProcessRow)
    requires
        forall|i: int| 0 <= i < rows.len() ==> (#[trigger] rows[i]).created_at_ms
            <= row.created_at_ms,
    ensures
        spec_latest_in(rows.push(row), row.source_id) == Some(row),
{
    let pushed = rows.push(row);
    assert(pushed.drop_last() =~= rows);
    lemma_latest_in_membership(rows, row.source_id);
}

/// The oldest claimable row for `sid`, by `created_at`; on equal timestamps
/// the row inserted earlier wins.
pub open spec fn spec_oldest_claimable_in(rows: Seq<ProcessRow>, sid: u32) -> Option<ProcessRow>
    decreases rows.len(),
{
    if rows.len() == 0 {
        None
    } else {
        let prev = spec_oldest_claimable_in(rows.drop_last(), sid);
        let last = rows.last();
        if last.source_id == sid && row_claimable(last) && (prev is None
            || last.created_at_ms < prev.unwrap().created_at_ms) {
            Some(last)
        } else {
            prev
        }
    }
}

/// Whether the row attributes `(ms, idx)` lie strictly after `bound` in
/// (created_at, table position) order.
pub open spec fn after_bound(ms: int, idx: int, bound: Option<(int, int)>) -> bool {
    match bound {
        None => true,
        Some(b) => ms > b.0 || (ms == b.0 && idx > b.1),
    }
}

/// Position, among the first `n` rows, of the least claimable row for `sid`
/// in (created_at, position) order that lies strictly after `bound`.
pub open spec fn spec_next_claimable_index(
    rows: Seq<ProcessRow>,
    sid: u32,
    bound: Option<(int, int)>,
    n: int,
) -> Option<int>
    decreases n,
{
    if n <= 0 {
        None
    } else {
        let prev = spec_next_claimable_index(rows, sid, bound, n - 1);
        let i = n - 1;
        if rows[i].source_id == sid && row_claimable(rows[i]) && after_bound(
            rows[i].created_at_ms as int,
            i,
            bound,
        ) && (prev is None || rows[i].created_at_ms < rows[prev.unwrap()].created_at_ms) {
            Some(i)
        } else {
            prev
        }
    }
}

/// Positions of the claimable rows for `sid` strictly after `bound`, in
/// ascending (created_at, position) order, capped at `limit`.
pub open spec fn spec_claimable_chain(
    rows: Seq<ProcessRow>,
    sid: u32,
    limit: int,
    bound: Option<(int, int)>,
) -> Seq<int>
    decreases limit,
{
    if limit <= 0 {
        Seq::empty()
    } else {
        match spec_next_claimable_index(rows, sid, bound, rows.len() as int) {
            None => Seq::empty(),
            Some(i) => seq![i] + spec_claimable_chain(
                rows,
                sid,
                limit - 1,
                Some((rows[i].created_at_ms as int, i)),
            ),
        }
    }
}

/// The claimable rows for `sid`, oldest first with earlier-inserted rows
/// winning timestamp ties, capped at `limit`.
pub open spec fn spec_claimable_processes(
    rows: Seq<ProcessRow>,
    sid: u32,
    limit: int,
) -> Seq<ProcessRow> {
    spec_claimable_chain(rows, sid, limit, None).map_values(|i: int| rows[i])
}

/// The source ids of the first `limit` rows from position `i` on that are
/// claimable for `sup`, in table order. The dispatcher appends rows in
/// creation order, so table order is creation order.
pub open spec fn spec_claimable_sources_from(
    rows: Seq<ProcessRow>,
    sup: u128,
    limit: int,
    i: int,
) -> Seq<u32>
    decreases rows.len() - i,
{
    if i < 0 || i >= rows.len() || limit <= 0 {
        Seq::empty()
    } else if row_claimable_for(rows[i], sup) {
        seq![rows[i].source_id] + spec_claimable_sources_from(rows, sup, limit - 1, i + 1)
    } else {
        spec_claimable_sources_from(rows, sup, limit, i + 1)
    }
}

/// Among the first `n` rows, unbounded below, the next claimable position
/// denotes exactly the oldest claimable row of that prefix.
proof fn lemma_next_claimable_matches_oldest(rows: Seq<ProcessRow>, sid: u32, n: int)
    requires
        0 <= n <= rows.len(),
    ensures
        match spec_next_claimable_index(rows, sid, None, n) {
            None => spec_oldest_claimable_in(rows.subrange(0, n), sid) is None,
            Some(i) => 0 <= i < n && spec_oldest_claimable_in(rows.subrange(0, n), sid) == Some(
                rows[i],
            ),
        },
    decreases n,
{
    if n > 0 {
        lemma_next_claimable_matches_oldest(rows, sid, n - 1);
        let pre = rows.subrange(0, n - 1);
        let cur = rows.subrange(0, n);
        assert(cur.drop_last() =~= pre);
        assert(cur.last() == rows[n - 1]);
    }
}

/// The limit-one instance of the claimable-process query is exactly its
/// oldest claimable row.
pub proof fn lemma_claimable_processes_limit_one(rows: Seq<ProcessRow>, sid: u32)
    ensures
        spec_claimable_processes(rows, sid, 1) == (match spec_oldest_claimable_in(rows, sid) {
            None => Seq::<ProcessRow>::empty(),
            Some(row) => seq![row],
        }),
{
    lemma_next_claimable_matches_oldest(rows, sid, rows.len() as int);
    assert(rows.subrange(0, rows.len() as int) =~= rows);
    match spec_next_claimable_index(rows, sid, None, rows.len() as int) {
        None => {
            assert(spec_claimable_chain(rows, sid, 1, None) =~= Seq::<int>::empty());
            assert(spec_claimable_processes(rows, sid, 1) =~= Seq::<ProcessRow>::empty());
        },
        Some(i) => {
            assert(spec_claimable_chain(rows, sid, 0, Some((rows[i].created_at_ms as int, i)))
                =~= Seq::<int>::empty());
            assert(spec_claimable_chain(rows, sid, 1, None) =~= seq![i]);
            assert(spec_claimable_processes(rows, sid, 1) =~= seq![rows[i]]);
        },
    }
}

/// Every position the selection picks lies strictly after its bound.
proof fn lemma_next_claimable_after_bound(
    rows: Seq<ProcessRow>,
    sid: u32,
    bound: Option<(int, int)>,
    n: int,
)
    ensures
        spec_next_claimable_index(rows, sid, bound, n) matches Some(i) ==> after_bound(
            rows[i].created_at_ms as int,
            i,
            bound,
        ),
    decreases n,
{
    if n > 0 {
        lemma_next_claimable_after_bound(rows, sid, bound, n - 1);
    }
}

/// The claimable-process query returns rows in ascending creation order:
/// every selected position lies strictly after `bound` in (created_at,
/// position) order, and the timestamps along the selection never decrease.
pub proof fn lemma_claimable_chain_sorted(
    rows: Seq<ProcessRow>,
    sid: u32,
    limit: int,
    bound: Option<(int, int)>,
)
    ensures
        ({
            let chain = spec_claimable_chain(rows, sid, limit, bound);
            &&& forall|p: int|
                0 <= p < chain.len() ==> after_bound(
                    rows[#[trigger] chain[p]].created_at_ms as int,
                    chain[p],
                    bound,
                )
            &&& forall|p: int, q: int|
                0 <= p < q < chain.len() ==> rows[#[trigger] chain[p]].created_at_ms
                    <= rows[#[trigger] chain[q]].created_at_ms
        }),
    decreases limit,
{
    let chain = spec_claimable_chain(rows, sid, limit, bound);
    if limit > 0 {
        match spec_next_claimable_index(rows, sid, bound, rows.len() as int) {
            None => {},
            Some(i) => {
                lemma_next_claimable_after_bound(rows, sid, bound, rows.len() as int);
                let bound1 = Some((rows[i].created_at_ms as int, i));
                lemma_claimable_chain_sorted(rows, sid, limit - 1, bound1);
                let rest = spec_claimable_chain(rows, sid, limit - 1, bound1);
                assert(chain == seq![i] + rest);
                assert(chain[0] == i);
                assert(forall|p: int| 0 <= p < rest.len() ==> chain[p + 1] == rest[p]);
                assert forall|p: int| 0 <= p < chain.len() implies after_bound(
                    rows[#[trigger] chain[p]].created_at_ms as int,
                    chain[p],
                    bound,
                ) by {
                    if p > 0 {
                        assert(after_bound(
                            rows[rest[p - 1]].created_at_ms as int,
                            rest[p - 1],
                            bound1,
                        ));
                        assert(rows[chain[p]].created_at_ms >= rows[i].created_at_ms);
                        assert(after_bound(rows[i].created_at_ms as int, i, bound));
                    }
                }
                assert forall|p: int, q: int|
                    0 <= p < q < chain.len() implies rows[#[trigger] chain[p]].created_at_ms
                    <= rows[#[trigger] chain[q]].created_at_ms by {
                    if p == 0 {
                        assert(after_bound(
                            rows[rest[q - 1]].created_at_ms as int,
                            rest[q - 1],
                            bound1,
                        ));
                    } else {
                        assert(rows[rest[p - 1]].created_at_ms <= rows[rest[q - 1]].created_at_ms);
                    }
                }
            },
        }
    }
}

/// The row sequence after the assignment write: the row keyed `id`, if
/// present, now carries `Some(sup)` and the new state; everything else is
/// untouched.
pub open spec fn spec_assign_rows(
    rows: Seq<ProcessRow>,
    id: u128,
    sup: u128,
    st: DispatchState,
) -> Seq<ProcessRow> {
    if exists|i: int| 0 <= i < rows.len() && rows[i].uuid == id {
        let i = choose|i: int| 0 <= i < rows.len() && rows[i].uuid == id;
        rows.update(
            i,
            ProcessRow { supervisor_id: Some(sup), state: st, ..rows[i] },
        )
    } else {
        rows
    }
}

/// Relies on uuid's `Uuid::new_v4` and `as_u128`: a freshly drawn random
/// version-4 UUID, as its 128-bit value. The draw is random, so nothing
/// further is assumed of the result.
#[verifier::external_body]
fn new_v4_u128() -> u128 {
    uuid::Uuid::new_v4().as_u128()
}

/// The dispatcher's process table.
pub struct ProcessTable {
    pub rows: Vec<ProcessRow>,
}

impl ProcessTable {
    pub open spec fn wf(self) -> bool {
        rows_wf(self.rows@)
    }

    pub open spec fn spec_contains_uuid(self, u: u128) -> bool {
        exists|i: int| 0 <= i < self.rows@.len() && self.rows@[i].uuid == u
    }

    pub fn new() -> (r: Self)
        ensures
            r.wf(),
            r.rows@.len() == 0,
    {
        ProcessTable { rows: Vec::new() }
    }

    /// Whether the table is well formed; the verified operations preserve
    /// this, so it only needs checking on externally built tables.
    pub fn check_wf(&self) -> (r: bool)
        ensures
            r == self.wf(),
    {
        let n = self.rows.len();
        let mut i: usize = 0;
        while i < n
            invariant
                n == self.rows@.len(),
                0 <= i <= n,
                forall|p: int, q: int| 0 <= p < q < i ==> self.rows@[p].uuid != self.rows@[q].uuid,
                forall|p: int|
                    0 <= p < i ==> ((#[trigger] self.rows@[p]).state == DispatchState::Processing
                        ==> self.rows@[p].supervisor_id is Some),
                forall|p: int|
                    0 <= p < i ==> 0 <= (#[trigger] self.rows@[p]).created_at_ms
                        <= MAX_EPOCH_MILLIS,
            decreases n - i,
        {
            let r = self.rows[i];
            if matches!(r.state, DispatchState::Processing) && r.supervisor_id.is_none() {
                return false;
            }
            if !(0 <= r.created_at_ms && r.created_at_ms <= MAX_EPOCH_MILLIS) {
                return false;
            }
            let mut j: usize = 0;
            while j < i
                invariant
                    n == self.rows@.len(),
                    0 <= j <= i < n,
                    forall|q: int| 0 <= q < j ==> self.rows@[q].uuid != self.rows@[i as int].uuid,
                decreases i - j,
            {
                if self.rows[j].uuid == self.rows[i].uuid {
                    return false;
                }
                j += 1;
            }
            i += 1;
        }
        true
    }

    pub fn contains_uuid(&self, u: u128) -> (r: bool)
        ensures
            r == self.spec_contains_uuid(u),
    {
        let n = self.rows.len();
        let mut i: usize = 0;
        while i < n
            invariant
                n == self.rows@.len(),
                0 <= i <= n,
                forall|j: int| 0 <= j < i ==> self.rows@[j].uuid != u,
            decreases n - i,
        {
            if self.rows[i].uuid == u {
                return true;
            }
            i += 1;
        }
        false
    }

    /// The newest row for `source_id`, across terminal and active states.
    pub fn get_latest_process_for(&self, source_id: u32) -> (r: Option<ProcessRow>)
        ensures
            r == spec_latest_in(self.rows@, source_id),
    {
        let n = self.rows.len();
        let mut best: Option<ProcessRow> = None;
        let mut i: usize = 0;
        while i < n
            invariant
                n == self.rows@.len(),
                0 <= i <= n,
                best == spec_latest_in(self.rows@.subrange(0, i as int), source_id),
            decreases n - i,
        {
            proof {
                let pre = self.rows@.subrange(0, i as int);
                let post = self.rows@.subrange(0, i + 1);
                assert(post.drop_last() =~= pre);
                assert(post.last() == self.rows@[i as int]);
            }
            let row = self.rows[i];
            let take = row.source_id == source_id && (match best {
                Option::None => true,
                Option::Some(b) => b.created_at_ms <= row.created_at_ms,
            });
            if take {
                best = Some(row);
            }
            i += 1;
        }
        proof {
            assert(self.rows@.subrange(0, n as int) =~= self.rows@);
        }
        best
    }

    /// The oldest claimable (created or pending) row for `source_id`: the
    /// first row of the claimable-process stream when it is capped at one.
    pub fn get_available_source_process(&self, source_id: u32) -> (r: Option<ProcessRow>)
        ensures
            r == spec_oldest_claimable_in(self.rows@, source_id),
    {
        let n = self.rows.len();
        let mut best: Option<ProcessRow> = None;
        let mut i: usize = 0;
        while i < n
            invariant
                n == self.rows@.len(),
                0 <= i <= n,
                best == spec_oldest_claimable_in(self.rows@.subrange(0, i as int), source_id),
            decreases n - i,
        {
            proof {
                let pre = self.rows@.subrange(0, i as int);
                let post = self.rows@.subrange(0, i + 1);
                assert(post.drop_last() =~= pre);
                assert(post.last() == self.rows@[i as int]);
            }
            let row = self.rows[i];
            let take = row.source_id == source_id && (matches!(
                row.state,
                DispatchState::Created | DispatchState::Pending,
            )) && (match best {
                Option::None => true,
                Option::Some(b) => row.created_at_ms < b.created_at_ms,
            });
            if take {
                best = Some(row);
            }
            i += 1;
        }
        proof {
            assert(self.rows@.subrange(0, n as int) =~= self.rows@);
        }
        best
    }

    /// Up to `limit` claimable (created or pending) rows for `source_id`,
    /// ordered by `created_at` ascending with earlier-inserted rows first on
    /// ties: the general form of the claimable-process stream, of which
    /// `get_available_source_process` is the limit-one instance.
    pub fn get_available_source_processes(&self, source_id: u32, limit: usize) -> (r: Vec<
        ProcessRow,
    >)
        ensures
            r@ == spec_claimable_processes(self.rows@, source_id, limit as int),
            r@.len() <= limit,
    {
        let n = self.rows.len();
        let mut out: Vec<ProcessRow> = Vec::new();
        let mut bound_ms: i64 = 0;
        let mut bound_idx: usize = 0;
        let mut have_bound = false;
        let mut done = false;
        let ghost mut gbound: Option<(int, int)> = None;
        let ghost mut taken: Seq<int> = Seq::empty();
        proof {
            assert(Seq::<int>::empty() + spec_claimable_chain(
                self.rows@,
                source_id,
                limit as int,
                gbound,
            ) =~= spec_claimable_chain(self.rows@, source_id, limit as int, None));
        }
        while !done && out.len() < limit
            invariant
                n == self.rows@.len(),
                out@.len() == taken.len(),
                out@.len() <= limit,
                forall|j: int| 0 <= j < taken.len() ==> 0 <= #[trigger] taken[j] < n,
                forall|j: int| 0 <= j < taken.len() ==> out@[j] == self.rows@[taken[j]],
                gbound == (if have_bound {
                    Some((bound_ms as int, bound_idx as int))
                } else {
                    None::<(int, int)>
                }),
                spec_claimable_chain(self.rows@, source_id, limit as int, None) == taken
                    + spec_claimable_chain(self.rows@, source_id, limit - out@.len(), gbound),
                done ==> spec_claimable_chain(self.rows@, source_id, limit - out@.len(), gbound)
                    == Seq::<int>::empty(),
            decreases limit - out@.len() + (if done { 0int } else { 1int }),
        {
            let mut best: Option<usize> = None;
            let mut k: usize = 0;
            while k < n
                invariant
                    n == self.rows@.len(),
                    0 <= k <= n,
                    gbound == (if have_bound {
                        Some((bound_ms as int, bound_idx as int))
                    } else {
                        None::<(int, int)>
                    }),
                    best is Some <==> spec_next_claimable_index(
                        self.rows@,
                        source_id,
                        gbound,
                        k as int,
                    ) is Some,
                    best matches Some(b) ==> b < n && Some(b as int)
                        == spec_next_claimable_index(self.rows@, source_id, gbound, k as int),
                decreases n - k,
            {
                let row = self.rows[k];
                let claimable = matches!(
                    row.state,
                    DispatchState::Created | DispatchState::Pending,
                );
                let after = if have_bound {
                    row.created_at_ms > bound_ms || (row.created_at_ms == bound_ms && k > bound_idx)
                } else {
                    true
                };
                let better = match best {
                    Option::None => true,
                    Option::Some(b) => row.created_at_ms < self.rows[b].created_at_ms,
                };
                proof {
                    assert(claimable == row_claimable(self.rows@[k as int]));
                    assert(after == after_bound(
                        self.rows@[k as int].created_at_ms as int,
                        k as int,
                        gbound,
                    ));
                }
                if row.source_id == source_id && claimable && after && better {
                    best = Some(k);
                }
                k += 1;
            }
            match best {
                Option::None => {
                    done = true;
                    proof {
                        assert(spec_claimable_chain(
                            self.rows@,
                            source_id,
                            limit - out@.len(),
                            gbound,
                        ) =~= Seq::<int>::empty());
                    }
                },
                Option::Some(b) => {
                    let row = self.rows[b];
                    let ghost pre_taken = taken;
                    let ghost pre_gbound = gbound;
                    let ghost pre_len = out@.len() as int;
                    out.push(row);
                    have_bound = true;
                    bound_ms = row.created_at_ms;
                    bound_idx = b;
                    proof {
                        gbound = Some((row.created_at_ms as int, b as int));
                        taken = pre_taken.push(b as int);
                        assert(spec_claimable_chain(
                            self.rows@,
                            source_id,
                            limit - pre_len,
                            pre_gbound,
                        ) == seq![b as int] + spec_claimable_chain(
                            self.rows@,
                            source_id,
                            limit - pre_len - 1,
                            gbound,
                        ));
                        assert(pre_taken + (seq![b as int] + spec_claimable_chain(
                            self.rows@,
                            source_id,
                            limit - pre_len - 1,
                            gbound,
                        )) =~= taken + spec_claimable_chain(
                            self.rows@,
                            source_id,
                            limit - out@.len(),
                            gbound,
                        ));
                    }
                },
            }
        }
        proof {
            if !done {
                assert(spec_claimable_chain(self.rows@, source_id, limit - out@.len(), gbound)
                    =~= Seq::<int>::empty());
            }
            assert(taken + Seq::<int>::empty() =~= taken);
            let chain = spec_claimable_chain(self.rows@, source_id, limit as int, None);
            assert(out@ =~= chain.map_values(|i: int| self.rows@[i]));
        }
        out
    }

    /// Source ids of up to `limit` rows claimable for `supervisor_id`, in
    /// creation order; one entry per row, so a source with several claimable
    /// rows appears several times.
    pub fn get_available_processes_sources(&self, supervisor_id: u128, limit: usize) -> (r: Vec<
        u32,
    >)
        ensures
            r@ == spec_claimable_sources_from(self.rows@, supervisor_id, limit as int, 0),
            r@.len() <= limit,
    {
        let n = self.rows.len();
        let mut out: Vec<u32> = Vec::new();
        let mut i: usize = 0;
        while i < n && out.len() < limit
            invariant
                n == self.rows@.len(),
                0 <= i <= n,
                out@.len() <= limit,
                spec_claimable_sources_from(self.rows@, supervisor_id, limit as int, 0) == out@
                    + spec_claimable_sources_from(
                    self.rows@,
                    supervisor_id,
                    limit - out@.len(),
                    i as int,
                ),
            decreases n - i,
        {
            let row = self.rows[i];
            let claimable = match row.state {
                DispatchState::Created | DispatchState::Pending => row.supervisor_id.is_none(),
                DispatchState::Error => {
                    match row.supervisor_id {
                        Option::Some(s) => s == supervisor_id,
                        Option::None => false,
                    }
                },
                _ => false,
            };
            proof {
                assert(claimable == row_claimable_for(self.rows@[i as int], supervisor_id));
            }
            if claimable {
                let ghost pre_out = out@;
                out.push(row.source_id);
                proof {
                    assert(spec_claimable_sources_from(
                        self.rows@,
                        supervisor_id,
                        limit - pre_out.len(),
                        i as int,
                    ) == seq![row.source_id] + spec_claimable_sources_from(
                        self.rows@,
                        supervisor_id,
                        limit - pre_out.len() - 1,
                        i + 1,
                    ));
                    assert(pre_out + (seq![row.source_id] + spec_claimable_sources_from(
                        self.rows@,
                        supervisor_id,
                        limit - pre_out.len() - 1,
                        i + 1,
                    )) =~= out@ + spec_claimable_sources_from(
                        self.rows@,
                        supervisor_id,
                        limit - out@.len(),
                        i + 1,
                    ));
                }
            }
            i += 1;
        }
        proof {
            if out@.len() < limit {
                assert(spec_claimable_sources_from(
                    self.rows@,
                    supervisor_id,
                    limit - out@.len(),
                    i as int,
                ) =~= Seq::<u32>::empty());
            } else {
                assert(spec_claimable_sources_from(
                    self.rows@,
                    supervisor_id,
                    limit - out@.len(),
                    i as int,
                ) =~= Seq::<u32>::empty());
            }
            assert(out@ + Seq::<u32>::empty() =~= out@);
        }
        out
    }

    /// Inserts a process row under the given identifier with `created_at`
    /// of `now_ms`. Succeeds exactly when the identifier is not already a
    /// primary key of the table; on the duplicate it fails as the database
    /// would and the table is unchanged.
    pub fn insert_with_uuid(
        &mut self,
        uuid_val: u128,
        source_id: u32,
        state: DispatchState,
        processing_mode: ProcessingMode,
        now_ms: i64,
    ) -> (r: Result<u128, DispatcherError>)
        requires
            old(self).wf(),
            state != DispatchState::Processing,
            0 <= now_ms <= MAX_EPOCH_MILLIS,
        ensures
            final(self).wf(),
            r is Ok <==> !old(self).spec_contains_uuid(uuid_val),
            r matches Ok(u) ==> u == uuid_val && final(self).rows@ == old(self).rows@.push(
                ProcessRow {
                    uuid: uuid_val,
                    source_id,
                    state,
                    mode: processing_mode,
                    supervisor_id: None,
                    created_at_ms: now_ms,
                },
            ),
            r is Err ==> final(self).rows@ == old(self).rows@ && (r matches Err(
                DispatcherError::DbError(_),
            )) && old(self).rows@.len() > 0,
    {
        if self.contains_uuid(uuid_val) {
            return Err(DispatcherError::DbError(String::from_str("duplicate primary key")));
        }
        let row = ProcessRow {
            uuid: uuid_val,
            source_id,
            state,
            mode: processing_mode,
            supervisor_id: None,
            created_at_ms: now_ms,
        };
        self.rows.push(row);
        Ok(uuid_val)
    }

    /// Inserts a fresh process row under a freshly generated identifier and
    /// `created_at` of `now_ms`, and returns the identifier. Only a draw
    /// that collides with a present primary key fails — so on an empty table
    /// the insert is owed; `insert_with_uuid` fixes the outcome for every
    /// drawn value.
    pub fn insert_new_process(
        &mut self,
        source_id: u32,
        state: DispatchState,
        processing_mode: ProcessingMode,
        now_ms: i64,
    ) -> (r: Result<u128, DispatcherError>)
        requires
            old(self).wf(),
            state != DispatchState::Processing,
            0 <= now_ms <= MAX_EPOCH_MILLIS,
        ensures
            final(self).wf(),
            r matches Ok(u) ==> {
                &&& !old(self).spec_contains_uuid(u)
                &&& final(self).rows@ == old(self).rows@.push(
                    ProcessRow {
                        uuid: u,
                        source_id,
                        state,
                        mode: processing_mode,
                        supervisor_id: None,
                        created_at_ms: now_ms,
                    },
                )
            },
            r is Err ==> final(self).rows@ == old(self).rows@ && (r matches Err(
                DispatcherError::DbError(_),
            )) && old(self).rows@.len() > 0,
    {
        let uuid_val = new_v4_u128();
        self.insert_with_uuid(uuid_val, source_id, state, processing_mode, now_ms)
    }

    /// The atomic assignment write: sets supervisor and state together on
    /// the row keyed `id`; a missing key updates nothing, as the database
    /// statement would.
    pub fn assign_process_to_supervisor(
        &mut self,
        id: u128,
        supervisor_id: u128,
        assigned_state: DispatchState,
    )
        requires
            old(self).wf(),
        ensures
            final(self).wf(),
            final(self).rows@ == spec_assign_rows(old(self).rows@, id, supervisor_id, assigned_state),
    {
        let n = self.rows.len();
        let mut i: usize = 0;
        while i < n
            invariant
                n == self.rows@.len(),
                0 <= i <= n,
                self.rows@ == old(self).rows@,
                old(self).wf(),
                forall|j: int| 0 <= j < i ==> self.rows@[j].uuid != id,
            decreases n - i,
        {
            if self.rows[i].uuid == id {
                let old_row = self.rows[i];
                let updated = ProcessRow {
                    supervisor_id: Some(supervisor_id),
                    state: assigned_state,
                    ..old_row
                };
                proof {
                    let rows0 = old(self).rows@;
                    assert(rows0[i as int].uuid == id);
                    let w = choose|k: int| 0 <= k < rows0.len() && rows0[k].uuid == id;
                    assert(rows0[w].uuid == id);
                    if w < i as int {
                        assert(rows0[w].uuid != rows0[i as int].uuid);
                    }
                    if (i as int) < w {
                        assert(rows0[i as int].uuid != rows0[w].uuid);
                    }
                    assert(w == i as int);
                }
                self.rows.set(i, updated);
                return ;
            }
            i += 1;
        }
    }
}

/// Repeating the assignment write on the same key leaves the table exactly
/// as the second write alone would: the row is consistent with the second
/// call's supervisor and state.
pub proof fn lemma_assign_twice(
    rows: Seq<ProcessRow>,
    id: u128,
    s1: u128,
    st1: DispatchState,
    s2: u128,
    st2: DispatchState,
)
    requires
        forall|i: int, j: int| 0 <= i < j < rows.len() ==> rows[i].uuid != rows[j].uuid,
    ensures
        spec_assign_rows(spec_assign_rows(rows, id, s1, st1), id, s2, st2) == spec_assign_rows(
            rows,
            id,
            s2,
            st2,
        ),
{
    if exists|i: int| 0 <= i < rows.len() && rows[i].uuid == id {
        let i = choose|i: int| 0 <= i < rows.len() && rows[i].uuid == id;
        let mid = spec_assign_rows(rows, id, s1, st1);
        assert(mid[i].uuid == id);
        let j = choose|j: int| 0 <= j < mid.len() && mid[j].uuid == id;
        assert(forall|k: int| 0 <= k < mid.len() && k != i ==> mid[k] == rows[k]);
        assert(j == i);
        assert(spec_assign_rows(mid, id, s2, st2) =~= spec_assign_rows(rows, id, s2, st2));
    }
}

} // verus!
