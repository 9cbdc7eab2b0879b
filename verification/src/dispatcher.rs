//! The dispatcher core: process states, processing modes, and the
//! scheduling and assignment logic over the process table.

mod error;

use vstd::prelude::*;
use crate::async_keyed_mutex::{
    lemma_acquire_release_cycle, lemma_live_entries_membership, lemma_live_entries_positive,
    live_entries, AsyncKeyedMutex,
};
use crate::dispatch_time::{
    same_berlin_day_millis, spec_berlin_day_of_millis, MAX_EPOCH_MILLIS,
};
use crate::repository::{
    lemma_latest_in_membership, rows_wf, spec_assign_rows, spec_latest_in,
    spec_oldest_claimable_in, ProcessRow, ProcessTable,
};
use crate::responses::AssignedProcess;
use crate::text::str_eq;
use crate::uuid_text::{format_hyphenated, spec_hyphenated};
pub use error::DispatcherError;

verus! {

/// Lifecycle state of a process, stored as a string by the database.
/// `Completed` and `Failed` are terminal; all others are active.
#[derive(Clone, Copy, Debug, PartialEq, Eq, Structural)]
pub enum DispatchState {
    Created,
    Pending,
    Processing,
    Error,
    Completed,
    Failed,
}

/// The state denoted by a database string, if any.
pub open spec fn spec_parse_state(s: Seq<char>) -> Option<DispatchState> {
    if s == "created"@ {
        Some(DispatchState::Created)
    } else if s == "pending"@ {
        Some(DispatchState::Pending)
    } else if s == "processing"@ {
        Some(DispatchState::Processing)
    } else if s == "error"@ {
        Some(DispatchState::Error)
    } else if s == "completed"@ {
        Some(DispatchState::Completed)
    } else if s == "failed"@ {
        Some(DispatchState::Failed)
    } else {
        None
    }
}

impl DispatchState {
    /// The database string for this state.
    pub open spec fn spec_str(self) -> Seq<char> {
        match self {
            DispatchState::Created => "created"@,
            DispatchState::Pending => "pending"@,
            DispatchState::Processing => "processing"@,
            DispatchState::Error => "error"@,
            DispatchState::Completed => "completed"@,
            DispatchState::Failed => "failed"@,
        }
    }

    /// Terminal states: no further work happens on the process.
    pub open spec fn spec_is_finished(self) -> bool {
        self == DispatchState::Completed || self == DispatchState::Failed
    }

    /// Reads a database state string; `None` for an unknown value, which the
    /// schema rules out and callers treat as fatal.
    pub fn parse(value: &str) -> (r: Option<DispatchState>)
        ensures
            r == spec_parse_state(value@),
    {
        if str_eq(value, "created") {
            Some(DispatchState::Created)
        } else if str_eq(value, "pending") {
            Some(DispatchState::Pending)
        } else if str_eq(value, "processing") {
            Some(DispatchState::Processing)
        } else if str_eq(value, "error") {
            Some(DispatchState::Error)
        } else if str_eq(value, "completed") {
            Some(DispatchState::Completed)
        } else if str_eq(value, "failed") {
            Some(DispatchState::Failed)
        } else {
            None
        }
    }

    /// Reads a database state string that is known to be one of the six
    /// documented values; the checked entry point is `parse`.
    pub fn new(value: &str) -> (r: DispatchState)
        requires
            spec_parse_state(value@) is Some,
        ensures
            Some(r) == spec_parse_state(value@),
    {
        DispatchState::parse(value).unwrap()
    }

    pub fn is_finished(&self) -> (r: bool)
        ensures
            r == self.spec_is_finished(),
    {
        matches!(self, DispatchState::Completed | DispatchState::Failed)
    }

    /// The database string for this state.
    pub fn as_str(&self) -> (r: &'static str)
        ensures
            r@ == self.spec_str(),
    {
        match self {
            DispatchState::Created => "created",
            DispatchState::Pending => "pending",
            DispatchState::Processing => "processing",
            DispatchState::Error => "error",
            DispatchState::Completed => "completed",
            DispatchState::Failed => "failed",
        }
    }
}

/// How a process is run; the scheduler only ever creates regular processes.
#[derive(Clone, Copy, Debug, PartialEq, Eq, Structural)]
pub enum ProcessingMode {
    Regular,
    Sandbox,
}

/// The mode denoted by its database integer encoding, if any.
pub open spec fn spec_parse_mode(value: int) -> Option<ProcessingMode> {
    if value == 1 {
        Some(ProcessingMode::Regular)
    } else if value == 2 {
        Some(ProcessingMode::Sandbox)
    } else {
        None
    }
}

impl ProcessingMode {
    /// The database integer encoding of this mode.
    pub open spec fn spec_code(self) -> int {
        match self {
            ProcessingMode::Regular => 1,
            ProcessingMode::Sandbox => 2,
        }
    }

    /// The display name of this mode.
    pub open spec fn spec_str(self) -> Seq<char> {
        match self {
            ProcessingMode::Regular => "Regular"@,
            ProcessingMode::Sandbox => "Sandbox"@,
        }
    }

    /// Reads a database mode value; `None` for an unknown value, which the
    /// schema rules out and callers treat as fatal.
    pub fn parse(value: isize) -> (r: Option<ProcessingMode>)
        ensures
            r == spec_parse_mode(value as int),
    {
        if value == 1 {
            Some(ProcessingMode::Regular)
        } else if value == 2 {
            Some(ProcessingMode::Sandbox)
        } else {
            None
        }
    }

    /// Reads a database mode value known to be one of the two documented
    /// encodings; the checked entry point is `parse`.
    pub fn new(value: isize) -> (r: ProcessingMode)
        requires
            spec_parse_mode(value as int) is Some,
        ensures
            Some(r) == spec_parse_mode(value as int),
    {
        ProcessingMode::parse(value).unwrap()
    }

    /// The display name of this mode.
    pub fn as_str(&self) -> (r: &'static str)
        ensures
            r@ == self.spec_str(),
    {
        match self {
            ProcessingMode::Regular => "Regular",
            ProcessingMode::Sandbox => "Sandbox",
        }
    }
}

impl From<ProcessingMode> for u8 {
    /// The database integer encoding of the mode.
    fn from(processing_mode: ProcessingMode) -> (r: u8) {
        match processing_mode {
            ProcessingMode::Regular => 1,
            ProcessingMode::Sandbox => 2,
        }
    }
}

impl vstd::std_specs::convert::FromSpecImpl<ProcessingMode> for u8 {
    open spec fn obeys_from_spec() -> bool {
        true
    }

    open spec fn from_spec(m: ProcessingMode) -> u8 {
        m.spec_code() as u8
    }
}

// --- The scheduling decision ---

/// The skip-or-insert rule, given the newest prior row of a source: insert
/// when there is none, or when it is terminal and falls on a different
/// Europe/Berlin calendar day than `now`; skip otherwise.
pub open spec fn spec_should_insert_latest(latest: Option<ProcessRow>, now: int) -> bool {
    match latest {
        None => true,
        Some(l) => l.state.spec_is_finished() && spec_berlin_day_of_millis(l.created_at_ms as int)
            != spec_berlin_day_of_millis(now),
    }
}

/// The skip-or-insert rule applied to a table.
pub open spec fn spec_should_insert(rows: Seq<ProcessRow>, source_id: u32, now: int) -> bool {
    spec_should_insert_latest(spec_latest_in(rows, source_id), now)
}

/// The skip-or-insert rule, executable on the newest prior row as the
/// database returns it.
pub fn should_insert_process(latest: &Option<ProcessRow>, now_ms: i64) -> (r: bool)
    requires
        0 <= now_ms <= MAX_EPOCH_MILLIS,
        latest matches Some(l) ==> 0 <= l.created_at_ms <= MAX_EPOCH_MILLIS,
    ensures
        r == spec_should_insert_latest(*latest, now_ms as int),
{
    match latest {
        None => true,
        Some(process) => {
            if !process.state.is_finished() {
                false
            } else {
                !same_berlin_day_millis(process.created_at_ms, now_ms)
            }
        },
    }
}

/// `rows1` is `rows0` with exactly the row the scheduler inserts appended:
/// freshly created, regular mode, unassigned, stamped `now`.
pub open spec fn rows_after_insert(
    rows0: Seq<ProcessRow>,
    rows1: Seq<ProcessRow>,
    source_id: u32,
    now: int,
) -> bool {
    &&& rows1.len() == rows0.len() + 1
    &&& rows1.subrange(0, rows0.len() as int) == rows0
    &&& rows1.last().source_id == source_id
    &&& rows1.last().state == DispatchState::Created
    &&& rows1.last().mode == ProcessingMode::Regular
    &&& rows1.last().supervisor_id is None
    &&& rows1.last().created_at_ms == now
}

/// `rows1` extends `rows0` only by scheduler-shaped rows stamped `now` for
/// sources among `ids`; no present row is touched.
pub open spec fn schedule_appended_ok(
    rows0: Seq<ProcessRow>,
    rows1: Seq<ProcessRow>,
    ids: Seq<u32>,
    now: int,
) -> bool {
    &&& rows0.len() <= rows1.len()
    &&& rows1.subrange(0, rows0.len() as int) == rows0
    &&& forall|i: int|
        rows0.len() <= i < rows1.len() ==> {
            let row = #[trigger] rows1[i];
            &&& row.state == DispatchState::Created
            &&& row.mode == ProcessingMode::Regular
            &&& row.supervisor_id is None
            &&& row.created_at_ms == now
            &&& ids.contains(row.source_id)
        }
}

/// How many source ids one scheduling pass works through before the
/// cancellation latch, observed at pull `c`, stops it.
pub open spec fn spec_processed_prefix(len: int, cancel_at: Option<usize>) -> int {
    match cancel_at {
        None => len,
        Some(c) => if c <= len {
            c as int
        } else {
            len
        },
    }
}

// --- The same-day law ---

/// The same-day rule as a table invariant: two rows of one source on the
/// same Europe/Berlin calendar day only ever arise when the earlier of the
/// two is not terminal.
pub open spec fn day_invariant(rows: Seq<ProcessRow>) -> bool {
    forall|i: int, j: int|
        #![trigger rows[i], rows[j]]
        0 <= i < rows.len() && 0 <= j < rows.len() && i != j && rows[i].source_id
            == rows[j].source_id && rows[i].created_at_ms < rows[j].created_at_ms
            && spec_berlin_day_of_millis(rows[i].created_at_ms as int) == spec_berlin_day_of_millis(
            rows[j].created_at_ms as int,
        ) ==> !rows[i].state.spec_is_finished()
}

/// A consistent clock reading `now` against a table: every row was created
/// no later than `now`, and the Europe/Berlin calendar-day order agrees with
/// the timestamp order. The zone's tables satisfy this; its proof would need
/// their full transition list.
pub open spec fn chronology_ok(rows: Seq<ProcessRow>, now: int) -> bool {
    &&& forall|i: int|
        0 <= i < rows.len() ==> (#[trigger] rows[i]).created_at_ms <= now
    &&& forall|i: int, j: int|
        #![trigger rows[i], rows[j]]
        0 <= i < rows.len() && 0 <= j < rows.len() && rows[i].created_at_ms
            <= rows[j].created_at_ms ==> spec_berlin_day_of_millis(rows[i].created_at_ms as int)
            <= spec_berlin_day_of_millis(rows[j].created_at_ms as int)
    &&& forall|i: int|
        0 <= i < rows.len() ==> spec_berlin_day_of_millis(
            (#[trigger] rows[i]).created_at_ms as int,
        ) <= spec_berlin_day_of_millis(now)
}

/// The empty table a fresh dispatcher starts from satisfies the same-day
/// invariant and is consistent with any clock reading: the conditional
/// guarantees of the scheduling and assignment operations are anchored here
/// and carried forward by every operation.
pub proof fn lemma_day_invariant_holds_initially(now: int)
    ensures
        day_invariant(Seq::empty()),
        chronology_ok(Seq::empty(), now),
{
}

/// The newest row of a source is no older than any row of that source.
pub proof fn lemma_latest_in_is_max(rows: Seq<ProcessRow>, sid: u32)
    ensures
        forall|i: int|
            0 <= i < rows.len() && (#[trigger] rows[i]).source_id == sid ==> spec_latest_in(
                rows,
                sid,
            ) is Some && rows[i].created_at_ms <= spec_latest_in(rows, sid).unwrap().created_at_ms,
    decreases rows.len(),
{
    if rows.len() > 0 {
        lemma_latest_in_is_max(rows.drop_last(), sid);
        assert forall|i: int|
            0 <= i < rows.len() && (#[trigger] rows[i]).source_id == sid implies spec_latest_in(
            rows,
            sid,
        ) is Some && rows[i].created_at_ms <= spec_latest_in(rows, sid).unwrap().created_at_ms by {
            if i < rows.len() - 1 {
                assert(rows.drop_last()[i] == rows[i]);
            }
        }
    }
}

/// One scheduler insert keeps the same-day rule and the clock consistency:
/// when the skip decision allows the insert, no present row of the source
/// shares the new row's Europe/Berlin day, so the appended row violates
/// nothing.
pub proof fn lemma_scheduler_insert_preserves_day_rule(rows: Seq<ProcessRow>, row: ProcessRow)
    requires
        day_invariant(rows),
        chronology_ok(rows, row.created_at_ms as int),
        spec_should_insert(rows, row.source_id, row.created_at_ms as int),
        !row.state.spec_is_finished(),
    ensures
        day_invariant(rows.push(row)),
        chronology_ok(rows.push(row), row.created_at_ms as int),
{
    let now = row.created_at_ms as int;
    let pushed = rows.push(row);
    let n = rows.len() as int;
    lemma_latest_in_is_max(rows, row.source_id);
    lemma_latest_in_membership(rows, row.source_id);
    assert forall|i: int|
        0 <= i < n && (#[trigger] rows[i]).source_id == row.source_id implies
        spec_berlin_day_of_millis(rows[i].created_at_ms as int) != spec_berlin_day_of_millis(
        now,
    ) by {
        let l = spec_latest_in(rows, row.source_id).unwrap();
        let k = choose|k: int| 0 <= k < rows.len() && rows[k] == l;
        assert(rows[i].created_at_ms <= rows[k].created_at_ms);
        assert(spec_berlin_day_of_millis(rows[i].created_at_ms as int)
            <= spec_berlin_day_of_millis(rows[k].created_at_ms as int));
        assert(spec_berlin_day_of_millis(rows[k].created_at_ms as int)
            <= spec_berlin_day_of_millis(now));
        assert(spec_berlin_day_of_millis(rows[k].created_at_ms as int)
            != spec_berlin_day_of_millis(now));
    }
    assert forall|i: int, j: int|
        #![trigger pushed[i], pushed[j]]
        0 <= i < pushed.len() && 0 <= j < pushed.len() && i != j && pushed[i].source_id
            == pushed[j].source_id && pushed[i].created_at_ms < pushed[j].created_at_ms
            && spec_berlin_day_of_millis(pushed[i].created_at_ms as int)
            == spec_berlin_day_of_millis(pushed[j].created_at_ms as int) implies
        !pushed[i].state.spec_is_finished() by {
        if i < n && j < n {
            assert(pushed[i] == rows[i] && pushed[j] == rows[j]);
        } else if j == n && i < n {
            assert(pushed[i] == rows[i] && pushed[j] == row);
        } else if i == n && j < n {
            assert(pushed[i] == row && pushed[j] == rows[j]);
            assert(rows[j].created_at_ms <= now);
        }
    }
    assert forall|i: int, j: int|
        #![trigger pushed[i], pushed[j]]
        0 <= i < pushed.len() && 0 <= j < pushed.len() && pushed[i].created_at_ms
            <= pushed[j].created_at_ms implies spec_berlin_day_of_millis(
        pushed[i].created_at_ms as int,
    ) <= spec_berlin_day_of_millis(pushed[j].created_at_ms as int) by {
        if i < n && j < n {
            assert(pushed[i] == rows[i] && pushed[j] == rows[j]);
        } else if i == n && j < n {
            assert(pushed[j] == rows[j]);
            assert(rows[j].created_at_ms <= now);
        } else if i < n && j == n {
            assert(pushed[i] == rows[i]);
        }
    }
}

/// The assignment write never creates a same-day violation, whatever tick
/// activity it interleaves with: it changes no timestamp and no source, and
/// the row it touches becomes processing, which is active, not terminal.
pub proof fn lemma_assign_preserves_day_rule(rows: Seq<ProcessRow>, id: u128, sup: u128, now: int)
    requires
        day_invariant(rows),
    ensures
        day_invariant(spec_assign_rows(rows, id, sup, DispatchState::Processing)),
        chronology_ok(rows, now) ==> chronology_ok(
            spec_assign_rows(rows, id, sup, DispatchState::Processing),
            now,
        ),
{
    let out = spec_assign_rows(rows, id, sup, DispatchState::Processing);
    if exists|i: int| 0 <= i < rows.len() && rows[i].uuid == id {
        let i = choose|i: int| 0 <= i < rows.len() && rows[i].uuid == id;
        assert(forall|k: int| 0 <= k < out.len() && k != i ==> out[k] == rows[k]);
        assert(out[i].source_id == rows[i].source_id && out[i].created_at_ms
            == rows[i].created_at_ms && !out[i].state.spec_is_finished());
        assert forall|p: int, q: int|
            #![trigger out[p], out[q]]
            0 <= p < out.len() && 0 <= q < out.len() && p != q && out[p].source_id
                == out[q].source_id && out[p].created_at_ms < out[q].created_at_ms
                && spec_berlin_day_of_millis(out[p].created_at_ms as int)
                == spec_berlin_day_of_millis(out[q].created_at_ms as int) implies
            !out[p].state.spec_is_finished() by {
            if p != i {
                assert(rows[p].source_id == out[p].source_id);
                assert(rows[q].source_id == out[q].source_id);
                assert(rows[p].created_at_ms == out[p].created_at_ms);
                assert(rows[q].created_at_ms == out[q].created_at_ms);
            }
        }
        if chronology_ok(rows, now) {
            assert forall|p: int| 0 <= p < out.len() implies (#[trigger] out[p]).created_at_ms
                <= now by {
                assert(out[p].created_at_ms == rows[p].created_at_ms);
            }
            assert forall|p: int, q: int|
                #![trigger out[p], out[q]]
                0 <= p < out.len() && 0 <= q < out.len() && out[p].created_at_ms
                    <= out[q].created_at_ms implies spec_berlin_day_of_millis(
                out[p].created_at_ms as int,
            ) <= spec_berlin_day_of_millis(out[q].created_at_ms as int) by {
                assert(out[p].created_at_ms == rows[p].created_at_ms);
                assert(out[q].created_at_ms == rows[q].created_at_ms);
            }
            assert forall|p: int| 0 <= p < out.len() implies spec_berlin_day_of_millis(
                (#[trigger] out[p]).created_at_ms as int,
            ) <= spec_berlin_day_of_millis(now) by {
                assert(out[p].created_at_ms == rows[p].created_at_ms);
            }
        }
    }
}

// --- The dispatcher ---

/// The scheduler and assigner over the process table, serialized per source
/// through the keyed mutex registry.
pub struct Dispatcher {
    pub db_repository: ProcessTable,
    pub source_locks: AsyncKeyedMutex,
}

/// The first candidate's claim: walking the candidate source ids in order,
/// the oldest claimable row of the first source that has an unassigned one.
pub open spec fn spec_first_claim(rows: Seq<ProcessRow>, candidates: Seq<u32>) -> Option<
    ProcessRow,
>
    decreases candidates.len(),
{
    if candidates.len() == 0 {
        None
    } else {
        match spec_oldest_claimable_in(rows, candidates.first()) {
            Some(row) => if !row.state.spec_is_finished() && row.supervisor_id is None {
                Some(row)
            } else {
                spec_first_claim(rows, candidates.drop_first())
            },
            None => spec_first_claim(rows, candidates.drop_first()),
        }
    }
}

impl Dispatcher {
    /// A well-formed dispatcher between operations: well-formed table, and
    /// no keyed mutex held.
    pub open spec fn wf(self) -> bool {
        &&& self.db_repository.wf()
        &&& self.source_locks.wf()
        &&& self.source_locks.all_free()
    }

    pub fn new() -> (r: Dispatcher)
        ensures
            r.wf(),
            r.db_repository.rows@.len() == 0,
            r.source_locks.entries@.len() == 0,
    {
        Dispatcher { db_repository: ProcessTable::new(), source_locks: AsyncKeyedMutex::new() }
    }

    /// One reclamation sweep over the keyed mutex registry; the binary runs
    /// it on a background cadence.
    pub fn clean_source_locks(&mut self)
        requires
            old(self).wf(),
        ensures
            final(self).wf(),
            final(self).db_repository.rows@ == old(self).db_repository.rows@,
            final(self).source_locks.entries@ == live_entries(old(self).source_locks.entries@),
    {
        proof {
            let s = self.source_locks.entries@;
            lemma_live_entries_membership(s);
            lemma_live_entries_positive(s);
            if live_entries(s).len() > 0 {
                let e = live_entries(s)[0];
                let i = choose|i: int| 0 <= i < s.len() && s[i] == e;
                assert(s[i].holders == 0);
                assert(false);
            }
        }
        self.source_locks.cleanup();
    }

    /// One scheduling step for one source: under the source's mutex, read
    /// the newest prior row, apply the skip-or-insert rule, and insert a
    /// fresh created regular process stamped `now_ms` when the rule says so.
    /// A failed insert is reported as a database error and changes nothing;
    /// the only such failure is a colliding identifier draw, so on an empty
    /// table the step cannot fail.
    pub fn process_source(&mut self, source_id: u32, now_ms: i64) -> (r: Result<
        (),
        DispatcherError,
    >)
        requires
            old(self).wf(),
            0 <= now_ms <= MAX_EPOCH_MILLIS,
        ensures
            final(self).wf(),
            !(r matches Err(DispatcherError::TerminatingSignalReceived)),
            r is Err ==> old(self).db_repository.rows@.len() > 0,
            ({
                let rows0 = old(self).db_repository.rows@;
                let rows1 = final(self).db_repository.rows@;
                &&& (!spec_should_insert(rows0, source_id, now_ms as int) ==> rows1 == rows0
                    && r is Ok)
                &&& (spec_should_insert(rows0, source_id, now_ms as int) ==> ((r is Ok
                    ==> rows_after_insert(rows0, rows1, source_id, now_ms as int)) && (r is Err
                    ==> rows1 == rows0)))
                &&& ((day_invariant(rows0) && chronology_ok(rows0, now_ms as int))
                    ==> (day_invariant(rows1) && chronology_ok(rows1, now_ms as int)))
            }),
    {
        let ghost entries0 = self.source_locks.entries@;
        let ghost next0 = self.source_locks.next_id;
        proof {
            lemma_acquire_release_cycle(entries0, next0, source_id);
        }
        let lock = self.source_locks.get_mutex(source_id);
        let latest = self.db_repository.get_latest_process_for(source_id);
        proof {
            lemma_latest_in_membership(self.db_repository.rows@, source_id);
        }
        let result: Result<(), DispatcherError> = if !should_insert_process(&latest, now_ms) {
            Ok(())
        } else {
            let ghost rows0 = self.db_repository.rows@;
            let res = self.db_repository.insert_new_process(
                source_id,
                DispatchState::Created,
                ProcessingMode::Regular,
                now_ms,
            );
            match res {
                Ok(_uuid) => {
                    proof {
                        let rows1 = self.db_repository.rows@;
                        assert(rows1.subrange(0, rows0.len() as int) =~= rows0);
                        if day_invariant(rows0) && chronology_ok(rows0, now_ms as int) {
                            lemma_scheduler_insert_preserves_day_rule(rows0, rows1.last());
                            assert(rows1 =~= rows0.push(rows1.last()));
                        }
                    }
                    Ok(())
                },
                Err(e) => Err(e),
            }
        };
        self.source_locks.release(&lock);
        result
    }

    /// One full scheduling pass over the streamed source ids, with the
    /// cancellation latch observed before every pull: `cancel_at` is the
    /// pull at which the latch was found set, if any. Database errors on
    /// single sources are absorbed and the pass continues; only the latch
    /// ends it early, with `TerminatingSignalReceived`. A pass over a
    /// nonempty id list against an empty table is owed its first insert:
    /// the skip rule selects every source there, and an identifier draw
    /// cannot collide with an empty table.
    pub fn prepare_schedule(
        &mut self,
        source_ids: &Vec<u32>,
        now_ms: i64,
        cancel_at: Option<usize>,
    ) -> (r: Result<(), DispatcherError>)
        requires
            old(self).wf(),
            0 <= now_ms <= MAX_EPOCH_MILLIS,
        ensures
            final(self).wf(),
            r is Err <==> (cancel_at matches Some(c) && c <= source_ids@.len()),
            r matches Err(e) ==> e == DispatcherError::TerminatingSignalReceived,
            schedule_appended_ok(
                old(self).db_repository.rows@,
                final(self).db_repository.rows@,
                source_ids@.subrange(
                    0,
                    spec_processed_prefix(source_ids@.len() as int, cancel_at),
                ),
                now_ms as int,
            ),
            ((day_invariant(old(self).db_repository.rows@) && chronology_ok(
                old(self).db_repository.rows@,
                now_ms as int,
            )) ==> (day_invariant(final(self).db_repository.rows@) && chronology_ok(
                final(self).db_repository.rows@,
                now_ms as int,
            ))),
            (old(self).db_repository.rows@.len() == 0 && source_ids@.len() > 0 && (cancel_at
                matches Some(c) ==> c > 0)) ==> final(self).db_repository.rows@.len() > 0,
    {
        let n = source_ids.len();
        proof {
            let rows = self.db_repository.rows@;
            assert(rows.subrange(0, rows.len() as int) =~= rows);
            assert(source_ids@.subrange(0, 0) =~= Seq::<u32>::empty());
        }
        let mut i: usize = 0;
        while i < n
            invariant
                self.wf(),
                0 <= i <= n,
                n == source_ids@.len(),
                0 <= now_ms <= MAX_EPOCH_MILLIS,
                cancel_at matches Some(c) ==> i <= c,
                schedule_appended_ok(
                    old(self).db_repository.rows@,
                    self.db_repository.rows@,
                    source_ids@.subrange(0, i as int),
                    now_ms as int,
                ),
                ((day_invariant(old(self).db_repository.rows@) && chronology_ok(
                    old(self).db_repository.rows@,
                    now_ms as int,
                )) ==> (day_invariant(self.db_repository.rows@) && chronology_ok(
                    self.db_repository.rows@,
                    now_ms as int,
                ))),
                (old(self).db_repository.rows@.len() == 0 && i > 0)
                    ==> self.db_repository.rows@.len() > 0,
            decreases n - i,
        {
            let cancelled = match cancel_at {
                Some(c) => c <= i,
                None => false,
            };
            if cancelled {
                proof {
                    assert(source_ids@.subrange(
                        0,
                        spec_processed_prefix(n as int, cancel_at),
                    ) =~= source_ids@.subrange(0, i as int));
                }
                return Err(DispatcherError::TerminatingSignalReceived);
            }
            let sid = source_ids[i];
            let ghost rows_before = self.db_repository.rows@;
            // A database error on one source is absorbed; the pass goes on.
            let res = self.process_source(sid, now_ms);
            proof {
                lemma_schedule_appended_step(
                    old(self).db_repository.rows@,
                    rows_before,
                    self.db_repository.rows@,
                    source_ids@,
                    i as int,
                    sid,
                    now_ms as int,
                );
                if old(self).db_repository.rows@.len() == 0 && i == 0 {
                    // The first step against an empty table must insert: the
                    // skip rule selects the source, and a colliding draw
                    // would need a present row.
                    assert(rows_before =~= old(self).db_repository.rows@);
                    assert(spec_latest_in(rows_before, sid) is None);
                    assert(spec_should_insert(rows_before, sid, now_ms as int));
                    assert(res is Ok);
                    assert(self.db_repository.rows@.len() > 0);
                }
            }
            i += 1;
        }
        let cancelled = match cancel_at {
            Some(c) => c <= n,
            None => false,
        };
        proof {
            assert(source_ids@.subrange(0, n as int) =~= source_ids@);
        }
        if cancelled {
            return Err(DispatcherError::TerminatingSignalReceived);
        }
        Ok(())
    }

    /// One assignment attempt for a supervisor over the streamed candidate
    /// source ids, each taken under its mutex: the first candidate with an
    /// unassigned claimable row has its oldest such row atomically assigned
    /// to the supervisor in state processing, and the claim is returned.
    /// Repeated candidates are harmless: at most one row is ever written.
    pub fn assign_process(&mut self, supervisor_id: u128, candidate_source_ids: &Vec<u32>) -> (r:
        Option<AssignedProcess>)
        requires
            old(self).wf(),
        ensures
            final(self).wf(),
            day_invariant(old(self).db_repository.rows@) ==> day_invariant(
                final(self).db_repository.rows@,
            ),
            ({
                let rows0 = old(self).db_repository.rows@;
                let rows1 = final(self).db_repository.rows@;
                match spec_first_claim(rows0, candidate_source_ids@) {
                    None => r is None && rows1 == rows0,
                    Some(row) => {
                        &&& r matches Some(ap) && ap.id@ == spec_hyphenated(row.uuid)
                            && ap.source_id == row.source_id && ap.state
                            == DispatchState::Processing && ap.mode == row.mode
                            && ap.created_at_ms == row.created_at_ms && ap.supervisor_id@
                            == spec_hyphenated(supervisor_id)
                        &&& rows1 == spec_assign_rows(
                            rows0,
                            row.uuid,
                            supervisor_id,
                            DispatchState::Processing,
                        )
                    },
                }
            }),
    {
        let m = candidate_source_ids.len();
        proof {
            assert(candidate_source_ids@.skip(0) =~= candidate_source_ids@);
        }
        let mut j: usize = 0;
        while j < m
            invariant
                self.wf(),
                0 <= j <= m,
                m == candidate_source_ids@.len(),
                self.db_repository.rows@ == old(self).db_repository.rows@,
                spec_first_claim(self.db_repository.rows@, candidate_source_ids@)
                    == spec_first_claim(
                    self.db_repository.rows@,
                    candidate_source_ids@.skip(j as int),
                ),
            decreases m - j,
        {
            let sid = candidate_source_ids[j];
            let ghost entries0 = self.source_locks.entries@;
            let ghost next0 = self.source_locks.next_id;
            proof {
                lemma_acquire_release_cycle(entries0, next0, sid);
                assert(candidate_source_ids@.skip(j as int).first() == candidate_source_ids@[j as int]);
                assert(candidate_source_ids@.skip(j as int).drop_first()
                    =~= candidate_source_ids@.skip(j + 1));
            }
            let lock = self.source_locks.get_mutex(sid);
            let candidate = self.db_repository.get_available_source_process(sid);
            match candidate {
                Some(row) => {
                    if !row.state.is_finished() && row.supervisor_id.is_none() {
                        proof {
                            if day_invariant(self.db_repository.rows@) {
                                lemma_assign_preserves_day_rule(
                                    self.db_repository.rows@,
                                    row.uuid,
                                    supervisor_id,
                                    0,
                                );
                            }
                        }
                        self.db_repository.assign_process_to_supervisor(
                            row.uuid,
                            supervisor_id,
                            DispatchState::Processing,
                        );
                        self.source_locks.release(&lock);
                        let ap = AssignedProcess::new(
                            format_hyphenated(row.uuid),
                            row.source_id,
                            DispatchState::Processing,
                            row.mode,
                            row.created_at_ms,
                            format_hyphenated(supervisor_id),
                        );
                        return Some(ap);
                    } else {
                        self.source_locks.release(&lock);
                    }
                },
                None => {
                    self.source_locks.release(&lock);
                },
            }
            j += 1;
        }
        proof {
            assert(candidate_source_ids@.skip(m as int).len() == 0);
        }
        None
    }
}

/// Appending one scheduler step's outcome to a pass keeps the pass-level
/// description: present rows untouched, appended rows scheduler-shaped for
/// sources among the ids worked through so far.
proof fn lemma_schedule_appended_step(
    rows0: Seq<ProcessRow>,
    rows1: Seq<ProcessRow>,
    rows2: Seq<ProcessRow>,
    ids: Seq<u32>,
    i: int,
    sid: u32,
    now: int,
)
    requires
        0 <= i < ids.len(),
        ids[i] == sid,
        schedule_appended_ok(rows0, rows1, ids.subrange(0, i), now),
        rows2 == rows1 || rows_after_insert(rows1, rows2, sid, now),
    ensures
        schedule_appended_ok(rows0, rows2, ids.subrange(0, i + 1), now),
{
    let pre = ids.subrange(0, i);
    let post = ids.subrange(0, i + 1);
    assert(forall|k: int| 0 <= k < pre.len() ==> post[k] == pre[k]);
    assert forall|x: u32| pre.contains(x) implies post.contains(x) by {
        let k = choose|k: int| 0 <= k < pre.len() && pre[k] == x;
        assert(post[k] == x);
    }
    assert(post[i] == sid);
    assert(post.contains(sid));
    if rows2 == rows1 {
    } else {
        assert(rows2.subrange(0, rows1.len() as int) == rows1);
        assert(rows2.subrange(0, rows0.len() as int) =~= rows0) by {
            assert(forall|k: int|
                0 <= k < rows1.len() ==> rows2[k] == rows2.subrange(0, rows1.len() as int)[k]);
        }
        assert(forall|k: int|
            rows0.len() <= k < rows1.len() ==> rows2[k] == rows1[k]);
    }
}

/// No eligible sources, no inserts: a pass over an empty id list leaves the
/// table exactly as it was.
pub proof fn lemma_no_sources_no_inserts(rows0: Seq<ProcessRow>, rows1: Seq<ProcessRow>, now: int)
    requires
        schedule_appended_ok(rows0, rows1, Seq::empty(), now),
    ensures
        rows1 == rows0,
{
    if rows1.len() > rows0.len() {
        assert(Seq::<u32>::empty().contains(rows1[rows0.len() as int].source_id));
        let k = choose|k: int|
            0 <= k < Seq::<u32>::empty().len() && Seq::<u32>::empty()[k] == rows1[rows0.len() as int].source_id;
        assert(false);
    }
    assert(rows1 =~= rows0);
}

/// No process row of a well-formed table is processing and unassigned: the
/// assignment write is the only writer of the processing state, and it sets
/// the supervisor in the same write.
pub proof fn lemma_processing_has_supervisor(rows: Seq<ProcessRow>, i: int)
    requires
        rows_wf(rows),
        0 <= i < rows.len(),
        rows[i].state == DispatchState::Processing,
    ensures
        rows[i].supervisor_id is Some,
{
}

/// The assignment write touches at most one row, however the candidate
/// stream repeats itself.
pub proof fn lemma_assign_changes_at_most_one_row(
    rows: Seq<ProcessRow>,
    id: u128,
    sup: u128,
    st: DispatchState,
)
    ensures
        spec_assign_rows(rows, id, sup, st).len() == rows.len(),
        forall|i: int, j: int|
            0 <= i < rows.len() && 0 <= j < rows.len() && spec_assign_rows(rows, id, sup, st)[i]
                != rows[i] && spec_assign_rows(rows, id, sup, st)[j] != rows[j] ==> i == j,
{
}

} // verus!
