//! The ledger: which versions have been applied, and when.

use vstd::prelude::*;

verus! {

/// One row of the ledger: a version and the time at which it was applied, in
/// seconds since the epoch.
#[derive(Clone, Debug, PartialEq, Eq)]
pub struct LedgerEntry {
    pub version: String,
    pub applied_at: i64,
}

/// A ledger row as a mathematical value.
pub struct EntryView {
    pub version: Seq<char>,
    pub applied_at: int,
}

impl View for LedgerEntry {
    type V = EntryView;

    open spec fn view(&self) -> EntryView {
        EntryView { version: self.version@, applied_at: self.applied_at as int }
    }
}

/// The rows held by a list of entries.
pub open spec fn rows_of(entries: Seq<LedgerEntry>) -> Seq<EntryView> {
    entries.map_values(|e: LedgerEntry| e@)
}

/// The versions of the rows, in the order of the rows.
pub open spec fn versions_of(rows: Seq<EntryView>) -> Seq<Seq<char>> {
    rows.map_values(|row: EntryView| row.version)
}

/// No row stands before a row that was applied earlier.
pub open spec fn in_applied_order(rows: Seq<EntryView>) -> bool {
    forall|i: int, j: int| 0 <= i <= j < rows.len() ==> rows[i].applied_at <= rows[j].applied_at
}

/// The rows of a ledger: one row per version, in applied order.
pub open spec fn ledger_rows(rows: Seq<EntryView>) -> bool {
    &&& versions_of(rows).no_duplicates()
    &&& in_applied_order(rows)
}

/// Where a row applied at `applied_at` goes: behind the last row that was not
/// applied later.
pub open spec fn slot_for(rows: Seq<EntryView>, applied_at: int) -> int
    decreases rows.len(),
{
    if rows.len() == 0 || rows.last().applied_at <= applied_at {
        rows.len() as int
    } else {
        slot_for(rows.drop_last(), applied_at)
    }
}

/// The rows after `version` was recorded as applied at `applied_at`.
pub open spec fn with_applied(rows: Seq<EntryView>, version: Seq<char>, applied_at: int) -> Seq<
    EntryView,
> {
    rows.insert(slot_for(rows, applied_at), EntryView { version, applied_at })
}

/// The test "is a row of another version than `version`".
pub open spec fn other_than(version: Seq<char>) -> spec_fn(EntryView) -> bool {
    |row: EntryView| row.version != version
}

/// The rows after the row of `version` was deleted.
pub open spec fn without(rows: Seq<EntryView>, version: Seq<char>) -> Seq<EntryView> {
    rows.filter(other_than(version))
}

/// Why a ledger operation was refused.
#[derive(Clone, Copy, Debug, PartialEq, Eq, Structural)]
pub enum LedgerError {
    /// The ledger table does not exist.
    StorageError,
    /// The version is recorded already.
    ConflictError,
    /// The version is not recorded.
    NotFoundError,
}

/// The slot is a place in the list, with every later row behind it.
pub proof fn lemma_slot_for(rows: Seq<EntryView>, applied_at: int)
    ensures
        0 <= slot_for(rows, applied_at) <= rows.len(),
        forall|j: int|
            slot_for(rows, applied_at) <= j < rows.len() ==> (#[trigger] rows[j]).applied_at
                > applied_at,
        slot_for(rows, applied_at) > 0 ==> rows[slot_for(rows, applied_at) - 1].applied_at
            <= applied_at,
    decreases rows.len(),
{
    if rows.len() == 0 || rows.last().applied_at <= applied_at {
    } else {
        lemma_slot_for(rows.drop_last(), applied_at);
        let slot = slot_for(rows.drop_last(), applied_at);
        assert forall|j: int| slot <= j < rows.len() implies (#[trigger] rows[j]).applied_at
            > applied_at by {
            if j < rows.len() - 1 {
                assert(rows.drop_last()[j] == rows[j]);
            }
        }
        if slot > 0 {
            assert(rows.drop_last()[slot - 1] == rows[slot - 1]);
        }
    }
}

/// Recording a new version keeps the rows a ledger.
pub proof fn lemma_with_applied_keeps_ledger(
    rows: Seq<EntryView>,
    version: Seq<char>,
    applied_at: int,
)
    requires
        ledger_rows(rows),
        !versions_of(rows).contains(version),
    ensures
        ledger_rows(with_applied(rows, version, applied_at)),
        versions_of(with_applied(rows, version, applied_at)) == versions_of(rows).insert(
            slot_for(rows, applied_at),
            version,
        ),
{
    lemma_slot_for(rows, applied_at);
    let slot = slot_for(rows, applied_at);
    let after = with_applied(rows, version, applied_at);
    assert(versions_of(after) =~= versions_of(rows).insert(slot, version));
    assert forall|i: int, j: int| 0 <= i <= j < after.len() implies after[i].applied_at
        <= after[j].applied_at by {
        if slot > 0 {
            assert(rows[slot - 1].applied_at <= applied_at);
        }
        if i < slot && j < slot {
            assert(after[i] == rows[i] && after[j] == rows[j]);
        } else if i < slot && j == slot {
            assert(after[i] == rows[i]);
            assert(rows[i].applied_at <= rows[slot - 1].applied_at);
        } else if i < slot && j > slot {
            assert(after[i] == rows[i] && after[j] == rows[j - 1]);
        } else if i == slot && j > slot {
            assert(after[j] == rows[j - 1]);
        } else if i > slot {
            assert(after[i] == rows[i - 1] && after[j] == rows[j - 1]);
        }
    }
    assert forall|i: int, j: int|
        0 <= i < after.len() && 0 <= j < after.len() && i != j implies versions_of(after)[i]
        != versions_of(after)[j] by {
        let a = if i < slot {
            i
        } else {
            i - 1
        };
        let b = if j < slot {
            j
        } else {
            j - 1
        };
        if i == slot {
            assert(versions_of(rows)[b] == versions_of(after)[j]);
        } else if j == slot {
            assert(versions_of(rows)[a] == versions_of(after)[i]);
        } else {
            assert(versions_of(rows)[a] == versions_of(after)[i]);
            assert(versions_of(rows)[b] == versions_of(after)[j]);
        }
    }
}

/// Deleting by version takes out the one row of that version.
pub proof fn lemma_without_removes(rows: Seq<EntryView>, version: Seq<char>, place: int)
    requires
        versions_of(rows).no_duplicates(),
        0 <= place < rows.len(),
        rows[place].version == version,
    ensures
        without(rows, version) == rows.remove(place),
    decreases rows.len(),
{
    let keep = other_than(version);
    let front = rows.drop_last();
    assert(rows =~= front.push(rows.last()));
    front.lemma_filter_push(rows.last(), keep);
    assert(versions_of(front) =~= versions_of(rows).drop_last());
    if place == rows.len() - 1 {
        assert(!versions_of(front).contains(version)) by {
            if versions_of(front).contains(version) {
                let j = choose|j: int| 0 <= j < front.len() && versions_of(front)[j] == version;
                assert(versions_of(rows)[j] == versions_of(rows)[place]);
            }
        }
        lemma_without_keeps(front, version);
        assert(rows.remove(place) =~= front);
    } else {
        assert(versions_of(rows)[place] != versions_of(rows)[rows.len() - 1]);
        lemma_without_removes(front, version, place);
        assert(rows.remove(place) =~= front.remove(place).push(rows.last()));
    }
}

/// Deleting a version that is not recorded changes nothing.
pub proof fn lemma_without_keeps(rows: Seq<EntryView>, version: Seq<char>)
    requires
        !versions_of(rows).contains(version),
    ensures
        without(rows, version) == rows,
    decreases rows.len(),
{
    let keep = other_than(version);
    if rows.len() == 0 {
        assert(rows.filter(keep) =~= rows);
    } else {
        let front = rows.drop_last();
        assert(rows =~= front.push(rows.last()));
        front.lemma_filter_push(rows.last(), keep);
        assert(versions_of(rows)[rows.len() - 1] == rows.last().version);
        assert forall|i: int| 0 <= i < front.len() implies versions_of(front)[i] != version by {
            assert(versions_of(rows)[i] == versions_of(front)[i]);
        }
        lemma_without_keeps(front, version);
    }
}

/// Deleting a recorded version keeps the rows a ledger.
pub proof fn lemma_remove_keeps_ledger(rows: Seq<EntryView>, place: int)
    requires
        ledger_rows(rows),
        0 <= place < rows.len(),
    ensures
        ledger_rows(rows.remove(place)),
        versions_of(rows.remove(place)) == versions_of(rows).remove(place),
{
    let after = rows.remove(place);
    assert(versions_of(after) =~= versions_of(rows).remove(place));
    assert forall|i: int, j: int| 0 <= i <= j < after.len() implies after[i].applied_at
        <= after[j].applied_at by {
        let a = if i < place {
            i
        } else {
            i + 1
        };
        let b = if j < place {
            j
        } else {
            j + 1
        };
        assert(after[i] == rows[a] && after[j] == rows[b]);
    }
    assert forall|i: int, j: int|
        0 <= i < after.len() && 0 <= j < after.len() && i != j implies versions_of(after)[i]
        != versions_of(after)[j] by {
        let a = if i < place {
            i
        } else {
            i + 1
        };
        let b = if j < place {
            j
        } else {
            j + 1
        };
        assert(versions_of(after)[i] == versions_of(rows)[a]);
        assert(versions_of(after)[j] == versions_of(rows)[b]);
    }
}

/// A ledger held in memory.
///
/// It starts without its table. Once the table is installed it keeps one row
/// per applied version, in applied order.
#[derive(Clone, Debug, PartialEq, Eq)]
pub struct Ledger {
    installed: bool,
    entries: Vec<LedgerEntry>,
}

impl View for Ledger {
    type V = Seq<EntryView>;

    closed spec fn view(&self) -> Seq<EntryView> {
        rows_of(self.entries@)
    }
}

impl Ledger {
    /// Whether the table exists.
    pub closed spec fn installed(&self) -> bool {
        self.installed
    }

    /// The invariant of a ledger.
    pub open spec fn wf(&self) -> bool {
        &&& ledger_rows(self@)
        &&& !self.installed() ==> self@.len() == 0
    }

    /// A ledger whose table does not exist yet.
    pub fn new() -> (ledger: Ledger)
        ensures
            ledger.wf(),
            !ledger.installed(),
            ledger@ == Seq::<EntryView>::empty(),
    {
        let ledger = Ledger { installed: false, entries: Vec::new() };
        assert(ledger@ =~= Seq::<EntryView>::empty());
        ledger
    }

    /// Tells whether the table exists.
    pub fn is_installed(&self) -> (installed: bool)
        ensures
            installed == self.installed(),
    {
        self.installed
    }

    /// Creates the table if it is absent, and leaves the rows as they are.
    pub fn ensure_installed(&mut self)
        requires
            old(self).wf(),
        ensures
            final(self).wf(),
            final(self).installed(),
            final(self)@ == old(self)@,
    {
        self.installed = true;
    }

    /// The rows, in applied order.
    pub fn entries(&self) -> (entries: &Vec<LedgerEntry>)
        ensures
            rows_of(entries@) == self@,
    {
        &self.entries
    }

    /// Finds the row of `version`: the first such row, and under the
    /// invariant of the ledger the only one.
    pub fn find(&self, version: &String) -> (place: Option<usize>)
        ensures
            place is Some <==> versions_of(self@).contains(version@),
            place matches Some(i) ==> {
                &&& i < self@.len()
                &&& self@[i as int].version == version@
                &&& forall|j: int| 0 <= j < i ==> self@[j].version != version@
            },
    {
        let mut i: usize = 0;
        while i < self.entries.len()
            invariant
                i <= self.entries.len(),
                forall|j: int| 0 <= j < i ==> self.entries@[j].version@ != version@,
            decreases self.entries.len() - i,
        {
            if self.entries[i].version == *version {
                assert(versions_of(self@)[i as int] == version@);
                return Some(i);
            }
            i += 1;
        }
        assert(!versions_of(self@).contains(version@)) by {
            if versions_of(self@).contains(version@) {
                let j = choose|j: int|
                    0 <= j < versions_of(self@).len() && versions_of(self@)[j] == version@;
                assert(self.entries@[j].version@ == version@);
            }
        }
        None
    }

    /// Lists the applied versions, earliest first.
    ///
    /// Fails with `StorageError` exactly when the table does not exist.
    pub fn list_applied(&self) -> (listed: Result<Vec<String>, LedgerError>)
        ensures
            match listed {
                Ok(versions) => self.installed() && crate::names::names_of(versions@)
                    == versions_of(self@),
                Err(error) => !self.installed() && error == LedgerError::StorageError,
            },
    {
        if !self.installed {
            return Err(LedgerError::StorageError);
        }
        let mut versions: Vec<String> = Vec::new();
        let mut i: usize = 0;
        while i < self.entries.len()
            invariant
                i <= self.entries.len(),
                versions.len() == i,
                forall|j: int| 0 <= j < i ==> versions@[j]@ == self.entries@[j].version@,
            decreases self.entries.len() - i,
        {
            versions.push(self.entries[i].version.clone());
            i += 1;
        }
        assert(crate::names::names_of(versions@) =~= versions_of(self@));
        Ok(versions)
    }

    /// Records `version` as applied at `applied_at`.
    ///
    /// Fails with `StorageError` when the table does not exist, and with
    /// `ConflictError` when the version is recorded already; the ledger is
    /// then unchanged.
    pub fn record_applied(&mut self, version: String, applied_at: i64) -> (done: Result<
        (),
        LedgerError,
    >)
        requires
            old(self).wf(),
        ensures
            final(self).wf(),
            final(self).installed() == old(self).installed(),
            match done {
                Ok(()) => {
                    &&& old(self).installed()
                    &&& !versions_of(old(self)@).contains(version@)
                    &&& final(self)@ == with_applied(old(self)@, version@, applied_at as int)
                },
                Err(error) => {
                    &&& final(self)@ == old(self)@
                    &&& error == if !old(self).installed() {
                        LedgerError::StorageError
                    } else {
                        LedgerError::ConflictError
                    }
                    &&& !old(self).installed() || versions_of(old(self)@).contains(version@)
                },
            },
    {
        if !self.installed {
            return Err(LedgerError::StorageError);
        }
        if self.find(&version).is_some() {
            return Err(LedgerError::ConflictError);
        }
        let ghost rows = self@;
        let mut slot: usize = self.entries.len();
        assert(rows.take(rows.len() as int) =~= rows);
        while slot > 0 && self.entries[slot - 1].applied_at > applied_at
            invariant
                slot <= self.entries.len(),
                rows == rows_of(self.entries@),
                slot_for(rows, applied_at as int) == slot_for(rows.take(slot as int), applied_at as int),
            decreases slot,
        {
            assert(rows.take(slot as int).drop_last() =~= rows.take(slot - 1));
            slot -= 1;
        }
        assert(slot_for(rows, applied_at as int) == slot) by {
            if slot > 0 {
                assert(rows.take(slot as int).last() == rows[slot - 1]);
            }
        }
        proof {
            lemma_with_applied_keeps_ledger(rows, version@, applied_at as int);
        }
        self.entries.insert(slot, LedgerEntry { version, applied_at });
        assert(self@ =~= with_applied(rows, version@, applied_at as int));
        Ok(())
    }

    /// Deletes the row of `version`.
    ///
    /// Fails with `StorageError` when the table does not exist, and with
    /// `NotFoundError` when the version is not recorded; the ledger is then
    /// unchanged.
    pub fn record_reverted(&mut self, version: &String) -> (done: Result<(), LedgerError>)
        requires
            old(self).wf(),
        ensures
            final(self).wf(),
            final(self).installed() == old(self).installed(),
            match done {
                Ok(()) => {
                    &&& old(self).installed()
                    &&& versions_of(old(self)@).contains(version@)
                    &&& final(self)@ == without(old(self)@, version@)
                },
                Err(error) => {
                    &&& final(self)@ == old(self)@
                    &&& error == if !old(self).installed() {
                        LedgerError::StorageError
                    } else {
                        LedgerError::NotFoundError
                    }
                    &&& !old(self).installed() || !versions_of(old(self)@).contains(version@)
                },
            },
    {
        if !self.installed {
            return Err(LedgerError::StorageError);
        }
        match self.find(version) {
            None => Err(LedgerError::NotFoundError),
            Some(place) => {
                let ghost rows = self@;
                proof {
                    lemma_without_removes(rows, version@, place as int);
                    lemma_remove_keeps_ledger(rows, place as int);
                }
                self.entries.remove(place);
                assert(self@ =~= rows.remove(place as int));
                Ok(())
            },
        }
    }
}

} // verus!
