//! A bounded, ordered history of reversible mutation records with
//! undo/redo stack discipline.
//!
//! Entries carry monotonically increasing ids.  Logging a new action
//! first purges every undone entry (a new action discards the pending
//! redo branch), then appends the new record, then trims the log to
//! its capacity, evicting the lowest ids first — in exactly that
//! order, since reordering would change which entries survive under
//! capacity pressure.
//!
//! Marking an entry undone or redone only flips its flag; applying the
//! inverse mutation is the caller's job.  Capacity trimming removes by
//! id regardless of the undone flag, so a log that is filled while a
//! redo suffix is pending can truncate that suffix; the history keeps
//! the most recent records either way.

use vstd::prelude::*;

use crate::CoreError;

verus! {

/// The log holds at most this many entries.
pub const LOG_CAPACITY: usize = 50;

/// One reversible step: what was done, to which row, and the opaque
/// serialized snapshots before and after.  The log never interprets
/// the snapshots.
#[derive(Debug)]
pub struct ActionLogEntry {
    pub id: i64,
    pub action_type: String,
    pub target_table: String,
    pub target_id: i64,
    pub old_value: Option<String>,
    pub new_value: Option<String>,
    pub created_at: String,
    pub is_undone: i64,
}

/// `e` with its undone flag replaced.
pub open spec fn entry_with_flag(e: ActionLogEntry, u: i64) -> ActionLogEntry {
    ActionLogEntry { is_undone: u, ..e }
}

/// The entries that have not been undone, in order.
pub open spec fn active_entries(s: Seq<ActionLogEntry>) -> Seq<ActionLogEntry> {
    s.filter(|e: ActionLogEntry| e.is_undone == 0)
}

/// What logging `e` does to a log `s`: purge the undone entries,
/// append `e`, and keep only the newest `LOG_CAPACITY` entries.
pub open spec fn log_action_spec(s: Seq<ActionLogEntry>, e: ActionLogEntry) -> Seq<
    ActionLogEntry,
> {
    let appended = active_entries(s).push(e);
    appended.skip(
        if appended.len() > LOG_CAPACITY as int {
            appended.len() - LOG_CAPACITY as int
        } else {
            0
        },
    )
}

/// The index of the newest entry that is not undone, or -1.
pub open spec fn last_active_index(s: Seq<ActionLogEntry>) -> int
    decreases s.len(),
{
    if s.len() == 0 {
        -1
    } else if s.last().is_undone == 0 {
        s.len() - 1
    } else {
        last_active_index(s.drop_last())
    }
}

/// The index of the oldest entry that is undone, or -1.
pub open spec fn first_undone_index(s: Seq<ActionLogEntry>) -> int
    decreases s.len(),
{
    if s.len() == 0 {
        -1
    } else if s[0].is_undone != 0 {
        0
    } else {
        let r = first_undone_index(s.drop_first());
        if r == -1 {
            -1
        } else {
            r + 1
        }
    }
}

/// The undone entries form a contiguous suffix: once an entry is
/// undone, every newer entry is undone too.
pub open spec fn undone_is_suffix(s: Seq<ActionLogEntry>) -> bool {
    forall|i: int, j: int|
        0 <= i < j < s.len() && s[i].is_undone != 0 ==> s[j].is_undone != 0
}

/// The bounded action log.
pub struct ActionLog {
    entries: Vec<ActionLogEntry>,
    next_id: i64,
}

impl ActionLog {
    /// The recorded entries, oldest first.
    pub closed spec fn log(&self) -> Seq<ActionLogEntry> {
        self.entries@
    }

    /// The id the next logged action will get.
    pub closed spec fn next_id_spec(&self) -> i64 {
        self.next_id
    }

    /// Well-formedness: ids strictly increase with position and stay
    /// below the next id, flags are 0 or 1, and the capacity holds.
    pub open spec fn wf(&self) -> bool {
        &&& forall|i: int, j: int|
            0 <= i < j < self.log().len() ==> self.log()[i].id < self.log()[j].id
        &&& forall|i: int|
            0 <= i < self.log().len() ==> self.log()[i].id < self.next_id_spec()
        &&& forall|i: int|
            0 <= i < self.log().len() ==> (#[trigger] self.log()[i].is_undone == 0
                || self.log()[i].is_undone == 1)
        &&& self.log().len() <= LOG_CAPACITY as int
        &&& 1 <= self.next_id_spec()
    }

    /// An empty log; ids start at 1.
    pub fn new() -> (r: ActionLog)
        ensures
            r.wf(),
            r.log() == Seq::<ActionLogEntry>::empty(),
            r.next_id_spec() == 1,
    {
        let r = ActionLog { entries: Vec::new(), next_id: 1 };
        proof {
            assert(r.log() =~= Seq::<ActionLogEntry>::empty());
        }
        r
    }

    /// Record one action: purge the redo suffix, append the new entry
    /// under a fresh id, trim to capacity (oldest id first), and
    /// return the new id.  Afterwards no entry is undone.
    pub fn log_action(
        &mut self,
        action_type: String,
        target_table: String,
        target_id: i64,
        old_value: Option<String>,
        new_value: Option<String>,
        created_at: String,
    ) -> (id: i64)
        requires
            old(self).wf(),
            old(self).next_id_spec() < i64::MAX,
        ensures
            final(self).wf(),
            id == old(self).next_id_spec(),
            final(self).next_id_spec() == id + 1,
            final(self).log() == log_action_spec(
                old(self).log(),
                ActionLogEntry {
                    id,
                    action_type,
                    target_table,
                    target_id,
                    old_value,
                    new_value,
                    created_at,
                    is_undone: 0,
                },
            ),
            forall|j: int|
                0 <= j < final(self).log().len() ==> final(self).log()[j].is_undone == 0,
    {
        let ghost s0 = self.entries@;
        let mut kept: Vec<ActionLogEntry> = Vec::new();
        let n = self.entries.len();
        let mut i: usize = 0;
        while i < n
            invariant
                0 <= i <= n,
                n == self.entries@.len(),
                self.entries@ == s0,
                kept@ == active_entries(s0.take(i as int)),
            decreases n - i,
        {
            let ghost prev = kept@;
            if self.entries[i].is_undone == 0 {
                kept.push(clone_entry(&self.entries[i]));
            }
            proof {
                reveal(Seq::filter);
                assert(s0.take(i + 1).drop_last() =~= s0.take(i as int));
                if s0[i as int].is_undone == 0 {
                    assert(kept@ =~= prev.push(s0[i as int]));
                } else {
                    assert(kept@ =~= prev);
                }
            }
            i = i + 1;
        }
        proof {
            assert(s0.take(n as int) =~= s0);
        }
        let id = self.next_id;
        let entry = ActionLogEntry {
            id,
            action_type,
            target_table,
            target_id,
            old_value,
            new_value,
            created_at,
            is_undone: 0,
        };
        kept.push(entry);
        let ghost appended = kept@;
        if kept.len() > LOG_CAPACITY {
            kept.remove(0);
            proof {
                assert(kept@ =~= appended.skip(1));
            }
        }
        proof {
            lemma_active_entries_structure(s0);
        }
        self.entries = kept;
        self.next_id = id + 1;
        proof {
            // Ids still increase strictly: within the purged log by
            // its own order, and against the new entry because every
            // purged entry comes from the log, whose ids lie below
            // the fresh one.
            assert forall|a: int, b: int|
                0 <= a < b < self.log().len() implies self.log()[a].id < self.log()[b].id by {
                let f = active_entries(s0);
                let off = if appended.len() > LOG_CAPACITY as int {
                    appended.len() - LOG_CAPACITY as int
                } else {
                    0
                };
                if b + off < f.len() {
                } else {
                    let ia = choose|ia: int| 0 <= ia < s0.len() && f[a + off] == s0[ia];
                }
            }
        }
        id
    }

    /// The newest entry that is not undone — the next undo step — or
    /// nothing when every entry is undone or the log is empty.
    pub fn get_last_undoable_action(&self) -> (r: Option<ActionLogEntry>)
        ensures
            r is None <==> last_active_index(self.log()) == -1,
            r matches Some(e) ==> 0 <= last_active_index(self.log()) && e == self.log()[
                last_active_index(self.log())
            ],
    {
        let n = self.entries.len();
        let mut i: usize = n;
        while i > 0
            invariant
                0 <= i <= n,
                n == self.entries@.len(),
                forall|j: int| i <= j < n ==> self.entries@[j].is_undone != 0,
            decreases i,
        {
            if self.entries[i - 1].is_undone == 0 {
                proof {
                    lemma_last_active_at(self.entries@, i - 1);
                }
                return Some(clone_entry(&self.entries[i - 1]));
            }
            i = i - 1;
        }
        proof {
            lemma_last_active_at(self.entries@, -1);
        }
        None
    }

    /// The oldest entry that is undone — the next redo step — or
    /// nothing when no entry is undone.
    pub fn get_last_redoable_action(&self) -> (r: Option<ActionLogEntry>)
        ensures
            r is None <==> first_undone_index(self.log()) == -1,
            r matches Some(e) ==> 0 <= first_undone_index(self.log()) && e == self.log()[
                first_undone_index(self.log())
            ],
    {
        let n = self.entries.len();
        let mut i: usize = 0;
        while i < n
            invariant
                0 <= i <= n,
                n == self.entries@.len(),
                forall|j: int| 0 <= j < i ==> self.entries@[j].is_undone == 0,
            decreases n - i,
        {
            if self.entries[i].is_undone != 0 {
                proof {
                    lemma_first_undone_at(self.entries@, i as int);
                }
                return Some(clone_entry(&self.entries[i]));
            }
            i = i + 1;
        }
        proof {
            lemma_first_undone_at(self.entries@, -1);
        }
        None
    }

    /// Flip the named entry to undone.  Fails with `NotFound` when no
    /// entry carries the id; everything else is untouched.
    pub fn mark_action_undone(&mut self, action_id: i64) -> (r: Result<(), CoreError>)
        requires
            old(self).wf(),
        ensures
            final(self).wf(),
            final(self).log().len() == old(self).log().len(),
            final(self).next_id_spec() == old(self).next_id_spec(),
            forall|j: int|
                0 <= j < old(self).log().len() && old(self).log()[j].id != action_id
                    ==> final(self).log()[j] == old(self).log()[j],
            forall|j: int|
                0 <= j < old(self).log().len() && old(self).log()[j].id == action_id
                    ==> final(self).log()[j] == entry_with_flag(old(self).log()[j], 1),
            r is Err <==> (forall|j: int|
                0 <= j < old(self).log().len() ==> old(self).log()[j].id != action_id),
            r matches Err(e) ==> e == CoreError::NotFound,
    {
        self.set_undone_flag(action_id, 1)
    }

    /// Flip the named entry back to not undone.  Fails with
    /// `NotFound` when no entry carries the id.
    pub fn mark_action_redone(&mut self, action_id: i64) -> (r: Result<(), CoreError>)
        requires
            old(self).wf(),
        ensures
            final(self).wf(),
            final(self).log().len() == old(self).log().len(),
            final(self).next_id_spec() == old(self).next_id_spec(),
            forall|j: int|
                0 <= j < old(self).log().len() && old(self).log()[j].id != action_id
                    ==> final(self).log()[j] == old(self).log()[j],
            forall|j: int|
                0 <= j < old(self).log().len() && old(self).log()[j].id == action_id
                    ==> final(self).log()[j] == entry_with_flag(old(self).log()[j], 0),
            r is Err <==> (forall|j: int|
                0 <= j < old(self).log().len() ==> old(self).log()[j].id != action_id),
            r matches Err(e) ==> e == CoreError::NotFound,
    {
        self.set_undone_flag(action_id, 0)
    }

    /// The id the next logged action will get.  Callers that cannot
    /// carry proofs check this against the id space before logging.
    pub fn next_action_id(&self) -> (id: i64)
        ensures
            id == self.next_id_spec(),
    {
        self.next_id
    }

    /// How many entries the log holds.
    pub fn len(&self) -> (n: usize)
        ensures
            n == self.log().len(),
    {
        self.entries.len()
    }

    /// A copy of the entry at a position, oldest first.
    pub fn entry_at(&self, i: usize) -> (r: ActionLogEntry)
        requires
            i < self.log().len(),
        ensures
            r == self.log()[i as int],
    {
        clone_entry(&self.entries[i])
    }

    fn set_undone_flag(&mut self, action_id: i64, flag: i64) -> (r: Result<(), CoreError>)
        requires
            old(self).wf(),
            flag == 0 || flag == 1,
        ensures
            final(self).wf(),
            final(self).log().len() == old(self).log().len(),
            final(self).next_id_spec() == old(self).next_id_spec(),
            forall|j: int|
                0 <= j < old(self).log().len() && old(self).log()[j].id != action_id
                    ==> final(self).log()[j] == old(self).log()[j],
            forall|j: int|
                0 <= j < old(self).log().len() && old(self).log()[j].id == action_id
                    ==> final(self).log()[j] == entry_with_flag(old(self).log()[j], flag),
            r is Err <==> (forall|j: int|
                0 <= j < old(self).log().len() ==> old(self).log()[j].id != action_id),
            r matches Err(e) ==> e == CoreError::NotFound,
    {
        let ghost s0 = self.entries@;
        let n = self.entries.len();
        let mut i: usize = 0;
        while i < n
            invariant
                0 <= i <= n,
                n == self.entries@.len(),
                self.entries@ == s0,
                s0 == old(self).log(),
                self.next_id == old(self).next_id_spec(),
                old(self).wf(),
                flag == 0 || flag == 1,
                forall|j: int| 0 <= j < i ==> s0[j].id != action_id,
            decreases n - i,
        {
            if self.entries[i].id == action_id {
                let e = clone_entry(&self.entries[i]);
                let updated = ActionLogEntry { is_undone: flag, ..e };
                self.entries.set(i, updated);
                proof {
                    assert forall|j: int|
                        0 <= j < s0.len() && s0[j].id == action_id implies self.log()[j]
                        == entry_with_flag(s0[j], flag) by {
                        if j != i {
                            assert(s0[j].id < s0[i as int].id || s0[i as int].id < s0[j].id);
                        }
                    }
                    assert(s0[i as int].id == action_id);
                }
                return Ok(());
            }
            i = i + 1;
        }
        Err(CoreError::NotFound)
    }
}

/// A field-for-field copy of an entry.
fn clone_entry(e: &ActionLogEntry) -> (r: ActionLogEntry)
    ensures
        r == *e,
{
    ActionLogEntry {
        id: e.id,
        action_type: e.action_type.clone(),
        target_table: e.target_table.clone(),
        target_id: e.target_id,
        old_value: match &e.old_value {
            Some(v) => Some(v.clone()),
            None => None,
        },
        new_value: match &e.new_value {
            Some(v) => Some(v.clone()),
            None => None,
        },
        created_at: e.created_at.clone(),
        is_undone: e.is_undone,
    }
}

// ---------------------------------------------------------------------------
// Lemmas about the spec functions
// ---------------------------------------------------------------------------

/// Every active entry comes from the log it was filtered out of, and purging keeps
/// the strict id order.
proof fn lemma_active_entries_structure(s: Seq<ActionLogEntry>)
    ensures
        forall|k: int|
            0 <= k < active_entries(s).len() ==> exists|i: int|
                0 <= i < s.len() && #[trigger] active_entries(s)[k] == s[i],
        forall|k: int|
            0 <= k < active_entries(s).len() ==> #[trigger] active_entries(s)[k].is_undone == 0,
        (forall|i: int, j: int| 0 <= i < j < s.len() ==> s[i].id < s[j].id) ==> (forall|
            k: int,
            l: int,
        |
            0 <= k < l < active_entries(s).len() ==> active_entries(s)[k].id < active_entries(
                s,
            )[l].id),
    decreases s.len(),
{
    reveal(Seq::filter);
    if s.len() > 0 {
        let d = s.drop_last();
        lemma_active_entries_structure(d);
        let fd = active_entries(d);
        let f = active_entries(s);
        assert forall|k: int| 0 <= k < f.len() implies exists|i: int|
            0 <= i < s.len() && #[trigger] f[k] == s[i] by {
            if k < fd.len() {
                let i = choose|i: int| 0 <= i < d.len() && fd[k] == d[i];
                assert(f[k] == s[i]);
            } else {
                assert(f[k] == s[s.len() - 1]);
            }
        }
        if forall|i: int, j: int| 0 <= i < j < s.len() ==> s[i].id < s[j].id {
            assert forall|k: int, l: int| 0 <= k < l < f.len() implies f[k].id < f[l].id by {
                if l < fd.len() {
                } else {
                    let i = choose|i: int| 0 <= i < d.len() && fd[k] == d[i];
                    assert(s[i].id < s[s.len() - 1].id);
                }
            }
        }
    }
}

/// `last_active_index` is pinned by what the scan from the end saw.
proof fn lemma_last_active_at(s: Seq<ActionLogEntry>, k: int)
    requires
        -1 <= k < s.len(),
        forall|j: int| k < j < s.len() ==> s[j].is_undone != 0,
        k >= 0 ==> s[k].is_undone == 0,
    ensures
        last_active_index(s) == k,
    decreases s.len(),
{
    if s.len() > 0 {
        if s.last().is_undone == 0 {
            assert(k == s.len() - 1);
        } else {
            lemma_last_active_at(s.drop_last(), k);
        }
    }
}

/// `first_undone_index` is pinned by what the scan from the front saw.
proof fn lemma_first_undone_at(s: Seq<ActionLogEntry>, k: int)
    requires
        -1 <= k < s.len(),
        forall|j: int| 0 <= j < k ==> s[j].is_undone == 0,
        k >= 0 ==> s[k].is_undone != 0,
        k == -1 ==> forall|j: int| 0 <= j < s.len() ==> s[j].is_undone == 0,
    ensures
        first_undone_index(s) == k,
    decreases s.len(),
{
    if s.len() > 0 && s[0].is_undone == 0 {
        if k == -1 {
            lemma_first_undone_at(s.drop_first(), -1);
        } else {
            lemma_first_undone_at(s.drop_first(), k - 1);
        }
    }
}

/// Everything newer than the last active entry is undone; the entry
/// itself, when it exists, is active.
pub proof fn lemma_last_active_props(s: Seq<ActionLogEntry>)
    ensures
        -1 <= last_active_index(s) < s.len(),
        forall|j: int| last_active_index(s) < j < s.len() ==> s[j].is_undone != 0,
        last_active_index(s) >= 0 ==> s[last_active_index(s)].is_undone == 0,
    decreases s.len(),
{
    if s.len() > 0 && s.last().is_undone != 0 {
        lemma_last_active_props(s.drop_last());
        assert forall|j: int| last_active_index(s) < j < s.len() implies s[j].is_undone != 0 by {
            if j < s.len() - 1 {
                assert(s.drop_last()[j] == s[j]);
            }
        }
    }
}

/// Everything older than the first undone entry is active; the entry
/// itself, when it exists, is undone.
pub proof fn lemma_first_undone_props(s: Seq<ActionLogEntry>)
    ensures
        -1 <= first_undone_index(s) < s.len(),
        forall|j: int| 0 <= j < first_undone_index(s) ==> s[j].is_undone == 0,
        first_undone_index(s) >= 0 ==> s[first_undone_index(s)].is_undone != 0,
        first_undone_index(s) == -1 ==> forall|j: int|
            0 <= j < s.len() ==> s[j].is_undone == 0,
    decreases s.len(),
{
    if s.len() > 0 && s[0].is_undone == 0 {
        lemma_first_undone_props(s.drop_first());
        assert forall|j: int| 0 < j < first_undone_index(s) implies s[j].is_undone == 0 by {
            assert(s.drop_first()[j - 1] == s[j]);
        }
        if first_undone_index(s) == -1 {
            assert forall|j: int| 0 < j < s.len() implies s[j].is_undone == 0 by {
                assert(s.drop_first()[j - 1] == s[j]);
            }
        }
    }
}

// ---------------------------------------------------------------------------
// Laws
// ---------------------------------------------------------------------------

/// Law: logging a new action purges the whole redo suffix, so
/// afterwards no entry is undone at all, and in particular the undone
/// entries still form a contiguous suffix.
pub proof fn lemma_log_action_purges_redo(s: Seq<ActionLogEntry>, e: ActionLogEntry)
    requires
        e.is_undone == 0,
    ensures
        forall|i: int|
            0 <= i < log_action_spec(s, e).len() ==> #[trigger] log_action_spec(s, e)[i].is_undone
                == 0,
        undone_is_suffix(log_action_spec(s, e)),
{
    lemma_active_entries_structure(s);
}

/// Law: logging keeps the log within its capacity.  The new entry
/// always survives at the end; when the purged log would overflow,
/// exactly the lowest-id entries are evicted, so the result holds
/// exactly `LOG_CAPACITY` entries.
pub proof fn lemma_log_action_capacity(s: Seq<ActionLogEntry>, e: ActionLogEntry)
    ensures
        ({
            let appended = active_entries(s).push(e);
            let result = log_action_spec(s, e);
            &&& result.len() == (if appended.len() > LOG_CAPACITY as int {
                LOG_CAPACITY as int
            } else {
                appended.len() as int
            })
            &&& result.len() > 0
            &&& result.last() == e
            &&& forall|i: int|
                0 <= i < result.len() ==> result[i] == appended[appended.len() - result.len() + i]
        }),
{
}

/// Law: undoing the newest not-undone entry keeps the undone entries
/// a contiguous suffix.
pub proof fn lemma_mark_undone_keeps_suffix(s: Seq<ActionLogEntry>, k: int)
    requires
        undone_is_suffix(s),
        0 <= k < s.len(),
        k == last_active_index(s),
    ensures
        undone_is_suffix(s.update(k, entry_with_flag(s[k], 1))),
{
    lemma_last_active_props(s);
}

/// Law: redoing the oldest undone entry keeps the undone entries a
/// contiguous suffix.
pub proof fn lemma_mark_redone_keeps_suffix(s: Seq<ActionLogEntry>, k: int)
    requires
        undone_is_suffix(s),
        0 <= k < s.len(),
        k == first_undone_index(s),
    ensures
        undone_is_suffix(s.update(k, entry_with_flag(s[k], 0))),
{
    lemma_first_undone_props(s);
}

/// Law: among the entries that are not undone, the one `PeekUndo`
/// returns has the highest id — the most recently logged one.
pub proof fn lemma_peek_undo_is_newest_active(s: Seq<ActionLogEntry>)
    requires
        forall|i: int, j: int| 0 <= i < j < s.len() ==> s[i].id < s[j].id,
    ensures
        forall|j: int|
            0 <= j < s.len() && s[j].is_undone == 0 ==> 0 <= last_active_index(s) && s[j].id <= s[
                last_active_index(s)
            ].id,
{
    lemma_last_active_props(s);
    assert forall|j: int|
        0 <= j < s.len() && s[j].is_undone == 0 implies 0 <= last_active_index(s) && s[j].id <= s[
        last_active_index(s)
    ].id by {
        if j > last_active_index(s) {
            assert(s[j].is_undone != 0);
        }
    }
}

} // verus!
