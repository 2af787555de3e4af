//! The directory registry and the catalog of media files, with the
//! reconciliation logic that links them.
//!
//! The registry holds the watched roots; the catalog holds one entry
//! per media file ever sighted.  Adding a directory registers (or
//! reactivates) its row, records the scanned files, links unlinked
//! entries under the directory by path prefix, and refreshes the
//! row's statistics.  Removing a directory unlinks its entries but
//! never deletes them: their annotations belong to the user.
//!
//! Walking directory trees is input/output and happens outside the
//! library; every operation here takes the scan results as plain
//! values.

use vstd::prelude::*;

use crate::CoreError;
use crate::media::{file_type_label, get_file_type, media_kind_spec, seq_views};
use crate::text::{file_name_spec, get_file_name, str_eq, str_starts_with};
use crate::watcher::FileChangePayload;

verus! {

/// One watched root: its path, the display name derived from the
/// path's last segment, whether it takes part in rescans and
/// watching, and its scan statistics.
#[derive(Debug)]
pub struct DirectoryData {
    pub id: i64,
    pub path: String,
    pub name: String,
    pub is_active: i64,
    pub last_scanned_at: Option<String>,
    pub file_count: i64,
    pub created_at: String,
}

/// One catalog row: a media file sighted on disk, optionally linked
/// to the watched directory it lies under.
#[derive(Debug)]
pub struct CatalogEntry {
    pub id: i64,
    pub file_path: String,
    pub file_name: String,
    pub file_type: String,
    pub directory_id: Option<i64>,
}

// ---------------------------------------------------------------------------
// Spec helpers
// ---------------------------------------------------------------------------

/// Is some directory row carrying this id?
pub open spec fn has_dir_id(ds: Seq<DirectoryData>, id: i64) -> bool {
    exists|i: int| 0 <= i < ds.len() && ds[i].id == id
}

/// The first index whose row carries `id`, or -1.
pub open spec fn dir_index_of(ds: Seq<DirectoryData>, id: i64) -> int
    decreases ds.len(),
{
    if ds.len() == 0 {
        -1
    } else if ds[0].id == id {
        0
    } else {
        let r = dir_index_of(ds.drop_first(), id);
        if r == -1 {
            -1
        } else {
            r + 1
        }
    }
}

/// The first index whose row's path reads `p`, or -1.
pub open spec fn dir_path_index_of(ds: Seq<DirectoryData>, p: Seq<char>) -> int
    decreases ds.len(),
{
    if ds.len() == 0 {
        -1
    } else if ds[0].path@ == p {
        0
    } else {
        let r = dir_path_index_of(ds.drop_first(), p);
        if r == -1 {
            -1
        } else {
            r + 1
        }
    }
}

/// The first index whose entry's path reads `p`, or -1.
pub open spec fn entry_path_index_of(es: Seq<CatalogEntry>, p: Seq<char>) -> int
    decreases es.len(),
{
    if es.len() == 0 {
        -1
    } else if es[0].file_path@ == p {
        0
    } else {
        let r = entry_path_index_of(es.drop_first(), p);
        if r == -1 {
            -1
        } else {
            r + 1
        }
    }
}

/// Is some catalog entry recorded under this path?
pub open spec fn has_entry_path(es: Seq<CatalogEntry>, p: Seq<char>) -> bool {
    exists|i: int| 0 <= i < es.len() && es[i].file_path@ == p
}

/// No two strings of the sequence read the same.
pub open spec fn distinct_views(v: Seq<String>) -> bool {
    forall|i: int, j: int| 0 <= i < j < v.len() ==> v[i]@ != v[j]@
}

/// What backfilling does to one entry: an unlinked entry whose path
/// starts with the prefix is linked to the directory; every other
/// entry is untouched.
pub open spec fn backfill_entry(e: CatalogEntry, id: i64, prefix: Seq<char>) -> CatalogEntry {
    if e.directory_id is None && prefix.is_prefix_of(e.file_path@) {
        CatalogEntry { directory_id: Some(id), ..e }
    } else {
        e
    }
}

/// Backfilling applied to the whole catalog.
pub open spec fn backfill_spec(es: Seq<CatalogEntry>, id: i64, prefix: Seq<char>) -> Seq<
    CatalogEntry,
> {
    es.map_values(|e: CatalogEntry| backfill_entry(e, id, prefix))
}

/// What removing a directory does to one entry: a link to the removed
/// directory is nulled, nothing else changes and no entry is deleted.
pub open spec fn unlink_entry(e: CatalogEntry, id: i64) -> CatalogEntry {
    if e.directory_id == Some(id) {
        CatalogEntry { directory_id: None, ..e }
    } else {
        e
    }
}

/// Unlinking applied to the whole catalog.
pub open spec fn unlink_spec(es: Seq<CatalogEntry>, id: i64) -> Seq<CatalogEntry> {
    es.map_values(|e: CatalogEntry| unlink_entry(e, id))
}

/// How many entries are linked to the directory.
pub open spec fn linked_count(es: Seq<CatalogEntry>, id: i64) -> int {
    es.filter(|e: CatalogEntry| e.directory_id == Some(id)).len() as int
}

/// The paths of `scanned` that are new to a catalog `es`, in order.
pub open spec fn fresh_paths(scanned: Seq<String>, es: Seq<CatalogEntry>) -> Seq<Seq<char>> {
    seq_views(scanned).filter(|q: Seq<char>| !has_entry_path(es, q))
}

/// The prefix a directory path covers: the path ending in exactly
/// one separator.
pub open spec fn dir_prefix_spec(p: Seq<char>) -> Seq<char> {
    if p.len() > 0 && p.last() == '/' {
        p
    } else {
        p.push('/')
    }
}

/// The prefix a directory path covers, as a string.
pub fn dir_prefix(path: &str) -> (r: String)
    ensures
        r@ == dir_prefix_spec(path@),
{
    let n = path.unicode_len();
    if n > 0 && path.get_char(n - 1) == '/' {
        path.to_owned()
    } else {
        let mut s = path.to_owned();
        s.append("/");
        proof {
            reveal_strlit("/");
            assert(path@ + "/"@ =~= path@.push('/'));
        }
        s
    }
}

// ---------------------------------------------------------------------------
// Index lemmas
// ---------------------------------------------------------------------------

proof fn lemma_dir_index_at(ds: Seq<DirectoryData>, id: i64, k: int)
    requires
        -1 <= k < ds.len(),
        k >= 0 ==> ds[k].id == id,
        forall|j: int| 0 <= j < (if k >= 0 { k } else { ds.len() as int }) ==> ds[j].id != id,
    ensures
        dir_index_of(ds, id) == k,
    decreases ds.len(),
{
    if ds.len() > 0 && ds[0].id != id {
        lemma_dir_index_at(ds.drop_first(), id, if k >= 0 { k - 1 } else { -1 });
    }
}

proof fn lemma_dir_path_index_at(ds: Seq<DirectoryData>, p: Seq<char>, k: int)
    requires
        -1 <= k < ds.len(),
        k >= 0 ==> ds[k].path@ == p,
        forall|j: int| 0 <= j < (if k >= 0 { k } else { ds.len() as int }) ==> ds[j].path@ != p,
    ensures
        dir_path_index_of(ds, p) == k,
    decreases ds.len(),
{
    if ds.len() > 0 && ds[0].path@ != p {
        lemma_dir_path_index_at(ds.drop_first(), p, if k >= 0 { k - 1 } else { -1 });
    }
}

proof fn lemma_entry_path_index_at(es: Seq<CatalogEntry>, p: Seq<char>, k: int)
    requires
        -1 <= k < es.len(),
        k >= 0 ==> es[k].file_path@ == p,
        forall|j: int| 0 <= j < (if k >= 0 { k } else { es.len() as int }) ==> es[j].file_path@
            != p,
    ensures
        entry_path_index_of(es, p) == k,
    decreases es.len(),
{
    if es.len() > 0 && es[0].file_path@ != p {
        lemma_entry_path_index_at(es.drop_first(), p, if k >= 0 { k - 1 } else { -1 });
    }
}

/// What one walk of an active directory came back with: the media
/// paths it found, or the walk's error message.
#[derive(Debug)]
pub struct DirectoryScanOutcome {
    pub directory_id: i64,
    pub scanned: Result<Vec<String>, String>,
}

/// The partial result of a bulk rescan: which directories were
/// refreshed and which were not.  One directory's failure never
/// aborts the rest; its error message stays with its outcome.
#[derive(Debug)]
pub struct RescanSummary {
    pub succeeded: Vec<i64>,
    pub failed: Vec<i64>,
}

/// The first outcome for a directory id, or -1.
pub open spec fn outcome_index_of(os: Seq<DirectoryScanOutcome>, id: i64) -> int
    decreases os.len(),
{
    if os.len() == 0 {
        -1
    } else if os[0].directory_id == id {
        0
    } else {
        let r = outcome_index_of(os.drop_first(), id);
        if r == -1 {
            -1
        } else {
            r + 1
        }
    }
}

/// Does this outcome refresh a row: its walk succeeded and its
/// directory is registered.
pub open spec fn outcome_applies(o: DirectoryScanOutcome, ds: Seq<DirectoryData>) -> bool {
    o.scanned is Ok && has_dir_id(ds, o.directory_id)
}

/// The ids a bulk rescan refreshes, in outcome order.
pub open spec fn rescan_successes(os: Seq<DirectoryScanOutcome>, ds: Seq<DirectoryData>) -> Seq<
    i64,
> {
    os.filter(|o: DirectoryScanOutcome| outcome_applies(o, ds)).map_values(
        |o: DirectoryScanOutcome| o.directory_id,
    )
}

/// The ids a bulk rescan could not refresh, in outcome order.
pub open spec fn rescan_failures(os: Seq<DirectoryScanOutcome>, ds: Seq<DirectoryData>) -> Seq<
    i64,
> {
    os.filter(|o: DirectoryScanOutcome| !outcome_applies(o, ds)).map_values(
        |o: DirectoryScanOutcome| o.directory_id,
    )
}

proof fn lemma_outcome_index_at(os: Seq<DirectoryScanOutcome>, id: i64, k: int)
    requires
        -1 <= k < os.len(),
        k >= 0 ==> os[k].directory_id == id,
        forall|j: int|
            0 <= j < (if k >= 0 {
                k
            } else {
                os.len() as int
            }) ==> os[j].directory_id != id,
    ensures
        outcome_index_of(os, id) == k,
    decreases os.len(),
{
    if os.len() > 0 && os[0].directory_id != id {
        lemma_outcome_index_at(os.drop_first(), id, if k >= 0 { k - 1 } else { -1 });
    }
}

proof fn lemma_outcome_index_push(os: Seq<DirectoryScanOutcome>, o: DirectoryScanOutcome, id: i64)
    ensures
        outcome_index_of(os.push(o), id) == (if outcome_index_of(os, id) >= 0 {
            outcome_index_of(os, id)
        } else if o.directory_id == id {
            os.len() as int
        } else {
            -1
        }),
        outcome_index_of(os, id) >= 0 ==> outcome_index_of(os.push(o), id) < os.len(),
    decreases os.len(),
{
    reveal_with_fuel(outcome_index_of, 3);
    lemma_outcome_index_props(os, id);
    if os.len() == 0 {
        assert(os.push(o)[0] == o);
        if o.directory_id != id {
            assert(os.push(o).drop_first() =~= Seq::<DirectoryScanOutcome>::empty());
        }
    } else {
        assert(os.push(o)[0] == os[0]);
        if os[0].directory_id != id {
            lemma_outcome_index_push(os.drop_first(), o, id);
            lemma_outcome_index_props(os.drop_first(), id);
            assert(os.push(o).drop_first() =~= os.drop_first().push(o));
        }
    }
}

/// A found outcome index is in range and carries the id.
pub proof fn lemma_outcome_index_props(os: Seq<DirectoryScanOutcome>, id: i64)
    ensures
        -1 <= outcome_index_of(os, id) < os.len(),
        outcome_index_of(os, id) >= 0 ==> os[outcome_index_of(os, id)].directory_id == id,
    decreases os.len(),
{
    if os.len() > 0 && os[0].directory_id != id {
        lemma_outcome_index_props(os.drop_first(), id);
        let r = outcome_index_of(os.drop_first(), id);
        if r >= 0 {
            assert(os[r + 1].directory_id == id);
        }
    }
}

/// The fresh paths all come from the scan, none of them is already
/// in the catalog, and every scanned path missing from the catalog is
/// among them.
pub proof fn lemma_fresh_paths_props(scanned: Seq<String>, es: Seq<CatalogEntry>)
    ensures
        fresh_paths(scanned, es).len() <= scanned.len(),
        forall|k: int|
            0 <= k < fresh_paths(scanned, es).len() ==> exists|j: int|
                0 <= j < scanned.len() && #[trigger] fresh_paths(scanned, es)[k] == scanned[j]@,
        forall|k: int|
            0 <= k < fresh_paths(scanned, es).len() ==> !has_entry_path(
                es,
                #[trigger] fresh_paths(scanned, es)[k],
            ),
        forall|j: int|
            0 <= j < scanned.len() && !has_entry_path(es, scanned[j]@)
                ==> fresh_paths(scanned, es).contains(scanned[j]@),
    decreases scanned.len(),
{
    reveal(Seq::filter);
    if scanned.len() > 0 {
        let d = scanned.drop_last();
        lemma_fresh_paths_props(d, es);
        let sv = seq_views(scanned);
        assert(sv.drop_last() =~= seq_views(d));
        let fd = fresh_paths(d, es);
        let f = fresh_paths(scanned, es);
        assert(sv.last() == scanned.last()@);
        assert forall|k: int| 0 <= k < f.len() implies exists|j: int|
            0 <= j < scanned.len() && #[trigger] f[k] == scanned[j]@ by {
            if k < fd.len() {
                let j = choose|j: int| 0 <= j < d.len() && fd[k] == d[j]@;
                assert(f[k] == scanned[j]@);
            } else {
                assert(f[k] == scanned[scanned.len() - 1]@);
            }
        }
        assert forall|j: int|
            0 <= j < scanned.len() && !has_entry_path(es, scanned[j]@) implies f.contains(
            scanned[j]@,
        ) by {
            if j < scanned.len() - 1 {
                assert(d[j]@ == scanned[j]@);
                assert(fd.contains(d[j]@));
                let k = choose|k: int| 0 <= k < fd.len() && fd[k] == d[j]@;
                assert(f[k] == scanned[j]@);
            } else {
                assert(f[fd.len() as int] == scanned[j]@);
            }
        }
    }
}

// ---------------------------------------------------------------------------
// Row copies
// ---------------------------------------------------------------------------

/// A field-for-field copy of a directory row.
fn clone_directory(d: &DirectoryData) -> (r: DirectoryData)
    ensures
        r == *d,
{
    DirectoryData {
        id: d.id,
        path: d.path.clone(),
        name: d.name.clone(),
        is_active: d.is_active,
        last_scanned_at: match &d.last_scanned_at {
            Some(t) => Some(t.clone()),
            None => None,
        },
        file_count: d.file_count,
        created_at: d.created_at.clone(),
    }
}

/// A field-for-field copy of a catalog entry.
fn clone_catalog_entry(e: &CatalogEntry) -> (r: CatalogEntry)
    ensures
        r == *e,
{
    CatalogEntry {
        id: e.id,
        file_path: e.file_path.clone(),
        file_name: e.file_name.clone(),
        file_type: e.file_type.clone(),
        directory_id: e.directory_id,
    }
}

// ---------------------------------------------------------------------------
// The catalog
// ---------------------------------------------------------------------------

/// The registry of watched directories together with the catalog of
/// sighted media files.
pub struct Catalog {
    directories: Vec<DirectoryData>,
    entries: Vec<CatalogEntry>,
    next_directory_id: i64,
    next_entry_id: i64,
}

impl Catalog {
    /// The directory rows, in creation order.
    pub closed spec fn dirs(&self) -> Seq<DirectoryData> {
        self.directories@
    }

    /// The catalog entries, in insertion order.
    pub closed spec fn entries(&self) -> Seq<CatalogEntry> {
        self.entries@
    }

    /// The id the next registered directory will get.
    pub closed spec fn next_directory_id_spec(&self) -> i64 {
        self.next_directory_id
    }

    /// The id the next inserted entry will get.
    pub closed spec fn next_entry_id_spec(&self) -> i64 {
        self.next_entry_id
    }

    /// Well-formedness: ids are unique and below their next id, paths
    /// are unique, activity flags are 0 or 1, file counts are not
    /// negative, and a linked entry always references a live
    /// directory row.
    pub open spec fn wf(&self) -> bool {
        &&& 1 <= self.next_directory_id_spec()
        &&& 1 <= self.next_entry_id_spec()
        &&& forall|i: int|
            0 <= i < self.dirs().len() ==> 1 <= #[trigger] self.dirs()[i].id
                < self.next_directory_id_spec()
        &&& forall|i: int, j: int|
            0 <= i < j < self.dirs().len() ==> self.dirs()[i].id != self.dirs()[j].id
        &&& forall|i: int, j: int|
            0 <= i < j < self.dirs().len() ==> self.dirs()[i].path@ != self.dirs()[j].path@
        &&& forall|i: int|
            0 <= i < self.dirs().len() ==> (#[trigger] self.dirs()[i].is_active == 0
                || self.dirs()[i].is_active == 1)
        &&& forall|i: int| 0 <= i < self.dirs().len() ==> #[trigger] self.dirs()[i].file_count >= 0
        &&& forall|i: int|
            0 <= i < self.entries().len() ==> 1 <= #[trigger] self.entries()[i].id
                < self.next_entry_id_spec()
        &&& forall|i: int, j: int|
            0 <= i < j < self.entries().len() ==> self.entries()[i].id != self.entries()[j].id
        &&& forall|i: int, j: int|
            0 <= i < j < self.entries().len() ==> self.entries()[i].file_path@
                != self.entries()[j].file_path@
        &&& forall|i: int|
            0 <= i < self.entries().len() ==> (#[trigger] self.entries()[i].directory_id matches
            Some(d) ==> has_dir_id(self.dirs(), d))
        &&& self.dirs().len() <= i64::MAX
        &&& self.entries().len() <= i64::MAX
    }

    /// An empty catalog; ids start at 1.
    pub fn new() -> (r: Catalog)
        ensures
            r.wf(),
            r.dirs() == Seq::<DirectoryData>::empty(),
            r.entries() == Seq::<CatalogEntry>::empty(),
            r.next_directory_id_spec() == 1,
            r.next_entry_id_spec() == 1,
    {
        let r = Catalog {
            directories: Vec::new(),
            entries: Vec::new(),
            next_directory_id: 1,
            next_entry_id: 1,
        };
        proof {
            assert(r.dirs() =~= Seq::<DirectoryData>::empty());
            assert(r.entries() =~= Seq::<CatalogEntry>::empty());
        }
        r
    }

    /// The position of the directory row carrying `id`, if any.
    fn find_directory_by_id(&self, id: i64) -> (r: Option<usize>)
        ensures
            match r {
                Some(k) => k < self.dirs().len() && dir_index_of(self.dirs(), id) == k
                    && self.dirs()[k as int].id == id,
                None => dir_index_of(self.dirs(), id) == -1 && !has_dir_id(self.dirs(), id),
            },
    {
        let n = self.directories.len();
        let mut i: usize = 0;
        while i < n
            invariant
                0 <= i <= n,
                n == self.dirs().len(),
                forall|j: int| 0 <= j < i ==> self.dirs()[j].id != id,
            decreases n - i,
        {
            if self.directories[i].id == id {
                proof {
                    lemma_dir_index_at(self.dirs(), id, i as int);
                }
                return Some(i);
            }
            i = i + 1;
        }
        proof {
            lemma_dir_index_at(self.dirs(), id, -1);
        }
        None
    }

    /// The position of the directory row registered under `path`, if
    /// any.
    fn find_directory_by_path(&self, path: &str) -> (r: Option<usize>)
        ensures
            match r {
                Some(k) => k < self.dirs().len() && dir_path_index_of(self.dirs(), path@) == k
                    && self.dirs()[k as int].path@ == path@,
                None => dir_path_index_of(self.dirs(), path@) == -1 && (forall|j: int|
                    0 <= j < self.dirs().len() ==> self.dirs()[j].path@ != path@),
            },
    {
        let n = self.directories.len();
        let mut i: usize = 0;
        while i < n
            invariant
                0 <= i <= n,
                n == self.dirs().len(),
                forall|j: int| 0 <= j < i ==> self.dirs()[j].path@ != path@,
            decreases n - i,
        {
            if str_eq(self.directories[i].path.as_str(), path) {
                proof {
                    lemma_dir_path_index_at(self.dirs(), path@, i as int);
                }
                return Some(i);
            }
            i = i + 1;
        }
        proof {
            lemma_dir_path_index_at(self.dirs(), path@, -1);
        }
        None
    }

    /// All directory rows, most recently created first.
    pub fn get_all_directories(&self) -> (r: Vec<DirectoryData>)
        ensures
            r@.len() == self.dirs().len(),
            forall|i: int|
                0 <= i < r@.len() ==> r@[i] == self.dirs()[self.dirs().len() - 1 - i],
    {
        let n = self.directories.len();
        let mut r: Vec<DirectoryData> = Vec::new();
        let mut i: usize = 0;
        while i < n
            invariant
                0 <= i <= n,
                n == self.dirs().len(),
                r@.len() == i,
                forall|j: int| 0 <= j < i ==> r@[j] == self.dirs()[n - 1 - j],
            decreases n - i,
        {
            r.push(clone_directory(&self.directories[n - 1 - i]));
            i = i + 1;
        }
        r
    }

    /// The active directory rows, in creation order: the set a bulk
    /// rescan and the change watcher work on.
    pub fn active_directories(&self) -> (r: Vec<DirectoryData>)
        ensures
            r@ == self.dirs().filter(|d: DirectoryData| d.is_active == 1),
    {
        let n = self.directories.len();
        let mut r: Vec<DirectoryData> = Vec::new();
        let mut i: usize = 0;
        while i < n
            invariant
                0 <= i <= n,
                n == self.dirs().len(),
                r@ == self.dirs().take(i as int).filter(|d: DirectoryData| d.is_active == 1),
            decreases n - i,
        {
            let ghost prev = r@;
            if self.directories[i].is_active == 1 {
                r.push(clone_directory(&self.directories[i]));
            }
            proof {
                reveal(Seq::filter);
                assert(self.dirs().take(i + 1).drop_last() =~= self.dirs().take(i as int));
                if self.dirs()[i as int].is_active == 1 {
                    assert(r@ =~= prev.push(self.dirs()[i as int]));
                } else {
                    assert(r@ =~= prev);
                }
            }
            i = i + 1;
        }
        proof {
            assert(self.dirs().take(n as int) =~= self.dirs());
        }
        r
    }

    /// Flip a directory's active flag; nothing else changes — no
    /// catalog row is touched and no scan is triggered.  Fails with
    /// `NotFound` for an unknown id.
    pub fn set_directory_active(&mut self, directory_id: i64, is_active: bool) -> (r: Result<
        (),
        CoreError,
    >)
        requires
            old(self).wf(),
        ensures
            final(self).wf(),
            final(self).entries() == old(self).entries(),
            final(self).next_directory_id_spec() == old(self).next_directory_id_spec(),
            final(self).next_entry_id_spec() == old(self).next_entry_id_spec(),
            final(self).dirs().len() == old(self).dirs().len(),
            forall|j: int|
                0 <= j < old(self).dirs().len() && old(self).dirs()[j].id != directory_id
                    ==> final(self).dirs()[j] == old(self).dirs()[j],
            forall|j: int|
                0 <= j < old(self).dirs().len() && old(self).dirs()[j].id == directory_id
                    ==> final(self).dirs()[j] == (DirectoryData {
                    is_active: if is_active {
                        1i64
                    } else {
                        0i64
                    },
                    ..old(self).dirs()[j]
                }),
            r is Err <==> !has_dir_id(old(self).dirs(), directory_id),
            r matches Err(e) ==> e == CoreError::NotFound,
    {
        let ghost ds0 = self.directories@;
        match self.find_directory_by_id(directory_id) {
            None => {
                proof {
                    lemma_dir_index_props(ds0, directory_id);
                }
                Err(CoreError::NotFound)
            },
            Some(k) => {
                let row = clone_directory(&self.directories[k]);
                let updated = DirectoryData {
                    is_active: if is_active {
                        1
                    } else {
                        0
                    },
                    ..row
                };
                self.directories.set(k, updated);
                proof {
                    assert(has_dir_id(ds0, directory_id));
                    assert forall|d: i64| has_dir_id(ds0, d) implies #[trigger] has_dir_id(
                        self.dirs(),
                        d,
                    ) by {
                        let i2 = choose|i2: int| 0 <= i2 < ds0.len() && ds0[i2].id == d;
                        assert(self.dirs()[i2].id == d);
                    }
                    assert forall|j: int|
                        0 <= j < ds0.len() && ds0[j].id == directory_id implies self.dirs()[j]
                        == (DirectoryData {
                        is_active: if is_active {
                            1i64
                        } else {
                            0i64
                        },
                        ..ds0[j]
                    }) by {
                        if j != k {
                            assert(ds0[j].id != ds0[k as int].id);
                        }
                    }
                }
                Ok(())
            },
        }
    }

    /// Remove a directory row.  Every entry linked to it is unlinked
    /// — set to no directory — and survives with all its other
    /// fields; the row itself is deleted.  Fails with `NotFound` for
    /// an unknown id.
    pub fn remove_directory(&mut self, directory_id: i64) -> (r: Result<(), CoreError>)
        requires
            old(self).wf(),
        ensures
            final(self).wf(),
            final(self).next_directory_id_spec() == old(self).next_directory_id_spec(),
            final(self).next_entry_id_spec() == old(self).next_entry_id_spec(),
            r is Err <==> !has_dir_id(old(self).dirs(), directory_id),
            r matches Err(e) ==> e == CoreError::NotFound,
            r is Err ==> final(self).dirs() == old(self).dirs() && final(self).entries() == old(
                self,
            ).entries(),
            r is Ok ==> final(self).dirs() == old(self).dirs().remove(
                dir_index_of(old(self).dirs(), directory_id),
            ) && final(self).entries() == unlink_spec(old(self).entries(), directory_id),
    {
        let ghost ds0 = self.directories@;
        let ghost es0 = self.entries@;
        let k = match self.find_directory_by_id(directory_id) {
            None => {
                proof {
                    lemma_dir_index_props(ds0, directory_id);
                }
                return Err(CoreError::NotFound);
            },
            Some(k) => k,
        };
        // Null the link of every entry referencing the directory.
        let n = self.entries.len();
        let mut i: usize = 0;
        while i < n
            invariant
                0 <= i <= n,
                n == self.entries@.len(),
                self.directories@ == ds0,
                self.next_directory_id == old(self).next_directory_id_spec(),
                self.next_entry_id == old(self).next_entry_id_spec(),
                forall|j: int|
                    0 <= j < i ==> self.entries@[j] == unlink_entry(es0[j], directory_id),
                forall|j: int| i <= j < n ==> self.entries@[j] == es0[j],
            decreases n - i,
        {
            let linked = match &self.entries[i].directory_id {
                Some(d) => *d == directory_id,
                None => false,
            };
            if linked {
                let e = clone_catalog_entry(&self.entries[i]);
                let updated = CatalogEntry { directory_id: None, ..e };
                self.entries.set(i, updated);
            }
            i = i + 1;
        }
        proof {
            assert(self.entries@ =~= unlink_spec(es0, directory_id));
        }
        // Delete the row.
        self.directories.remove(k);
        proof {
            lemma_remove_keeps_other_ids(ds0, k as int);
            assert forall|i2: int|
                0 <= i2 < self.entries@.len() implies (#[trigger] self.entries@[i2].directory_id
            matches Some(d) ==> has_dir_id(self.dirs(), d)) by {
                if self.entries@[i2].directory_id is Some {
                    let d = self.entries@[i2].directory_id.unwrap();
                    assert(es0[i2].directory_id == Some(d) && d != directory_id);
                    assert(has_dir_id(ds0, d));
                }
            }
        }
        Ok(())
    }

    /// Look a path up in the catalog.  The returned copy reflects the
    /// row as it stands, in particular a nulled directory link after
    /// its directory was removed.
    pub fn get_entry_by_path(&self, path: &str) -> (r: Option<CatalogEntry>)
        ensures
            r is None <==> !has_entry_path(self.entries(), path@),
            r matches Some(e) ==> entry_path_index_of(self.entries(), path@) >= 0 && e
                == self.entries()[entry_path_index_of(self.entries(), path@)] && e.file_path@
                == path@,
    {
        let n = self.entries.len();
        let mut i: usize = 0;
        while i < n
            invariant
                0 <= i <= n,
                n == self.entries().len(),
                forall|j: int| 0 <= j < i ==> self.entries()[j].file_path@ != path@,
            decreases n - i,
        {
            if str_eq(self.entries[i].file_path.as_str(), path) {
                proof {
                    lemma_entry_path_index_at(self.entries(), path@, i as int);
                }
                return Some(clone_catalog_entry(&self.entries[i]));
            }
            i = i + 1;
        }
        None
    }

    /// The id the next registered directory will get.  Callers that
    /// cannot carry proofs check this against the id space first.
    pub fn next_directory_id(&self) -> (id: i64)
        ensures
            id == self.next_directory_id_spec(),
    {
        self.next_directory_id
    }

    /// The id the next inserted entry will get.  Callers that cannot
    /// carry proofs check this against the id space first.
    pub fn next_entry_id(&self) -> (id: i64)
        ensures
            id == self.next_entry_id_spec(),
    {
        self.next_entry_id
    }

    /// How many directory rows there are.
    pub fn directory_count(&self) -> (n: usize)
        ensures
            n == self.dirs().len(),
    {
        self.directories.len()
    }

    /// How many catalog entries there are.
    pub fn entry_count(&self) -> (n: usize)
        ensures
            n == self.entries().len(),
    {
        self.entries.len()
    }

    /// A copy of the entry at a position, in insertion order.
    pub fn entry_at(&self, i: usize) -> (r: CatalogEntry)
        requires
            i < self.entries().len(),
        ensures
            r == self.entries()[i as int],
    {
        clone_catalog_entry(&self.entries[i])
    }

    /// Is some catalog entry recorded under this path?
    fn contains_path(&self, path: &str) -> (r: bool)
        ensures
            r == has_entry_path(self.entries(), path@),
    {
        let n = self.entries.len();
        let mut i: usize = 0;
        while i < n
            invariant
                0 <= i <= n,
                n == self.entries().len(),
                forall|j: int| 0 <= j < i ==> self.entries()[j].file_path@ != path@,
            decreases n - i,
        {
            if str_eq(self.entries[i].file_path.as_str(), path) {
                return true;
            }
            i = i + 1;
        }
        false
    }

    /// Insert a catalog entry for every path that is new, in order,
    /// each unlinked and with its file name and type filled in.
    /// Paths already in the catalog are left alone — uniqueness makes
    /// repeated insertion a no-op.  Returns how many entries were
    /// inserted.
    fn insert_new_paths(&mut self, paths: &Vec<String>) -> (added: usize)
        requires
            old(self).wf(),
            distinct_views(paths@),
            old(self).entries().len() + paths@.len() <= i64::MAX,
            old(self).next_entry_id_spec() + paths@.len() <= i64::MAX,
        ensures
            final(self).wf(),
            final(self).dirs() == old(self).dirs(),
            final(self).next_directory_id_spec() == old(self).next_directory_id_spec(),
            ({
                let fresh = fresh_paths(paths@, old(self).entries());
                let n0 = old(self).entries().len() as int;
                &&& added == fresh.len()
                &&& final(self).next_entry_id_spec() == old(self).next_entry_id_spec()
                    + fresh.len()
                &&& final(self).entries().len() == n0 + fresh.len()
                &&& (forall|j: int|
                    0 <= j < n0 ==> final(self).entries()[j] == old(self).entries()[j])
                &&& (forall|k: int|
                    #![trigger final(self).entries()[old(self).entries().len() + k]]
                    0 <= k < fresh.len() ==> {
                        let e = final(self).entries()[n0 + k];
                        &&& e.id == old(self).next_entry_id_spec() + k
                        &&& e.file_path@ == fresh[k]
                        &&& e.file_name@ == file_name_spec(fresh[k])
                        &&& e.file_type@ == file_type_label(media_kind_spec(fresh[k]))
                        &&& e.directory_id is None
                    })
            }),
    {
        let ghost es0 = self.entries@;
        let ghost n0 = es0.len() as int;
        let ghost next0 = self.next_entry_id;
        let m = paths.len();
        let mut added: usize = 0;
        let mut i: usize = 0;
        while i < m
            invariant
                0 <= i <= m,
                m == paths@.len(),
                self.wf(),
                distinct_views(paths@),
                es0 == old(self).entries(),
                n0 == es0.len() as int,
                next0 == old(self).next_entry_id_spec(),
                n0 + paths@.len() <= i64::MAX,
                next0 + paths@.len() <= i64::MAX,
                self.dirs() == old(self).dirs(),
                self.next_directory_id_spec() == old(self).next_directory_id_spec(),
                ({
                    let fresh = fresh_paths(paths@.take(i as int), es0);
                    &&& added == fresh.len()
                    &&& self.next_entry_id_spec() == next0 + fresh.len()
                    &&& self.entries().len() == n0 + fresh.len()
                    &&& (forall|j: int| 0 <= j < n0 ==> self.entries()[j] == es0[j])
                    &&& (forall|k: int|
                        #![trigger self.entries()[es0.len() + k]]
                        0 <= k < fresh.len() ==> {
                            let e = self.entries()[n0 + k];
                            &&& e.id == next0 + k
                            &&& e.file_path@ == fresh[k]
                            &&& e.file_name@ == file_name_spec(fresh[k])
                            &&& e.file_type@ == file_type_label(media_kind_spec(fresh[k]))
                            &&& e.directory_id is None
                        })
                }),
            decreases m - i,
        {
            let ghost fresh_i = fresh_paths(paths@.take(i as int), es0);
            let ghost p = paths@[i as int]@;
            proof {
                lemma_fresh_paths_props(paths@.take(i as int), es0);
                // The new path is absent from the appended entries, so
                // membership in the current catalog equals membership
                // in the catalog as it stood at entry.
                assert forall|j: int|
                    n0 <= j < self.entries().len() implies self.entries()[j].file_path@ != p by {
                    let k = j - n0;
                    assert(self.entries()[n0 + k].file_path@ == fresh_i[k]);
                    let l = choose|l: int|
                        0 <= l < paths@.take(i as int).len() && fresh_i[k] == paths@.take(
                            i as int,
                        )[l]@;
                    assert(paths@[l]@ != paths@[i as int]@);
                }
                assert(has_entry_path(self.entries(), p) == has_entry_path(es0, p)) by {
                    if has_entry_path(self.entries(), p) {
                        let j = choose|j: int|
                            0 <= j < self.entries().len() && self.entries()[j].file_path@ == p;
                        assert(0 <= j < n0);
                        assert(es0[j].file_path@ == p);
                    }
                    if has_entry_path(es0, p) {
                        let j = choose|j: int| 0 <= j < es0.len() && es0[j].file_path@ == p;
                        assert(self.entries()[j].file_path@ == p);
                    }
                }
            }
            let present = self.contains_path(paths[i].as_str());
            if !present {
                let file_name = get_file_name(paths[i].as_str());
                let file_type = get_file_type(paths[i].as_str());
                let entry = CatalogEntry {
                    id: self.next_entry_id,
                    file_path: paths[i].clone(),
                    file_name,
                    file_type,
                    directory_id: None,
                };
                self.entries.push(entry);
                self.next_entry_id = self.next_entry_id + 1;
                added = added + 1;
            }
            proof {
                reveal(Seq::filter);
                assert(seq_views(paths@.take(i + 1)).drop_last() =~= seq_views(
                    paths@.take(i as int),
                ));
                assert(seq_views(paths@.take(i + 1)).last() == p);
                let fresh_next = fresh_paths(paths@.take(i + 1), es0);
                if !has_entry_path(es0, p) {
                    assert(fresh_next =~= fresh_i.push(p));
                } else {
                    assert(fresh_next =~= fresh_i);
                }
                lemma_fresh_paths_props(paths@.take(i + 1), es0);
            }
            i = i + 1;
        }
        proof {
            assert(paths@.take(m as int) =~= paths@);
        }
        added
    }

    /// Link every unlinked entry whose path starts with `prefix` to
    /// the directory.  Only unlinked rows are eligible, which is what
    /// makes backfilling idempotent.
    fn backfill_entries(&mut self, directory_id: i64, prefix: &str)
        requires
            old(self).wf(),
            has_dir_id(old(self).dirs(), directory_id),
        ensures
            final(self).wf(),
            final(self).dirs() == old(self).dirs(),
            final(self).next_directory_id_spec() == old(self).next_directory_id_spec(),
            final(self).next_entry_id_spec() == old(self).next_entry_id_spec(),
            final(self).entries() == backfill_spec(old(self).entries(), directory_id, prefix@),
    {
        let ghost es0 = self.entries@;
        let n = self.entries.len();
        let mut i: usize = 0;
        while i < n
            invariant
                0 <= i <= n,
                n == self.entries@.len(),
                es0 == old(self).entries(),
                self.dirs() == old(self).dirs(),
                self.next_directory_id == old(self).next_directory_id_spec(),
                self.next_entry_id == old(self).next_entry_id_spec(),
                has_dir_id(self.dirs(), directory_id),
                old(self).wf(),
                forall|j: int|
                    0 <= j < i ==> self.entries@[j] == backfill_entry(
                        es0[j],
                        directory_id,
                        prefix@,
                    ),
                forall|j: int| i <= j < n ==> self.entries@[j] == es0[j],
            decreases n - i,
        {
            let unlinked = self.entries[i].directory_id.is_none();
            if unlinked && str_starts_with(self.entries[i].file_path.as_str(), prefix) {
                let e = clone_catalog_entry(&self.entries[i]);
                let updated = CatalogEntry { directory_id: Some(directory_id), ..e };
                self.entries.set(i, updated);
            }
            i = i + 1;
        }
        proof {
            assert(self.entries@ =~= backfill_spec(es0, directory_id, prefix@));
            assert forall|i2: int|
                0 <= i2 < self.entries@.len() implies (#[trigger] self.entries@[i2].directory_id
            matches Some(d) ==> has_dir_id(self.dirs(), d)) by {
                if self.entries@[i2].directory_id is Some {
                    let d = self.entries@[i2].directory_id.unwrap();
                    if es0[i2].directory_id == Some(d) {
                    } else {
                        assert(d == directory_id);
                    }
                }
            }
        }
    }

    /// Attach every unlinked entry whose path starts with `prefix` to
    /// the directory.  Fails with `NotFound` for an unknown id.
    /// Calling this twice with the same arguments changes nothing the
    /// second time: only unlinked rows are eligible.
    pub fn backfill(&mut self, directory_id: i64, prefix: &str) -> (r: Result<(), CoreError>)
        requires
            old(self).wf(),
        ensures
            final(self).wf(),
            final(self).dirs() == old(self).dirs(),
            final(self).next_directory_id_spec() == old(self).next_directory_id_spec(),
            final(self).next_entry_id_spec() == old(self).next_entry_id_spec(),
            r is Err <==> !has_dir_id(old(self).dirs(), directory_id),
            r matches Err(e) ==> e == CoreError::NotFound,
            r is Err ==> final(self).entries() == old(self).entries(),
            r is Ok ==> final(self).entries() == backfill_spec(
                old(self).entries(),
                directory_id,
                prefix@,
            ),
    {
        let ghost ds0 = self.directories@;
        match self.find_directory_by_id(directory_id) {
            None => {
                proof {
                    lemma_dir_index_props(ds0, directory_id);
                }
                Err(CoreError::NotFound)
            },
            Some(_) => {
                self.backfill_entries(directory_id, prefix);
                Ok(())
            },
        }
    }

    /// Reconcile one change batch with the catalog.  Every added
    /// path gets a new, unlinked entry unless its path is already
    /// recorded — uniqueness makes repeated insertion a no-op.
    /// Removed paths deliberately change nothing: deleting the entry
    /// would silently discard the user's annotations, so a vanished
    /// file is the caller's to surface as missing, never to delete.
    /// Returns how many entries were inserted.
    pub fn apply_change_batch(&mut self, batch: &FileChangePayload) -> (inserted: usize)
        requires
            old(self).wf(),
            distinct_views(batch.added@),
            old(self).entries().len() + batch.added@.len() <= i64::MAX,
            old(self).next_entry_id_spec() + batch.added@.len() <= i64::MAX,
        ensures
            final(self).wf(),
            final(self).dirs() == old(self).dirs(),
            final(self).next_directory_id_spec() == old(self).next_directory_id_spec(),
            ({
                let fresh = fresh_paths(batch.added@, old(self).entries());
                let n0 = old(self).entries().len() as int;
                &&& inserted == fresh.len()
                &&& final(self).next_entry_id_spec() == old(self).next_entry_id_spec()
                    + fresh.len()
                &&& final(self).entries().len() == n0 + fresh.len()
                &&& (forall|j: int|
                    0 <= j < n0 ==> final(self).entries()[j] == old(self).entries()[j])
                &&& (forall|k: int|
                    #![trigger final(self).entries()[old(self).entries().len() + k]]
                    0 <= k < fresh.len() ==> {
                        let e = final(self).entries()[n0 + k];
                        &&& e.id == old(self).next_entry_id_spec() + k
                        &&& e.file_path@ == fresh[k]
                        &&& e.file_name@ == file_name_spec(fresh[k])
                        &&& e.file_type@ == file_type_label(media_kind_spec(fresh[k]))
                        &&& e.directory_id is None
                    })
            }),
            forall|k: int|
                0 <= k < batch.added@.len() ==> has_entry_path(
                    final(self).entries(),
                    (#[trigger] batch.added@[k])@,
                ),
    {
        let ghost es0 = self.entries@;
        let inserted = self.insert_new_paths(&batch.added);
        proof {
            let fresh = fresh_paths(batch.added@, es0);
            lemma_fresh_paths_props(batch.added@, es0);
            assert forall|k: int| 0 <= k < batch.added@.len() implies has_entry_path(
                self.entries(),
                (#[trigger] batch.added@[k])@,
            ) by {
                let p = batch.added@[k]@;
                if has_entry_path(es0, p) {
                    let j = choose|j: int| 0 <= j < es0.len() && es0[j].file_path@ == p;
                    assert(self.entries()[j].file_path@ == p);
                } else {
                    assert(fresh.contains(p));
                    let kk = choose|kk: int| 0 <= kk < fresh.len() && fresh[kk] == p;
                    assert(self.entries()[es0.len() + kk].file_path@ == p);
                }
            }
        }
        inserted
    }

    /// Record a fresh scan of one directory: its file count becomes
    /// the number of scanned paths and its scan time is stamped.  The
    /// catalog entries are untouched — diffing scan results against
    /// the catalog is reconciliation's job, not the rescan's.  Fails
    /// with `NotFound` for an unknown id.
    pub fn rescan_directory(&mut self, directory_id: i64, scanned: &Vec<String>, now: &str) -> (r:
        Result<(), CoreError>)
        requires
            old(self).wf(),
            scanned@.len() <= i64::MAX,
        ensures
            final(self).wf(),
            final(self).entries() == old(self).entries(),
            final(self).next_directory_id_spec() == old(self).next_directory_id_spec(),
            final(self).next_entry_id_spec() == old(self).next_entry_id_spec(),
            final(self).dirs().len() == old(self).dirs().len(),
            forall|j: int|
                0 <= j < old(self).dirs().len() && old(self).dirs()[j].id != directory_id
                    ==> final(self).dirs()[j] == old(self).dirs()[j],
            forall|j: int|
                #![trigger final(self).dirs()[j]]
                0 <= j < old(self).dirs().len() && old(self).dirs()[j].id == directory_id ==> {
                    let row = final(self).dirs()[j];
                    &&& row.id == old(self).dirs()[j].id
                    &&& row.path == old(self).dirs()[j].path
                    &&& row.name == old(self).dirs()[j].name
                    &&& row.is_active == old(self).dirs()[j].is_active
                    &&& row.created_at == old(self).dirs()[j].created_at
                    &&& row.file_count == scanned@.len()
                    &&& (row.last_scanned_at matches Some(s) && s@ == now@)
                },
            r is Err <==> !has_dir_id(old(self).dirs(), directory_id),
            r matches Err(e) ==> e == CoreError::NotFound,
    {
        let ghost ds0 = self.directories@;
        match self.find_directory_by_id(directory_id) {
            None => {
                proof {
                    lemma_dir_index_props(ds0, directory_id);
                }
                Err(CoreError::NotFound)
            },
            Some(k) => {
                let row = clone_directory(&self.directories[k]);
                let updated = DirectoryData {
                    file_count: scanned.len() as i64,
                    last_scanned_at: Some(now.to_owned()),
                    ..row
                };
                self.directories.set(k, updated);
                proof {
                    assert(has_dir_id(ds0, directory_id));
                    assert forall|d: i64| has_dir_id(ds0, d) implies #[trigger] has_dir_id(
                        self.dirs(),
                        d,
                    ) by {
                        let i2 = choose|i2: int| 0 <= i2 < ds0.len() && ds0[i2].id == d;
                        assert(self.dirs()[i2].id == d);
                    }
                    assert forall|j: int|
                        0 <= j < ds0.len() && ds0[j].id == directory_id
                            && j != k implies false by {
                        assert(ds0[j].id != ds0[k as int].id);
                    }
                }
                Ok(())
            },
        }
    }

    /// Register a directory and reconcile its scan.  `is_dir` is the
    /// caller's disk check of `path` and `scanned` the media paths a
    /// walk of it found; both come from outside because walking is
    /// input/output.  A path that is no directory is rejected with
    /// `NotADirectory`.  A path already registered is reactivated
    /// rather than duplicated; a new one gets a row whose display
    /// name is the path's last segment.  Then every scanned path new
    /// to the catalog is inserted, every unlinked entry under the
    /// directory's prefix is linked to it (the backfill), and the
    /// row's file count and scan time are refreshed.  Returns the
    /// resulting row.
    pub fn add_directory(&mut self, path: &str, is_dir: bool, scanned: &Vec<String>, now: &str)
        -> (r: Result<DirectoryData, CoreError>)
        requires
            old(self).wf(),
            distinct_views(scanned@),
            old(self).entries().len() + scanned@.len() <= i64::MAX,
            old(self).next_entry_id_spec() + scanned@.len() <= i64::MAX,
            old(self).next_directory_id_spec() < i64::MAX,
            old(self).dirs().len() + 1 <= i64::MAX,
        ensures
            final(self).wf(),
            !is_dir ==> ({
                &&& r == Err::<DirectoryData, CoreError>(CoreError::NotADirectory)
                &&& final(self).dirs() == old(self).dirs()
                &&& final(self).entries() == old(self).entries()
                &&& final(self).next_directory_id_spec() == old(self).next_directory_id_spec()
                &&& final(self).next_entry_id_spec() == old(self).next_entry_id_spec()
            }),
            is_dir ==> r is Ok,
            is_dir ==> ({
                let k = dir_path_index_of(old(self).dirs(), path@);
                let dir_id = if k >= 0 {
                    old(self).dirs()[k].id
                } else {
                    old(self).next_directory_id_spec()
                };
                let prefix = dir_prefix_spec(path@);
                let fresh = fresh_paths(scanned@, old(self).entries());
                let n0 = old(self).entries().len() as int;
                &&& final(self).entries().len() == n0 + fresh.len()
                &&& (forall|j: int|
                    0 <= j < n0 ==> final(self).entries()[j] == backfill_entry(
                        old(self).entries()[j],
                        dir_id,
                        prefix,
                    ))
                &&& (forall|kk: int|
                    #![trigger final(self).entries()[old(self).entries().len() + kk]]
                    0 <= kk < fresh.len() ==> {
                        let e = final(self).entries()[n0 + kk];
                        &&& e.id == old(self).next_entry_id_spec() + kk
                        &&& e.file_path@ == fresh[kk]
                        &&& e.file_name@ == file_name_spec(fresh[kk])
                        &&& e.file_type@ == file_type_label(media_kind_spec(fresh[kk]))
                        &&& e.directory_id == (if prefix.is_prefix_of(fresh[kk]) {
                            Some(dir_id)
                        } else {
                            None::<i64>
                        })
                    })
                &&& final(self).next_entry_id_spec() == old(self).next_entry_id_spec()
                    + fresh.len()
                &&& (k >= 0 ==> ({
                    &&& final(self).dirs().len() == old(self).dirs().len()
                    &&& final(self).next_directory_id_spec() == old(
                        self,
                    ).next_directory_id_spec()
                    &&& (forall|j: int|
                        0 <= j < old(self).dirs().len() && j != k ==> final(self).dirs()[j]
                            == old(self).dirs()[j])
                }))
                &&& (k == -1 ==> ({
                    &&& final(self).dirs().len() == old(self).dirs().len() + 1
                    &&& final(self).next_directory_id_spec() == old(self).next_directory_id_spec()
                        + 1
                    &&& (forall|j: int|
                        0 <= j < old(self).dirs().len() ==> final(self).dirs()[j] == old(
                            self,
                        ).dirs()[j])
                }))
                &&& ({
                    let at = if k >= 0 {
                        k
                    } else {
                        old(self).dirs().len() as int
                    };
                    let row = final(self).dirs()[at];
                    &&& row.id == dir_id
                    &&& row.path@ == path@
                    &&& (k >= 0 ==> row.name == old(self).dirs()[k].name && row.created_at == old(
                        self,
                    ).dirs()[k].created_at)
                    &&& (k == -1 ==> row.name@ == file_name_spec(path@) && row.created_at@
                        == now@)
                    &&& row.is_active == 1
                    &&& row.file_count == linked_count(final(self).entries(), dir_id)
                    &&& (row.last_scanned_at matches Some(s) && s@ == now@)
                    &&& (r matches Ok(d) && d == row)
                })
            }),
    {
        if !is_dir {
            return Err(CoreError::NotADirectory);
        }
        let ghost ds0 = self.directories@;
        let ghost es0 = self.entries@;
        let ghost k = dir_path_index_of(ds0, path@);
        // Register the row: reactivate an existing one, insert a new
        // one otherwise.
        let (at, dir_id): (usize, i64) = match self.find_directory_by_path(path) {
            Some(kf) => {
                let row = clone_directory(&self.directories[kf]);
                let id = row.id;
                let updated = DirectoryData { is_active: 1, ..row };
                self.directories.set(kf, updated);
                (kf, id)
            },
            None => {
                let id = self.next_directory_id;
                let name = get_file_name(path);
                let row = DirectoryData {
                    id,
                    path: path.to_owned(),
                    name,
                    is_active: 1,
                    last_scanned_at: None,
                    file_count: 0,
                    created_at: now.to_owned(),
                };
                self.directories.push(row);
                self.next_directory_id = id + 1;
                (self.directories.len() - 1, id)
            },
        };
        proof {
            assert(self.dirs()[at as int].id == dir_id);
            assert(has_dir_id(self.dirs(), dir_id));
            assert forall|d: i64| has_dir_id(ds0, d) implies #[trigger] has_dir_id(
                self.dirs(),
                d,
            ) by {
                let i2 = choose|i2: int| 0 <= i2 < ds0.len() && ds0[i2].id == d;
                assert(self.dirs()[i2].id == d);
            }
            assert(self.wf());
        }
        // Record the scan results and link what lies under the
        // directory.
        let prefix = dir_prefix(path);
        proof {
            assert(self.entries@ == es0);
        }
        self.insert_new_paths(scanned);
        let ghost es_ins = self.entries@;
        self.backfill_entries(dir_id, prefix.as_str());
        proof {
            let fresh = fresh_paths(scanned@, es0);
            let n0 = es0.len() as int;
            assert forall|j: int|
                0 <= j < n0 implies self.entries()[j] == backfill_entry(
                es0[j],
                dir_id,
                dir_prefix_spec(path@),
            ) by {
                assert(self.entries()[j] == backfill_entry(es_ins[j], dir_id, prefix@));
            }
            assert forall|kk: int|
                #![trigger self.entries()[es0.len() + kk]]
                0 <= kk < fresh.len() implies {
                let e = self.entries()[n0 + kk];
                &&& e.id == old(self).next_entry_id_spec() + kk
                &&& e.file_path@ == fresh[kk]
                &&& e.file_name@ == file_name_spec(fresh[kk])
                &&& e.file_type@ == file_type_label(media_kind_spec(fresh[kk]))
                &&& e.directory_id == (if dir_prefix_spec(path@).is_prefix_of(fresh[kk]) {
                    Some(dir_id)
                } else {
                    None::<i64>
                })
            } by {
                assert(self.entries()[n0 + kk] == backfill_entry(
                    es_ins[n0 + kk],
                    dir_id,
                    prefix@,
                ));
                assert(es_ins[n0 + kk].directory_id is None);
            }
        }
        // Refresh the row's statistics.
        let cnt = self.count_linked(dir_id);
        let ghost ds_mid = self.directories@;
        let row2 = clone_directory(&self.directories[at]);
        let updated2 = DirectoryData {
            file_count: cnt as i64,
            last_scanned_at: Some(now.to_owned()),
            ..row2
        };
        self.directories.set(at, updated2);
        proof {
            assert forall|d: i64| has_dir_id(ds_mid, d) implies #[trigger] has_dir_id(
                self.dirs(),
                d,
            ) by {
                let i2 = choose|i2: int| 0 <= i2 < ds_mid.len() && ds_mid[i2].id == d;
                assert(self.dirs()[i2].id == d);
            }
        }
        let result = clone_directory(&self.directories[at]);
        Ok(result)
    }

    /// Fold the outcomes of a bulk rescan into the registry, one
    /// directory at a time in the order they were walked.  A
    /// successful walk of a registered directory refreshes that
    /// row's file count and scan time; a failed walk, or an id that
    /// is no longer registered, leaves every row untouched and is
    /// reported among the failures — one directory's failure never
    /// aborts the others.  The catalog entries are not touched.
    pub fn apply_rescan_outcomes(&mut self, outcomes: &Vec<DirectoryScanOutcome>, now: &str) -> (r:
        RescanSummary)
        requires
            old(self).wf(),
            forall|i: int, j: int|
                0 <= i < j < outcomes@.len() ==> outcomes@[i].directory_id
                    != outcomes@[j].directory_id,
            forall|i: int|
                0 <= i < outcomes@.len() ==> ((#[trigger] outcomes@[i].scanned) matches Ok(v)
                    ==> v@.len() <= i64::MAX),
        ensures
            final(self).wf(),
            final(self).entries() == old(self).entries(),
            final(self).next_directory_id_spec() == old(self).next_directory_id_spec(),
            final(self).next_entry_id_spec() == old(self).next_entry_id_spec(),
            final(self).dirs().len() == old(self).dirs().len(),
            forall|j: int|
                #![trigger final(self).dirs()[j]]
                0 <= j < old(self).dirs().len() ==> ({
                    let oi = outcome_index_of(outcomes@, old(self).dirs()[j].id);
                    &&& (oi >= 0 && outcomes@[oi].scanned is Ok) ==> ({
                        let row = final(self).dirs()[j];
                        &&& row.id == old(self).dirs()[j].id
                        &&& row.path == old(self).dirs()[j].path
                        &&& row.name == old(self).dirs()[j].name
                        &&& row.is_active == old(self).dirs()[j].is_active
                        &&& row.created_at == old(self).dirs()[j].created_at
                        &&& (outcomes@[oi].scanned matches Ok(v) ==> row.file_count == v@.len())
                        &&& (row.last_scanned_at matches Some(s) && s@ == now@)
                    })
                    &&& !(oi >= 0 && outcomes@[oi].scanned is Ok) ==> final(self).dirs()[j]
                        == old(self).dirs()[j]
                }),
            r.succeeded@ == rescan_successes(outcomes@, old(self).dirs()),
            r.failed@ == rescan_failures(outcomes@, old(self).dirs()),
    {
        let ghost ds0 = self.directories@;
        let n = outcomes.len();
        let mut succeeded: Vec<i64> = Vec::new();
        let mut failed: Vec<i64> = Vec::new();
        let mut i: usize = 0;
        proof {
            reveal(Seq::filter);
            assert(outcomes@.take(0) =~= Seq::<DirectoryScanOutcome>::empty());
            assert(succeeded@ =~= rescan_successes(outcomes@.take(0), ds0));
            assert(failed@ =~= rescan_failures(outcomes@.take(0), ds0));
        }
        while i < n
            invariant
                0 <= i <= n,
                n == outcomes@.len(),
                self.wf(),
                ds0 == old(self).dirs(),
                self.entries@ == old(self).entries(),
                self.next_directory_id == old(self).next_directory_id_spec(),
                self.next_entry_id == old(self).next_entry_id_spec(),
                self.dirs().len() == ds0.len(),
                forall|i2: int, j2: int|
                    0 <= i2 < j2 < outcomes@.len() ==> outcomes@[i2].directory_id
                        != outcomes@[j2].directory_id,
                forall|i2: int|
                    0 <= i2 < outcomes@.len() ==> ((#[trigger] outcomes@[i2].scanned) matches Ok(
                        v,
                    ) ==> v@.len() <= i64::MAX),
                forall|j: int| 0 <= j < ds0.len() ==> #[trigger] self.dirs()[j].id == ds0[j].id,
                forall|j: int|
                    #![trigger self.dirs()[j]]
                    0 <= j < ds0.len() ==> ({
                        let oi = outcome_index_of(outcomes@.take(i as int), ds0[j].id);
                        &&& (oi >= 0 && outcomes@.take(i as int)[oi].scanned is Ok) ==> ({
                            let row = self.dirs()[j];
                            &&& row.id == ds0[j].id
                            &&& row.path == ds0[j].path
                            &&& row.name == ds0[j].name
                            &&& row.is_active == ds0[j].is_active
                            &&& row.created_at == ds0[j].created_at
                            &&& (outcomes@.take(i as int)[oi].scanned matches Ok(v)
                                ==> row.file_count == v@.len())
                            &&& (row.last_scanned_at matches Some(s) && s@ == now@)
                        })
                        &&& !(oi >= 0 && outcomes@.take(i as int)[oi].scanned is Ok)
                            ==> self.dirs()[j] == ds0[j]
                    }),
                succeeded@ == rescan_successes(outcomes@.take(i as int), ds0),
                failed@ == rescan_failures(outcomes@.take(i as int), ds0),
            decreases n - i,
        {
            let ghost succ_prev = succeeded@;
            let ghost fail_prev = failed@;
            let id = outcomes[i].directory_id;
            let mut refreshed = false;
            match &outcomes[i].scanned {
                Ok(v) => {
                    match self.find_directory_by_id(id) {
                        Some(kk) => {
                            proof {
                                assert(ds0[kk as int].id == id);
                                assert(has_dir_id(ds0, id));
                                // The row has not been refreshed yet:
                                // ids are unique across outcomes.
                                lemma_outcome_index_at(outcomes@.take(i as int), id, -1);
                            }
                            let row = clone_directory(&self.directories[kk]);
                            let updated = DirectoryData {
                                file_count: v.len() as i64,
                                last_scanned_at: Some(now.to_owned()),
                                ..row
                            };
                            self.directories.set(kk, updated);
                            succeeded.push(id);
                            refreshed = true;
                            proof {
                                assert forall|d: i64| has_dir_id(ds0, d) implies #[trigger] has_dir_id(
                                    self.dirs(),
                                    d,
                                ) by {
                                    let i2 = choose|i2: int|
                                        0 <= i2 < ds0.len() && ds0[i2].id == d;
                                    assert(self.dirs()[i2].id == d);
                                }
                            }
                        },
                        None => {
                            proof {
                                assert forall|j: int|
                                    0 <= j < ds0.len() implies ds0[j].id != id by {
                                    assert(self.dirs()[j].id == ds0[j].id);
                                }
                            }
                            failed.push(id);
                        },
                    }
                },
                Err(_) => {
                    failed.push(id);
                },
            }
            proof {
                reveal(Seq::filter);
                let taken = outcomes@.take(i as int);
                let o = outcomes@[i as int];
                assert(outcomes@.take(i + 1) =~= taken.push(o));
                assert(outcomes@.take(i + 1).drop_last() =~= taken);
                // Summary lists.
                if outcome_applies(o, ds0) {
                    assert(succeeded@ =~= rescan_successes(outcomes@.take(i + 1), ds0));
                    assert(failed@ =~= rescan_failures(outcomes@.take(i + 1), ds0));
                } else {
                    assert(succeeded@ =~= rescan_successes(outcomes@.take(i + 1), ds0));
                    assert(failed@ =~= rescan_failures(outcomes@.take(i + 1), ds0));
                }
                // Per-row effect.
                assert forall|j: int| #![trigger self.dirs()[j]] 0 <= j < ds0.len() implies ({
                    let oi = outcome_index_of(outcomes@.take(i + 1), ds0[j].id);
                    &&& (oi >= 0 && outcomes@.take(i + 1)[oi].scanned is Ok) ==> ({
                        let row = self.dirs()[j];
                        &&& row.id == ds0[j].id
                        &&& row.path == ds0[j].path
                        &&& row.name == ds0[j].name
                        &&& row.is_active == ds0[j].is_active
                        &&& row.created_at == ds0[j].created_at
                        &&& (outcomes@.take(i + 1)[oi].scanned matches Ok(v) ==> row.file_count
                            == v@.len())
                        &&& (row.last_scanned_at matches Some(s) && s@ == now@)
                    })
                    &&& !(oi >= 0 && outcomes@.take(i + 1)[oi].scanned is Ok) ==> self.dirs()[j]
                        == ds0[j]
                }) by {
                    lemma_outcome_index_push(taken, o, ds0[j].id);
                    lemma_outcome_index_props(taken, ds0[j].id);
                    let oi_old = outcome_index_of(taken, ds0[j].id);
                    if oi_old >= 0 {
                        assert(outcomes@.take(i + 1)[oi_old] == taken[oi_old]);
                    }
                }
            }
            i = i + 1;
        }
        proof {
            assert(outcomes@.take(n as int) =~= outcomes@);
        }
        RescanSummary { succeeded, failed }
    }

    /// How many entries are linked to the directory.
    fn count_linked(&self, directory_id: i64) -> (n: usize)
        ensures
            n == linked_count(self.entries(), directory_id),
            n <= self.entries().len(),
    {
        let m = self.entries.len();
        let mut n: usize = 0;
        let mut i: usize = 0;
        while i < m
            invariant
                0 <= i <= m,
                m == self.entries().len(),
                n <= i,
                n == linked_count(self.entries().take(i as int), directory_id),
            decreases m - i,
        {
            let ghost prev = self.entries().take(i as int).filter(
                |e: CatalogEntry| e.directory_id == Some(directory_id),
            );
            let linked = match &self.entries[i].directory_id {
                Some(d) => *d == directory_id,
                None => false,
            };
            if linked {
                n = n + 1;
            }
            proof {
                reveal(Seq::filter);
                assert(self.entries().take(i + 1).drop_last() =~= self.entries().take(i as int));
            }
            i = i + 1;
        }
        proof {
            assert(self.entries().take(m as int) =~= self.entries());
        }
        n
    }
}

/// A found index witnesses `has_dir_id`; -1 refutes it.
pub proof fn lemma_dir_index_props(ds: Seq<DirectoryData>, id: i64)
    ensures
        -1 <= dir_index_of(ds, id) < ds.len(),
        dir_index_of(ds, id) >= 0 ==> ds[dir_index_of(ds, id)].id == id,
        (dir_index_of(ds, id) >= 0) == has_dir_id(ds, id),
    decreases ds.len(),
{
    if ds.len() > 0 && ds[0].id != id {
        lemma_dir_index_props(ds.drop_first(), id);
        let r = dir_index_of(ds.drop_first(), id);
        if r >= 0 {
            assert(ds[r + 1].id == id);
        } else {
            assert forall|i: int| 0 <= i < ds.len() implies ds[i].id != id by {
                if i > 0 {
                    assert(ds.drop_first()[i - 1] == ds[i]);
                }
            }
        }
    }
}

/// Law: backfilling is idempotent.  A second backfill with the same
/// directory and prefix changes nothing, because only unlinked
/// entries are eligible and the first pass linked every eligible
/// one.
pub proof fn lemma_backfill_idempotent(es: Seq<CatalogEntry>, id: i64, prefix: Seq<char>)
    ensures
        backfill_spec(backfill_spec(es, id, prefix), id, prefix) == backfill_spec(es, id, prefix),
{
    let once = backfill_spec(es, id, prefix);
    assert forall|i: int|
        0 <= i < once.len() implies backfill_spec(once, id, prefix)[i] == once[i] by {
        assert(once[i] == backfill_entry(es[i], id, prefix));
    }
    assert(backfill_spec(once, id, prefix) =~= once);
}

/// Removing one row keeps every other id present.
proof fn lemma_remove_keeps_other_ids(ds: Seq<DirectoryData>, k: int)
    requires
        0 <= k < ds.len(),
    ensures
        forall|d: i64|
            has_dir_id(ds, d) && ds[k].id != d ==> #[trigger] has_dir_id(ds.remove(k), d),
{
    assert forall|d: i64| has_dir_id(ds, d) && ds[k].id != d implies #[trigger] has_dir_id(
        ds.remove(k),
        d,
    ) by {
        let i = choose|i: int| 0 <= i < ds.len() && ds[i].id == d;
        if i < k {
            assert(ds.remove(k)[i] == ds[i]);
        } else {
            assert(ds.remove(k)[i - 1] == ds[i]);
        }
    }
}

} // verus!
