//! The change-watcher state machine and the classification of a
//! debounce window.
//!
//! The watcher itself — operating-system subscriptions and the
//! sliding quiescence timer — is input/output and lives outside the
//! library.  What is modelled here is everything the watcher decides:
//! which candidate roots are watchable, the watched-path snapshot
//! with its stop/start transitions, and how the paths observed in one
//! window become a change batch.  A path is classified by whether it
//! exists at the moment the window fires: present paths are added,
//! absent ones removed.  Both lists are deduplicated and
//! lexicographically sorted, so a batch is deterministic.

use vstd::prelude::*;

use crate::media::{is_supported_extension, is_watch_supported, seq_views};

verus! {

/// One change batch, emitted once per debounce window.
#[derive(Debug)]
pub struct FileChangePayload {
    pub added: Vec<String>,
    pub removed: Vec<String>,
}

/// One distinct path seen in a window, with its existence re-checked
/// at the moment the window fired.
#[derive(Debug)]
pub struct PathObservation {
    pub path: String,
    pub exists: bool,
}

/// A root the caller wants watched, with whether it names an existing
/// directory on disk.
#[derive(Debug)]
pub struct WatchCandidate {
    pub path: String,
    pub is_dir: bool,
}

// ---------------------------------------------------------------------------
// Lexicographic order on paths
// ---------------------------------------------------------------------------

/// Strict lexicographic order on character sequences.
pub open spec fn str_lt(a: Seq<char>, b: Seq<char>) -> bool
    decreases a.len(),
{
    if b.len() == 0 {
        false
    } else if a.len() == 0 {
        true
    } else if a[0] != b[0] {
        a[0] < b[0]
    } else {
        str_lt(a.drop_first(), b.drop_first())
    }
}

/// Strictly ascending — sorted and free of duplicates.
pub open spec fn strictly_sorted(v: Seq<Seq<char>>) -> bool {
    forall|i: int, j: int| 0 <= i < j < v.len() ==> str_lt(v[i], v[j])
}

/// Law: of two sequences, exactly one of `a < b`, `a == b`, `b < a`
/// holds.
pub proof fn lemma_str_lt_trichotomy(a: Seq<char>, b: Seq<char>)
    ensures
        str_lt(a, b) || a == b || str_lt(b, a),
        str_lt(a, b) ==> a != b,
        str_lt(a, b) ==> !str_lt(b, a),
    decreases a.len() + b.len(),
{
    if a.len() == 0 && b.len() == 0 {
        assert(a =~= b);
    } else if a.len() > 0 && b.len() > 0 {
        if a[0] == b[0] {
            lemma_str_lt_trichotomy(a.drop_first(), b.drop_first());
            if a.drop_first() == b.drop_first() {
                assert forall|i: int| 0 <= i < a.len() implies a[i] == b[i] by {
                    if i > 0 {
                        assert(a.drop_first()[i - 1] == b.drop_first()[i - 1]);
                    }
                }
                assert(a =~= b);
            }
            if a == b {
                assert(a.drop_first() =~= b.drop_first());
            }
        }
    }
}

/// Law: the lexicographic order is transitive.
pub proof fn lemma_str_lt_transitive(a: Seq<char>, b: Seq<char>, c: Seq<char>)
    requires
        str_lt(a, b),
        str_lt(b, c),
    ensures
        str_lt(a, c),
    decreases a.len(),
{
    if a.len() > 0 {
        if a[0] == b[0] && b[0] == c[0] {
            lemma_str_lt_transitive(a.drop_first(), b.drop_first(), c.drop_first());
        }
    }
}

/// Dropping an equal prefix does not change the comparison.
proof fn lemma_str_lt_skip(a: Seq<char>, b: Seq<char>, i: int)
    requires
        0 <= i <= a.len(),
        i <= b.len(),
        forall|j: int| 0 <= j < i ==> a[j] == b[j],
    ensures
        str_lt(a, b) == str_lt(a.skip(i), b.skip(i)),
    decreases i,
{
    if i == 0 {
        assert(a.skip(0) =~= a);
        assert(b.skip(0) =~= b);
    } else {
        lemma_str_lt_skip(a.drop_first(), b.drop_first(), i - 1);
        assert(a.drop_first().skip(i - 1) =~= a.skip(i));
        assert(b.drop_first().skip(i - 1) =~= b.skip(i));
    }
}

/// Law: a strictly sorted list of strings holds no two that read the
/// same — in particular, the lists of a change batch are free of
/// duplicates, so the catalog can take them as they come.
pub proof fn lemma_strictly_sorted_distinct(v: Seq<String>)
    requires
        strictly_sorted(seq_views(v)),
    ensures
        crate::catalog::distinct_views(v),
{
    assert forall|i: int, j: int| 0 <= i < j < v.len() implies v[i]@ != v[j]@ by {
        assert(str_lt(seq_views(v)[i], seq_views(v)[j]));
        lemma_str_lt_trichotomy(v[i]@, v[j]@);
    }
}

/// The order of two strings.
enum StrOrder {
    Less,
    Equal,
    Greater,
}

/// Compare two strings lexicographically.
fn compare_str(a: &str, b: &str) -> (o: StrOrder)
    ensures
        o matches StrOrder::Less ==> str_lt(a@, b@),
        o matches StrOrder::Equal ==> a@ == b@,
        o matches StrOrder::Greater ==> str_lt(b@, a@),
{
    let na = a.unicode_len();
    let nb = b.unicode_len();
    let mut i: usize = 0;
    while i < na && i < nb
        invariant
            0 <= i <= na,
            0 <= i <= nb,
            na == a@.len(),
            nb == b@.len(),
            forall|j: int| 0 <= j < i ==> a@[j] == b@[j],
        decreases na - i,
    {
        let ca = a.get_char(i);
        let cb = b.get_char(i);
        if ca != cb {
            proof {
                lemma_str_lt_skip(a@, b@, i as int);
                lemma_str_lt_skip(b@, a@, i as int);
                assert(a@.skip(i as int)[0] == ca && b@.skip(i as int)[0] == cb);
            }
            if ca < cb {
                return StrOrder::Less;
            } else {
                return StrOrder::Greater;
            }
        }
        i = i + 1;
    }
    proof {
        lemma_str_lt_skip(a@, b@, i as int);
        lemma_str_lt_skip(b@, a@, i as int);
    }
    if na == nb {
        proof {
            assert(a@ =~= b@);
        }
        StrOrder::Equal
    } else if na < nb {
        StrOrder::Less
    } else {
        StrOrder::Greater
    }
}

/// Where `s` belongs in a strictly sorted list: the first position
/// whose element is not below `s`, and whether that element equals
/// `s`.
fn find_insert_position(v: &Vec<String>, s: &str) -> (r: (usize, bool))
    requires
        strictly_sorted(seq_views(v@)),
    ensures
        ({
            let (k, eq) = r;
            &&& 0 <= k <= v@.len()
            &&& (forall|j: int| 0 <= j < k ==> str_lt(seq_views(v@)[j], s@))
            &&& (eq ==> k < v@.len() && seq_views(v@)[k as int] == s@)
            &&& (!eq && k < v@.len() ==> str_lt(s@, seq_views(v@)[k as int]))
        }),
{
    let n = v.len();
    let mut k: usize = 0;
    while k < n
        invariant
            0 <= k <= n,
            n == v@.len(),
            forall|j: int| 0 <= j < k ==> str_lt(seq_views(v@)[j], s@),
        decreases n - k,
    {
        match compare_str(v[k].as_str(), s) {
            StrOrder::Less => {
                proof {
                    assert(seq_views(v@)[k as int] == v@[k as int]@);
                }
                k = k + 1;
            },
            StrOrder::Equal => {
                return (k, true);
            },
            StrOrder::Greater => {
                return (k, false);
            },
        }
    }
    (k, false)
}

/// Insert `s` into a strictly sorted list, keeping it strictly
/// sorted; a string already present is not inserted again.
fn insert_sorted(v: &mut Vec<String>, s: String)
    requires
        strictly_sorted(seq_views(old(v)@)),
    ensures
        strictly_sorted(seq_views(final(v)@)),
        forall|p: Seq<char>|
            seq_views(final(v)@).contains(p) <==> (seq_views(old(v)@).contains(p) || p == s@),
{
    let ghost vs0 = seq_views(v@);
    let (k, already) = find_insert_position(v, s.as_str());
    if already {
        // Already present: the batch lists are deduplicated.
        proof {
            assert(seq_views(v@)[k as int] == s@);
        }
        return ;
    }
    v.insert(k, s);
    proof {
        let vs1 = seq_views(v@);
        vs0.insert_ensures(k as int, s@);
        assert(vs1 =~= vs0.insert(k as int, s@));
        assert forall|i: int, j: int| 0 <= i < j < vs1.len() implies str_lt(vs1[i], vs1[j]) by {
            if j < k {
                assert(vs1[i] == vs0[i] && vs1[j] == vs0[j]);
            } else if i < k && j == k {
                assert(vs1[i] == vs0[i] && vs1[j] == s@);
            } else if i < k && j > k {
                assert(vs1[i] == vs0[i] && vs1[j] == vs0[j - 1]);
                assert(str_lt(vs0[i], vs0[j - 1]));
            } else if i == k {
                assert(vs1[i] == s@ && vs1[j] == vs0[j - 1]);
                if j - 1 > k {
                    lemma_str_lt_transitive(s@, vs0[k as int], vs0[j - 1]);
                }
            } else {
                assert(vs1[i] == vs0[i - 1] && vs1[j] == vs0[j - 1]);
            }
        }
        assert forall|p: Seq<char>|
            seq_views(v@).contains(p) implies (vs0.contains(p) || p == s@) by {
            let i = choose|i: int| 0 <= i < vs1.len() && vs1[i] == p;
            if i < k {
                assert(vs0[i] == p);
            } else if i > k {
                assert(vs0[i - 1] == p);
            }
        }
        assert forall|p: Seq<char>|
            (vs0.contains(p) || p == s@) implies seq_views(v@).contains(p) by {
            if p == s@ {
                assert(vs1[k as int] == p);
            } else {
                let i = choose|i: int| 0 <= i < vs0.len() && vs0[i] == p;
                if i < k {
                    assert(vs1[i] == p);
                } else {
                    assert(vs1[i + 1] == p);
                }
            }
        }
    }
}

// ---------------------------------------------------------------------------
// Window classification
// ---------------------------------------------------------------------------

/// Turn the observations of one debounce window into a change batch.
/// A path the watcher reacts to goes to `added` when it exists at the
/// moment the window fired and to `removed` otherwise; unsupported
/// paths are dropped.  Both lists come out deduplicated and
/// lexicographically sorted.
pub fn classify_window(observations: &Vec<PathObservation>) -> (r: FileChangePayload)
    ensures
        strictly_sorted(seq_views(r.added@)),
        strictly_sorted(seq_views(r.removed@)),
        forall|p: Seq<char>|
            seq_views(r.added@).contains(p) <==> (exists|i: int|
                0 <= i < observations@.len() && (#[trigger] observations@[i].path)@ == p
                    && observations@[i].exists && is_watch_supported(p)),
        forall|p: Seq<char>|
            seq_views(r.removed@).contains(p) <==> (exists|i: int|
                0 <= i < observations@.len() && (#[trigger] observations@[i].path)@ == p
                    && !observations@[i].exists && is_watch_supported(p)),
{
    let n = observations.len();
    let mut added: Vec<String> = Vec::new();
    let mut removed: Vec<String> = Vec::new();
    let mut i: usize = 0;
    proof {
        assert(seq_views(added@) =~= Seq::<Seq<char>>::empty());
        assert(seq_views(removed@) =~= Seq::<Seq<char>>::empty());
    }
    while i < n
        invariant
            0 <= i <= n,
            n == observations@.len(),
            strictly_sorted(seq_views(added@)),
            strictly_sorted(seq_views(removed@)),
            forall|p: Seq<char>|
                seq_views(added@).contains(p) <==> (exists|j: int|
                    0 <= j < i && (#[trigger] observations@[j].path)@ == p
                        && observations@[j].exists && is_watch_supported(p)),
            forall|p: Seq<char>|
                seq_views(removed@).contains(p) <==> (exists|j: int|
                    0 <= j < i && (#[trigger] observations@[j].path)@ == p
                        && !observations@[j].exists && is_watch_supported(p)),
        decreases n - i,
    {
        let supported = is_supported_extension(observations[i].path.as_str());
        if supported {
            if observations[i].exists {
                insert_sorted(&mut added, observations[i].path.clone());
            } else {
                insert_sorted(&mut removed, observations[i].path.clone());
            }
        }
        i = i + 1;
    }
    FileChangePayload { added, removed }
}

// ---------------------------------------------------------------------------
// The watcher state machine
// ---------------------------------------------------------------------------

/// Which paths the change watcher may subscribe to: every candidate
/// that names an existing directory, in order; the rest are skipped,
/// not errored.
pub fn plan_watch_set(candidates: &Vec<WatchCandidate>) -> (r: Vec<String>)
    ensures
        r@ == candidates@.filter(|c: WatchCandidate| c.is_dir).map_values(
            |c: WatchCandidate| c.path,
        ),
{
    let n = candidates.len();
    let mut r: Vec<String> = Vec::new();
    let mut i: usize = 0;
    while i < n
        invariant
            0 <= i <= n,
            n == candidates@.len(),
            r@ == candidates@.take(i as int).filter(|c: WatchCandidate| c.is_dir).map_values(
                |c: WatchCandidate| c.path,
            ),
        decreases n - i,
    {
        let ghost prev = r@;
        if candidates[i].is_dir {
            r.push(candidates[i].path.clone());
        }
        proof {
            reveal(Seq::filter);
            assert(candidates@.take(i + 1).drop_last() =~= candidates@.take(i as int));
            if candidates@[i as int].is_dir {
                assert(r@ =~= prev.push(candidates@[i as int].path));
            } else {
                assert(r@ =~= prev);
            }
        }
        i = i + 1;
    }
    proof {
        assert(candidates@.take(n as int) =~= candidates@);
    }
    r
}

/// The watcher's externally visible state: the snapshot of watched
/// roots.  Stopped and watching-nothing are the same state — an
/// empty watch set; there is no partially-started state.
pub struct WatcherState {
    watched_paths: Vec<String>,
}

impl WatcherState {
    /// The currently watched roots.
    pub closed spec fn paths(&self) -> Seq<String> {
        self.watched_paths@
    }

    /// Stopped, watching nothing.
    pub fn new() -> (r: WatcherState)
        ensures
            r.paths() == Seq::<String>::empty(),
    {
        let r = WatcherState { watched_paths: Vec::new() };
        proof {
            assert(r.paths() =~= Seq::<String>::empty());
        }
        r
    }

    /// Record that a start succeeded: the new watch set replaces the
    /// old one wholesale — there is no incremental add or remove of
    /// single roots.
    pub fn mark_started(&mut self, paths: Vec<String>)
        ensures
            final(self).paths() == paths@,
    {
        self.watched_paths = paths;
    }

    /// Record a stop, or a start that failed partway: no partial
    /// watch set survives.  Idempotent — stopping a stopped watcher
    /// leaves it stopped.
    pub fn mark_stopped(&mut self)
        ensures
            final(self).paths() == Seq::<String>::empty(),
    {
        self.watched_paths = Vec::new();
        proof {
            assert(self.paths() =~= Seq::<String>::empty());
        }
    }

    /// A snapshot of the watched roots.
    pub fn get_watched_paths(&self) -> (r: Vec<String>)
        ensures
            r@ == self.paths(),
    {
        let n = self.watched_paths.len();
        let mut r: Vec<String> = Vec::new();
        let mut i: usize = 0;
        while i < n
            invariant
                0 <= i <= n,
                n == self.paths().len(),
                r@ == self.paths().take(i as int),
            decreases n - i,
        {
            r.push(self.watched_paths[i].clone());
            proof {
                assert(r@ =~= self.paths().take(i + 1));
            }
            i = i + 1;
        }
        proof {
            assert(self.paths().take(n as int) =~= self.paths());
        }
        r
    }
}

} // verus!
