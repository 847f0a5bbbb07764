//! `anigit refresh`: deciding how to bring the local catalog up to the
//! latest published run. A manifest lists full checkpoints and per-run
//! deltas; the newest checkpoint past what was last synced replaces the
//! catalog wholesale, then every delta after the starting run is applied in
//! order, and a gap in that chain refuses the sync.
use vstd::prelude::*;

use crate::catalog::str_eq;
use crate::repo::{join_path, path_join};
use crate::text::{chars_of, decimal, has_prefix, owned, push_decimal, push_str, starts_with_chars, string_from_range};

verus! {

/// A published full snapshot of the catalog.
#[derive(Debug, Clone)]
pub struct CheckpointRef {
    pub run: u64,
    pub file: String,
    pub generated_at: String,
}

/// A published change list for one run.
#[derive(Debug, Clone)]
pub struct DeltaRef {
    pub run: u64,
    pub file: String,
    pub generated_at: String,
    pub changed_count: u64,
}

/// The published index of catalog snapshots and per-run change lists.
#[derive(Debug, Clone)]
pub struct Manifest {
    pub schema_version: u32,
    pub latest_run: u64,
    /// Cadence hint only; the sync works off the checkpoint list itself.
    pub checkpoint_interval: u64,
    pub checkpoints: Vec<CheckpointRef>,
    pub deltas: Vec<DeltaRef>,
}

/// Why a sync is refused.
#[derive(Debug, Clone, PartialEq, Eq)]
pub enum SyncError {
    /// The manifest or a delta comes from a newer producer.
    NewerSchema { schema_version: u32 },
    /// The delta for run `expected` is missing; `found` stands in its place.
    MissingDelta { expected: u64, found: u64 },
    /// The chain after `from_run` has `count` deltas, not `latest_run - from_run`.
    BrokenChain { count: usize, from_run: u64, latest_run: u64 },
    /// A delta change names an operation this version does not know.
    UnsupportedOp { op: String, run: u64 },
}

/// What a refresh does.
#[derive(Debug, Clone)]
pub enum SyncPlan {
    /// Already synced to the latest run.
    UpToDate { last_synced: u64, latest_run: u64 },
    /// Load `checkpoint` first (if any), then apply `deltas` in order, then
    /// record `latest_run` as synced.
    Sync { checkpoint: Option<CheckpointRef>, from_run: u64, deltas: Vec<DeltaRef>, latest_run: u64 },
}

/// Index of the checkpoint to load: the one with the highest run past
/// `last`, the later one on ties; `None` when no checkpoint is past `last`.
pub open spec fn best_checkpoint(cps: Seq<CheckpointRef>, last: u64, upto: int) -> Option<int>
    decreases upto,
{
    if upto <= 0 {
        None
    } else {
        let prev = best_checkpoint(cps, last, upto - 1);
        let c = cps[upto - 1];
        if c.run > last && (prev matches Some(p) ==> cps[p].run <= c.run) {
            Some(upto - 1)
        } else {
            prev
        }
    }
}

/// The deltas in the window `(from, latest]`, in manifest order.
pub open spec fn window(ds: Seq<DeltaRef>, from: u64, latest: u64) -> Seq<DeltaRef> {
    ds.filter(|d: DeltaRef| from < d.run && d.run <= latest)
}

/// The runs of a delta list.
pub open spec fn runs(ds: Seq<DeltaRef>) -> Seq<u64> {
    ds.map_values(|d: DeltaRef| d.run)
}

/// The deltas run exactly `from + 1, from + 2, ..., latest`, in that order.
pub open spec fn consecutive_from(ds: Seq<DeltaRef>, from: u64, latest: u64) -> bool {
    &&& ds.len() == latest - from
    &&& forall|i: int| 0 <= i < ds.len() ==> #[trigger] ds[i].run == from + 1 + i
}

/// Runs ascend, never decreasing.
pub open spec fn runs_sorted(ds: Seq<DeltaRef>) -> bool {
    forall|i: int, j: int| 0 <= i < j < ds.len() ==> #[trigger] ds[i].run <= #[trigger] ds[j].run
}

/// Runs ascend, never decreasing.
pub open spec fn ascending(s: Seq<u64>) -> bool {
    forall|i: int, j: int| 0 <= i < j < s.len() ==> #[trigger] s[i] <= #[trigger] s[j]
}

/// The runs of `ds` in ascending order.
pub open spec fn sorted_runs(ds: Seq<DeltaRef>) -> Seq<u64> {
    choose|s: Seq<u64>| ascending(s) && s.to_multiset() == runs(ds).to_multiset()
}

/// The first `k` ascending runs are exactly `from + 1, ..., from + k`.
pub open spec fn gap_free_until(s: Seq<u64>, from: u64, k: int) -> bool {
    forall|j: int| 0 <= j < k ==> #[trigger] s[j] == from + 1 + j
}

/// How many positions of the ascending runs the gap check looks at: as
/// many as there are runs, and no more than the chain should hold.
pub open spec fn checked_len(s: Seq<u64>, from: u64, latest: u64) -> int {
    if s.len() < latest - from {
        s.len() as int
    } else {
        latest - from
    }
}

fn pick_checkpoint(cps: &Vec<CheckpointRef>, last: u64) -> (r: Option<usize>)
    ensures
        match r {
            Some(i) => best_checkpoint(cps@, last, cps@.len() as int) == Some(i as int),
            None => best_checkpoint(cps@, last, cps@.len() as int) is None,
        },
        r matches Some(i) ==> i < cps@.len(),
{
    let mut best: Option<usize> = None;
    let mut i: usize = 0;
    while i < cps.len()
        invariant
            i <= cps@.len(),
            match best {
                Some(b) => best_checkpoint(cps@, last, i as int) == Some(b as int) && b < i,
                None => best_checkpoint(cps@, last, i as int) is None,
            },
        decreases cps@.len() - i,
    {
        let run = cps[i].run;
        if run > last {
            match best {
                Some(b) => {
                    if cps[b].run <= run {
                        best = Some(i);
                    }
                },
                None => {
                    best = Some(i);
                },
            }
        }
        i = i + 1;
    }
    best
}

/// Sort deltas by run, keeping manifest order among equal runs.
fn sort_by_run(ds: Vec<DeltaRef>) -> (r: Vec<DeltaRef>)
    ensures
        runs_sorted(r@),
        r@.to_multiset() == ds@.to_multiset(),
        runs(r@).to_multiset() == runs(ds@).to_multiset(),
{
    broadcast use vstd::seq_lib::group_to_multiset_ensures;
    let mut out: Vec<DeltaRef> = Vec::new();
    let ds_len = ds.len();
    let mut rest = ds;
    let ghost orig = rest@;
    let mut taken: usize = 0;
    proof {
        assert(orig.subrange(0, 0) =~= Seq::<DeltaRef>::empty());
    }
    while rest.len() > 0
        invariant
            runs_sorted(out@),
            taken + rest@.len() == orig.len(),
            orig.len() == ds_len,
            rest@ == orig.subrange(taken as int, orig.len() as int),
            out@.to_multiset() == orig.subrange(0, taken as int).to_multiset(),
            runs(out@).to_multiset() == runs(orig.subrange(0, taken as int)).to_multiset(),
        decreases rest@.len(),
    {
        let d = rest.remove(0);
        let mut j: usize = 0;
        while j < out.len()
            invariant
                j <= out@.len(),
                forall|m: int| 0 <= m < j ==> #[trigger] out@[m].run <= d.run,
            ensures
                j <= out@.len(),
                forall|m: int| 0 <= m < j ==> #[trigger] out@[m].run <= d.run,
                j < out@.len() ==> out@[j as int].run > d.run,
            decreases out@.len() - j,
        {
            if out[j].run > d.run {
                break;
            }
            j = j + 1;
        }
        let ghost before = out@;
        out.insert(j, d);
        proof {
            assert(out@ =~= before.insert(j as int, d));
            assert(runs_sorted(out@)) by {
                assert forall|a: int, b: int| 0 <= a < b < out@.len() implies #[trigger] out@[a].run <= #[trigger] out@[b].run by {
                    if a < j && b < j {
                        assert(out@[a] == before[a] && out@[b] == before[b]);
                    } else if a < j && b == j {
                        assert(out@[a] == before[a]);
                    } else if a < j {
                        assert(out@[a] == before[a] && out@[b] == before[b - 1]);
                    } else if a == j {
                        assert(out@[b] == before[b - 1]);
                        if b - 1 > j {
                            assert(before[j as int].run <= before[b - 1].run);
                        }
                    } else {
                        assert(out@[a] == before[a - 1] && out@[b] == before[b - 1]);
                    }
                }
            }
            vstd::seq_lib::to_multiset_insert(before, j as int, d);
            assert(d == orig[taken as int]);
            assert(orig.subrange(0, taken + 1) =~= orig.subrange(0, taken as int).push(d));
            vstd::seq_lib::to_multiset_build(orig.subrange(0, taken as int), d);
            assert(runs(out@) =~= runs(before).insert(j as int, d.run));
            vstd::seq_lib::to_multiset_insert(runs(before), j as int, d.run);
            assert(runs(orig.subrange(0, taken + 1)) =~= runs(orig.subrange(0, taken as int)).push(d.run));
            vstd::seq_lib::to_multiset_build(runs(orig.subrange(0, taken as int)), d.run);
            assert(rest@ =~= orig.subrange(taken + 1, orig.len() as int));
        }
        taken = taken + 1;
    }
    proof {
        assert(orig.subrange(0, orig.len() as int) =~= orig);
        assert(orig.subrange(0, 0) =~= Seq::<DeltaRef>::empty());
    }
    out
}

/// The runs `from + 1, from + 2, ..., latest`.
pub open spec fn run_range(from: u64, latest: u64) -> Seq<u64> {
    Seq::new((latest - from) as nat, |i: int| (from + 1 + i) as u64)
}

/// The deltas after the starting run hold each run up to the latest run
/// exactly once, in whatever order the manifest lists them.
pub open spec fn chain_complete(m: Manifest, last_synced: u64) -> bool {
    &&& start_run(m, last_synced) <= m.latest_run
    &&& runs(sync_window(m, last_synced)).to_multiset() == run_range(start_run(m, last_synced), m.latest_run).to_multiset()
}

/// The ascending order of a multiset of runs is unique.
proof fn lemma_sorted_runs_unique(ds: Seq<DeltaRef>, t: Seq<u64>)
    requires
        ascending(t),
        t.to_multiset() == runs(ds).to_multiset(),
    ensures
        sorted_runs(ds) == t,
{
    let leq = |a: u64, b: u64| a <= b;
    let s = sorted_runs(ds);
    assert(ascending(s) && s.to_multiset() == runs(ds).to_multiset());
    assert(vstd::relations::total_ordering(leq));
    assert(vstd::relations::sorted_by(s, leq)) by {
        assert forall|i: int, j: int| 0 <= i < j < s.len() implies #[trigger] leq(s[i], s[j]) by {
            assert(s[i] <= s[j]);
        }
    }
    assert(vstd::relations::sorted_by(t, leq)) by {
        assert forall|i: int, j: int| 0 <= i < j < t.len() implies #[trigger] leq(t[i], t[j]) by {
            assert(t[i] <= t[j]);
        }
    }
    vstd::seq_lib::lemma_sorted_unique(s, t, leq);
}

proof fn lemma_sorted_runs_are_the_range(ds: Seq<DeltaRef>, from: u64, latest: u64)
    requires
        from <= latest,
        runs_sorted(ds),
        runs(ds).to_multiset() == run_range(from, latest).to_multiset(),
    ensures
        consecutive_from(ds, from, latest),
{
    let leq = |a: u64, b: u64| a <= b;
    let rs = runs(ds);
    let want = run_range(from, latest);
    assert(vstd::relations::total_ordering(leq));
    assert(vstd::relations::sorted_by(rs, leq)) by {
        assert forall|i: int, j: int| 0 <= i < j < rs.len() implies #[trigger] leq(rs[i], rs[j]) by {
            assert(rs[i] == ds[i].run && rs[j] == ds[j].run);
        }
    }
    assert(vstd::relations::sorted_by(want, leq));
    vstd::seq_lib::lemma_sorted_unique(rs, want, leq);
    assert forall|i: int| 0 <= i < ds.len() implies #[trigger] ds[i].run == from + 1 + i by {
        assert(rs[i] == ds[i].run);
        assert(want[i] == from + 1 + i);
    }
}

fn filter_window(ds: &Vec<DeltaRef>, from: u64, latest: u64) -> (r: Vec<DeltaRef>)
    ensures
        r@ == window(ds@, from, latest),
{
    let mut out: Vec<DeltaRef> = Vec::new();
    let mut i: usize = 0;
    while i < ds.len()
        invariant
            i <= ds@.len(),
            out@ == ds@.subrange(0, i as int).filter(|d: DeltaRef| from < d.run && d.run <= latest),
        decreases ds@.len() - i,
    {
        let d = &ds[i];
        proof {
            assert(ds@.subrange(0, i + 1).drop_last() =~= ds@.subrange(0, i as int));
            reveal_with_fuel(Seq::<DeltaRef>::filter, 1);
        }
        if from < d.run && d.run <= latest {
            let c = DeltaRef { run: d.run, file: d.file.clone(), generated_at: d.generated_at.clone(), changed_count: d.changed_count };
            assert(c == *d);
            out.push(c);
        }
        i = i + 1;
    }
    proof {
        assert(ds@.subrange(0, ds@.len() as int) =~= ds@);
    }
    out
}

/// The checkpoint a refresh loads: the newest one past the run last
/// synced (the later one among equals), if any.
pub fn checkpoint_to_load(manifest: &Manifest, last_synced: u64) -> (r: Option<CheckpointRef>)
    ensures
        r == match best_checkpoint(manifest.checkpoints@, last_synced, manifest.checkpoints@.len() as int) {
            Some(i) => Some(manifest.checkpoints@[i]),
            None => None,
        },
        r matches Some(c) ==> exists|i: int| 0 <= i < manifest.checkpoints@.len() && #[trigger] manifest.checkpoints@[i] == c,
{
    match pick_checkpoint(&manifest.checkpoints, last_synced) {
        Some(i) => {
            let c = &manifest.checkpoints[i];
            let copy = CheckpointRef { run: c.run, file: c.file.clone(), generated_at: c.generated_at.clone() };
            assert(copy == manifest.checkpoints@[i as int]);
            Some(copy)
        },
        None => None,
    }
}

/// Plan a refresh from the manifest and the run last synced (0 if never).
/// A manifest from a newer producer is refused; a catalog already at the
/// latest run needs nothing; otherwise the newest checkpoint past the last
/// synced run (if any) is loaded, and the deltas after the starting run
/// must run exactly `from_run + 1 ..= latest_run`. The ascending runs are
/// checked position by position first (the first gap is reported), then
/// their count; a checkpoint past the latest run leaves a chain that can
/// never be complete.
pub fn plan_sync(manifest: &Manifest, last_synced: u64) -> (r: Result<SyncPlan, SyncError>)
    ensures
        manifest.schema_version > 1 ==> r == Err::<SyncPlan, SyncError>(SyncError::NewerSchema { schema_version: manifest.schema_version }),
        manifest.schema_version <= 1 && last_synced >= manifest.latest_run ==> (r matches Ok(SyncPlan::UpToDate { last_synced: l, latest_run: t })
            && l == last_synced && t == manifest.latest_run),
        needs_sync(*manifest, last_synced) ==> (r matches Ok(SyncPlan::Sync { checkpoint, from_run, deltas, latest_run }) ==> {
            &&& from_run == start_run(*manifest, last_synced)
            &&& latest_run == manifest.latest_run
            &&& checkpoint == match best_checkpoint(manifest.checkpoints@, last_synced, manifest.checkpoints@.len() as int) {
                Some(i) => Some(manifest.checkpoints@[i]),
                None => None,
            }
            &&& consecutive_from(deltas@, from_run, manifest.latest_run)
            &&& deltas@.to_multiset() == sync_window(*manifest, last_synced).to_multiset()
        }),
        needs_sync(*manifest, last_synced) ==> (r matches Err(SyncError::BrokenChain { count, from_run, latest_run }) ==> {
            &&& count == sync_window(*manifest, last_synced).len()
            &&& count != manifest.latest_run - from_run
            &&& from_run == start_run(*manifest, last_synced)
            &&& latest_run == manifest.latest_run
        }),
        needs_sync(*manifest, last_synced) ==> (r matches Err(SyncError::MissingDelta { expected, found }) ==> {
            &&& start_run(*manifest, last_synced) < expected <= manifest.latest_run
            &&& found != expected
            &&& exists|j: int| 0 <= j < sync_window(*manifest, last_synced).len() && #[trigger] sync_window(*manifest, last_synced)[j].run == found
        }),
        needs_sync(*manifest, last_synced) ==> (r is Ok || r matches Err(SyncError::BrokenChain { .. }) || r matches Err(SyncError::MissingDelta { .. })),
        needs_sync(*manifest, last_synced) ==> (r is Ok <==> chain_complete(*manifest, last_synced)),
        needs_sync(*manifest, last_synced) ==> ({
            let s = sorted_runs(sync_window(*manifest, last_synced));
            let f = start_run(*manifest, last_synced);
            forall|k: int| 0 <= k < checked_len(s, f, manifest.latest_run) && gap_free_until(s, f, k)
                && #[trigger] s[k] != f + 1 + k ==> r == Err::<SyncPlan, SyncError>(
                SyncError::MissingDelta { expected: (f + 1 + k) as u64, found: s[k] },
            )
        }),
        needs_sync(*manifest, last_synced) ==> ({
            let s = sorted_runs(sync_window(*manifest, last_synced));
            let f = start_run(*manifest, last_synced);
            gap_free_until(s, f, checked_len(s, f, manifest.latest_run)) && s.len() != manifest.latest_run - f
                ==> r == Err::<SyncPlan, SyncError>(
                SyncError::BrokenChain { count: s.len() as usize, from_run: f, latest_run: manifest.latest_run },
            )
        }),
{
    if manifest.schema_version > 1 {
        return Err(SyncError::NewerSchema { schema_version: manifest.schema_version });
    }
    let latest = manifest.latest_run;
    if last_synced >= latest {
        return Ok(SyncPlan::UpToDate { last_synced, latest_run: latest });
    }
    let checkpoint = checkpoint_to_load(manifest, last_synced);
    let from_run = match &checkpoint {
        Some(c) => c.run,
        None => last_synced,
    };
    let w = filter_window(&manifest.deltas, from_run, latest);
    let ghost wv = w@;
    let deltas = sort_by_run(w);
    proof {
        vstd::seq_lib::to_multiset_len(deltas@);
        vstd::seq_lib::to_multiset_len(wv);
        assert(from_run == start_run(*manifest, last_synced));
        assert(ascending(runs(deltas@))) by {
            assert forall|i: int, j: int| 0 <= i < j < runs(deltas@).len() implies #[trigger] runs(deltas@)[i] <= #[trigger] runs(deltas@)[j] by {
                assert(deltas@[i].run <= deltas@[j].run);
            }
        }
        lemma_sorted_runs_unique(wv, runs(deltas@));
        vstd::seq_lib::to_multiset_len(runs(deltas@));
    }
    let ghost sr = runs(deltas@);
    if from_run > latest {
        proof {
            assert(sr.len() == 0) by {
                manifest.deltas@.filter_lemma(|d: DeltaRef| from_run < d.run && d.run <= latest);
                if wv.len() > 0 {
                    assert(from_run < wv[0].run && wv[0].run <= latest);
                }
            }
        }
        return Err(SyncError::BrokenChain { count: deltas.len(), from_run, latest_run: latest });
    }
    let expected_count = latest - from_run;
    let n = if (deltas.len() as u64) < expected_count { deltas.len() } else { expected_count as usize };
    let mut i: usize = 0;
    while i < n
        invariant
            i <= n,
            n <= deltas@.len(),
            n <= expected_count,
            from_run < latest || from_run == latest,
            expected_count == latest - from_run,
            forall|k: int| 0 <= k < i ==> #[trigger] deltas@[k].run == from_run + 1 + k,
            needs_sync(*manifest, last_synced),
            from_run == start_run(*manifest, last_synced),
            latest == manifest.latest_run,
            wv == sync_window(*manifest, last_synced),
            deltas@.to_multiset() == wv.to_multiset(),
            runs(deltas@).to_multiset() == runs(wv).to_multiset(),
            runs_sorted(deltas@),
            sr == runs(deltas@),
            sorted_runs(wv) == sr,
            n == checked_len(sr, from_run, latest),
        decreases n - i,
    {
        let expected = from_run + 1 + i as u64;
        if deltas[i].run != expected {
            proof {
                broadcast use vstd::seq_lib::group_to_multiset_ensures;
                assert(deltas@.to_multiset().count(deltas@[i as int]) > 0);
                assert(wv.contains(deltas@[i as int]));
                let j = choose|j: int| 0 <= j < wv.len() && wv[j] == deltas@[i as int];
                assert(wv[j].run == deltas@[i as int].run);
                if chain_complete(*manifest, last_synced) {
                    lemma_sorted_runs_are_the_range(deltas@, from_run, latest);
                }
                assert(sr[i as int] == deltas@[i as int].run);
                assert(sr[i as int] != from_run + 1 + i);
                assert(!gap_free_until(sr, from_run, checked_len(sr, from_run, latest)));
                assert forall|k: int| 0 <= k < checked_len(sr, from_run, latest) && gap_free_until(sr, from_run, k)
                    && #[trigger] sr[k] != from_run + 1 + k implies k == i by {
                    if k > i {
                        assert(sr[i as int] == from_run + 1 + i);
                    }
                    if k < i {
                        assert(sr[k] == deltas@[k].run);
                    }
                }
            }
            return Err(SyncError::MissingDelta { expected, found: deltas[i].run });
        }
        i = i + 1;
    }
    if (deltas.len() as u64) != expected_count {
        proof {
            vstd::seq_lib::to_multiset_len(runs(deltas@));
            vstd::seq_lib::to_multiset_len(run_range(from_run, latest));
        }
        return Err(SyncError::BrokenChain { count: deltas.len(), from_run, latest_run: latest });
    }
    proof {
        assert(runs(deltas@) =~= run_range(from_run, latest));
    }
    Ok(SyncPlan::Sync { checkpoint, from_run, deltas, latest_run: latest })
}

/// A sync is needed: the manifest is understood and newer than the catalog.
pub open spec fn needs_sync(m: Manifest, last_synced: u64) -> bool {
    m.schema_version <= 1 && last_synced < m.latest_run
}

/// The run the delta chain starts after: the chosen checkpoint's, or the
/// last synced run when no checkpoint is loaded.
pub open spec fn start_run(m: Manifest, last_synced: u64) -> u64 {
    match best_checkpoint(m.checkpoints@, last_synced, m.checkpoints@.len() as int) {
        Some(i) => m.checkpoints@[i].run,
        None => last_synced,
    }
}

/// The deltas after the starting run up to the latest run.
pub open spec fn sync_window(m: Manifest, last_synced: u64) -> Seq<DeltaRef> {
    window(m.deltas@, start_run(m, last_synced), m.latest_run)
}

/// A change a delta applies to one catalog row.
#[derive(Debug, Clone, Copy, PartialEq, Eq)]
pub enum DeltaOp {
    Insert,
    Update,
}

/// The operation a delta change names: `insert` or `update`; anything else
/// (including the reserved `delete`) comes from a newer producer.
pub fn classify_op(op: &str, run: u64) -> (r: Result<DeltaOp, SyncError>)
    ensures
        op@ == "insert"@ ==> r == Ok::<DeltaOp, SyncError>(DeltaOp::Insert),
        op@ == "update"@ ==> r == Ok::<DeltaOp, SyncError>(DeltaOp::Update),
        op@ != "insert"@ && op@ != "update"@ ==> (r matches Err(SyncError::UnsupportedOp { op: o, run: n }) && o@ == op@ && n == run),
{
    proof {
        reveal_strlit("insert");
        reveal_strlit("update");
        assert("insert"@[0] != "update"@[0]);
    }
    if str_eq(op, "insert") {
        Ok(DeltaOp::Insert)
    } else if str_eq(op, "update") {
        Ok(DeltaOp::Update)
    } else {
        Err(SyncError::UnsupportedOp { op: owned(op), run })
    }
}

/// A delta file from a newer producer is refused.
pub fn check_delta_schema(schema_version: u32) -> (r: Result<(), SyncError>)
    ensures
        schema_version <= 1 ==> r is Ok,
        schema_version > 1 ==> r == Err::<(), SyncError>(SyncError::NewerSchema { schema_version }),
{
    if schema_version > 1 {
        Err(SyncError::NewerSchema { schema_version })
    } else {
        Ok(())
    }
}

// ---------------------------------------------------------------------------
// Where files come from
// ---------------------------------------------------------------------------

/// Where a file of the served directory is read from.
#[derive(Debug, Clone, PartialEq, Eq)]
pub enum Location {
    /// Fetched over HTTP(S) from this URL.
    Remote { url: String },
    /// Read from this local path.
    Local { path: String },
}

/// `s` without its trailing `/` characters.
pub open spec fn trim_slashes(s: Seq<char>) -> Seq<char>
    decreases s.len(),
{
    if s.len() > 0 && s.last() == '/' {
        trim_slashes(s.drop_last())
    } else {
        s
    }
}

/// The source is served over HTTP(S).
pub open spec fn is_http(source: Seq<char>) -> bool {
    has_prefix(source, "http://"@) || has_prefix(source, "https://"@)
}

/// A local source, with any `file://` prefix dropped.
pub open spec fn local_base(source: Seq<char>) -> Seq<char> {
    if has_prefix(source, "file://"@) {
        source.skip(7)
    } else {
        source
    }
}

/// Where `relative` (such as a delta file) is read from for `source`:
/// an `http(s)://` source gives the URL `source/relative` (without doubled
/// slashes at the join); anything else is a directory (optionally written
/// as a `file://` URL) holding the file.
pub open spec fn location_of(source: Seq<char>, relative: Seq<char>) -> (bool, Seq<char>) {
    if is_http(source) {
        (true, trim_slashes(source) + "/"@ + relative)
    } else {
        (false, path_join(local_base(source), relative))
    }
}

/// Where `relative` is read from for `source`.
pub fn locate(source: &str, relative: &str) -> (r: Location)
    ensures
        location_of(source@, relative@).0 ==> (r matches Location::Remote { url } && url@ == location_of(source@, relative@).1),
        !location_of(source@, relative@).0 ==> (r matches Location::Local { path } && path@ == location_of(source@, relative@).1),
{
    proof {
        reveal_strlit("http://");
        reveal_strlit("https://");
        reveal_strlit("file://");
        reveal_strlit("/");
    }
    let cs = chars_of(source);
    if starts_with_chars(&cs, &chars_of("http://")) || starts_with_chars(&cs, &chars_of("https://")) {
        let mut end = cs.len();
        assert(cs@.subrange(0, end as int) =~= cs@);
        while end > 0 && cs[end - 1] == '/'
            invariant
                end <= cs@.len(),
                cs@ == source@,
                trim_slashes(cs@.subrange(0, end as int)) == trim_slashes(source@),
            decreases end,
        {
            proof {
                assert(cs@.subrange(0, end as int).drop_last() =~= cs@.subrange(0, end - 1));
            }
            end = end - 1;
        }
        let mut url = string_from_range(&cs, 0, end);
        push_str(&mut url, "/");
        push_str(&mut url, relative);
        return Location::Remote { url };
    }
    let base = if starts_with_chars(&cs, &chars_of("file://")) {
        proof {
            assert(cs@.subrange(7, cs@.len() as int) =~= source@.skip(7));
        }
        string_from_range(&cs, 7, cs.len())
    } else {
        owned(source)
    };
    Location::Local { path: join_path(base.as_str(), relative) }
}

// ---------------------------------------------------------------------------
// Reports
// ---------------------------------------------------------------------------

/// The report when nothing needs syncing.
pub open spec fn up_to_date_text(last_synced: u64, latest_run: u64) -> Seq<char> {
    "Already up to date (synced to run "@ + decimal(last_synced as nat) + ", latest is run "@ + decimal(latest_run as nat)
        + ")."@
}

/// Render the report when nothing needs syncing.
pub fn up_to_date_line(last_synced: u64, latest_run: u64) -> (r: String)
    ensures
        r@ == up_to_date_text(last_synced, latest_run),
{
    proof {
        reveal_strlit("Already up to date (synced to run ");
        reveal_strlit(", latest is run ");
        reveal_strlit(").");
    }
    let mut s = owned("Already up to date (synced to run ");
    push_decimal(&mut s, last_synced);
    push_str(&mut s, ", latest is run ");
    push_decimal(&mut s, latest_run);
    push_str(&mut s, ").");
    s
}

/// The report after a sync: the run reached, whether a checkpoint was
/// loaded, the rows inserted and updated, the deltas applied, and the
/// updates skipped for rows the catalog does not have.
pub open spec fn summary_text(latest_run: u64, via_checkpoint: bool, inserted: u64, updated: u64, deltas: u64, missing: u64) -> Seq<char> {
    "Synced to run "@ + decimal(latest_run as nat) + " ("@ + (if via_checkpoint { "via checkpoint"@ } else { "deltas only"@ }) + "): "@
        + decimal(inserted as nat) + " inserted, "@ + decimal(updated as nat) + " updated across "@ + decimal(deltas as nat)
        + " delta(s)"@ + (if via_checkpoint { ", after a full checkpoint load"@ } else { ""@ }) + (if missing > 0 {
        ", "@ + decimal(missing as nat) + " skipped (missing rows)"@
    } else {
        ""@
    }) + "."@
}

/// Render the report after a sync.
pub fn summary_line(latest_run: u64, via_checkpoint: bool, inserted: u64, updated: u64, deltas: u64, missing: u64) -> (r: String)
    ensures
        r@ == summary_text(latest_run, via_checkpoint, inserted, updated, deltas, missing),
{
    proof {
        reveal_strlit("Synced to run ");
        reveal_strlit(" (");
        reveal_strlit("via checkpoint");
        reveal_strlit("deltas only");
        reveal_strlit("): ");
        reveal_strlit(" inserted, ");
        reveal_strlit(" updated across ");
        reveal_strlit(" delta(s)");
        reveal_strlit(", after a full checkpoint load");
        reveal_strlit("");
        reveal_strlit(", ");
        reveal_strlit(" skipped (missing rows)");
        reveal_strlit(".");
    }
    let mut s = owned("Synced to run ");
    push_decimal(&mut s, latest_run);
    push_str(&mut s, " (");
    push_str(&mut s, if via_checkpoint { "via checkpoint" } else { "deltas only" });
    push_str(&mut s, "): ");
    push_decimal(&mut s, inserted);
    push_str(&mut s, " inserted, ");
    push_decimal(&mut s, updated);
    push_str(&mut s, " updated across ");
    push_decimal(&mut s, deltas);
    push_str(&mut s, " delta(s)");
    push_str(&mut s, if via_checkpoint { ", after a full checkpoint load" } else { "" });
    if missing > 0 {
        push_str(&mut s, ", ");
        push_decimal(&mut s, missing);
        push_str(&mut s, " skipped (missing rows)");
    }
    push_str(&mut s, ".");
    proof {
        assert(s@ =~= summary_text(latest_run, via_checkpoint, inserted, updated, deltas, missing));
    }
    s
}

} // verus!
