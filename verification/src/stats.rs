//! Engine and system statistics.
use vstd::prelude::*;
use crate::index::{total_documents, Index};
use crate::repository::SchemaRepository;
use crate::errors::{AppErrorView, ApplicationError};
use crate::text::{chars_of, text};

verus! {

broadcast use vstd::string::group_string_axioms;

/// Memory figures of the machine and of this process, in bytes.
#[derive(Debug, Clone, Copy, PartialEq, Eq, Structural)]
pub struct MemoryStats {
    pub total_bytes: u64,
    pub used_bytes: u64,
    pub free_bytes: u64,
    pub available_bytes: u64,
    pub process_used_bytes: u64,
}

/// The disk that holds the working directory.
#[derive(Debug)]
pub struct DiskStats {
    pub disk_path: String,
    pub total_bytes: u64,
    pub available_bytes: u64,
}

/// Counts of the engine's contents.
#[derive(Debug, Clone, Copy, PartialEq, Eq, Structural)]
pub struct EngineStats {
    pub total_collections: usize,
    pub total_documents: usize,
}

/// The operating system.
#[derive(Debug)]
pub struct SystemInfo {
    pub os_name: String,
    pub os_version: String,
}

/// The answer to a statistics request.
#[derive(Debug)]
pub struct StatsResponse {
    pub system_info: SystemInfo,
    pub memory: MemoryStats,
    pub disk: DiskStats,
    pub engine: EngineStats,
}

/// One mounted disk, as the system reports it.
#[derive(Debug)]
pub struct DiskSample {
    /// Where the disk is mounted.
    pub mount_point: String,
    /// The length of the mount point path, in bytes of the platform's path
    /// encoding.
    pub mount_point_len: usize,
    pub total_bytes: u64,
    pub available_bytes: u64,
}

/// What the system reports: its name and version where known, memory, the
/// working directory and the mounted disks.
#[derive(Debug)]
pub struct SystemSnapshot {
    pub os_name: Option<String>,
    pub os_version: Option<String>,
    pub memory: MemoryStats,
    pub current_dir: String,
    pub disks: Vec<DiskSample>,
}

/// Whether std's `Path::starts_with` holds of the two paths: `base` is a
/// prefix of `dir`, whole components at a time.
pub uninterp spec fn path_within(dir: Seq<char>, base: Seq<char>) -> bool;

/// The position `i` of `s` starts a `.` component: a `.` between separators
/// or the ends.
pub open spec fn dot_component_at(s: Seq<char>, i: int) -> bool {
    &&& s[i] == '.'
    &&& i == 0 || s[i - 1] == '/'
    &&& i + 1 == s.len() || s[i + 1] == '/'
}

/// A path written plainly: `/` separators only, no `\\` and no `:` (so no
/// drive or other prefix, on any platform), no repeated separator and no
/// `.` component. Its components are a root, where it starts with `/`,
/// then the runs of characters between separators.
pub open spec fn plain_path(s: Seq<char>) -> bool {
    forall|i: int|
        0 <= i < s.len() ==> {
            &&& #[trigger] s[i] != '\\'
            &&& s[i] != ':'
            &&& !(s[i] == '/' && i + 1 < s.len() && s[i + 1] == '/')
            &&& !dot_component_at(s, i)
        }
}

/// A plain path without its trailing separator, where it has one and is
/// more than the root.
pub open spec fn without_trailing_slash(b: Seq<char>) -> Seq<char> {
    if b.len() > 1 && b.last() == '/' {
        b.drop_last()
    } else {
        b
    }
}

/// For plain paths, whether the components of `base` are a prefix of those
/// of `dir`: an empty base is a prefix of everything; the root of every
/// path that starts with `/`; any other base, once without its trailing
/// separator, of `dir` equal to it or continuing it after a separator.
pub open spec fn component_prefix(dir: Seq<char>, base: Seq<char>) -> bool {
    let b = without_trailing_slash(base);
    ||| base.len() == 0
    ||| b == seq!['/'] && dir.len() > 0 && dir[0] == '/'
    ||| b != seq!['/'] && dir.len() >= b.len() && dir.take(b.len() as int) == b && (dir.len() == b.len()
        || dir[b.len() as int] == '/')
}

/// std's `Path::starts_with` on two paths given as strings; its result is
/// named by `path_within`. A path lies within itself, and for plain paths
/// the result is `component_prefix`, which is how `Path::starts_with`
/// compares whole components.
#[verifier::external_body]
pub(crate) fn path_starts_with(dir: &str, base: &str) -> (res: bool)
    ensures
        res == path_within(dir@, base@),
        dir@ == base@ ==> res,
        plain_path(dir@) && plain_path(base@) ==> res == component_prefix(dir@, base@),
{
    std::path::Path::new(dir).starts_with(base)
}

/// Whether `dir` lies within `base`, as `Path::starts_with` tells: by
/// `component_prefix` for plain paths.
pub open spec fn lies_within_path(dir: Seq<char>, base: Seq<char>) -> bool {
    if plain_path(dir) && plain_path(base) {
        component_prefix(dir, base)
    } else {
        path_within(dir, base)
    }
}

fn is_plain_path(x: &Vec<char>) -> (res: bool)
    ensures
        res == plain_path(x@),
{
    let n = x.len();
    for i in 0..n
        invariant
            n == x@.len(),
            forall|j: int|
                0 <= j < i ==> {
                    &&& #[trigger] x@[j] != '\\'
                    &&& x@[j] != ':'
                    &&& !(x@[j] == '/' && j + 1 < x@.len() && x@[j + 1] == '/')
                    &&& !dot_component_at(x@, j)
                },
    {
        let c = x[i];
        if c == '\\' || c == ':' {
            return false;
        }
        if c == '/' && i + 1 < n && x[i + 1] == '/' {
            return false;
        }
        if c == '.' && (i == 0 || x[i - 1] == '/') && (i + 1 == n || x[i + 1] == '/') {
            assert(dot_component_at(x@, i as int));
            return false;
        }
    }
    true
}

/// Whether `dir` lies within `base` (see `lies_within_path`): plain paths
/// are compared here component by component, any other through std's
/// `Path::starts_with`.
pub fn lies_within(dir: &str, base: &str) -> (res: bool)
    ensures
        res == lies_within_path(dir@, base@),
{
    let d = chars_of(dir);
    let b = chars_of(base);
    if !(is_plain_path(&d) && is_plain_path(&b)) {
        return path_starts_with(dir, base);
    }
    assert(plain_path(dir@) && plain_path(base@));
    let bn = b.len();
    if bn == 0 {
        return true;
    }
    let m = if bn > 1 && b[bn - 1] == '/' { bn - 1 } else { bn };
    let ghost stripped = without_trailing_slash(b@);
    assert(stripped =~= b@.take(m as int));
    if m == 1 && b[0] == '/' {
        assert(stripped =~= seq!['/']);
        return d.len() > 0 && d[0] == '/';
    }
    assert(stripped != seq!['/']) by {
        if stripped == seq!['/'] {
            assert(stripped[0] == b@[0]);
        }
    }
    assert(stripped.len() == m);
    if d.len() < m {
        assert(!component_prefix(dir@, base@));
        assert(!lies_within_path(dir@, base@));
        return false;
    }
    let mut k: usize = 0;
    while k < m
        invariant
            d@ == dir@,
            b@ == base@,
            k <= m <= b@.len(),
            m <= d@.len(),
            stripped == b@.take(m as int),
            stripped == without_trailing_slash(base@),
            stripped != seq!['/'],
            base@.len() > 0,
            plain_path(dir@) && plain_path(base@),
            d@.take(k as int) == b@.take(k as int),
        decreases m - k,
    {
        if d[k] != b[k] {
            assert(d@.take(m as int)[k as int] != stripped[k as int]);
            return false;
        }
        assert(d@.take(k + 1) =~= d@.take(k as int).push(d@[k as int]));
        assert(b@.take(k + 1) =~= b@.take(k as int).push(b@[k as int]));
        k = k + 1;
    }
    assert(d@.take(m as int) =~= stripped);
    d.len() == m || d[m] == '/'
}

/// For each disk, whether `dir` lies within its mount point.
pub open spec fn mounts_holding(dir: Seq<char>, disks: Seq<DiskSample>) -> Seq<bool> {
    Seq::new(disks.len(), |k: int| lies_within_path(dir, disks[k].mount_point@))
}

/// The disk among the first `n` disks that a directory lies on, given for
/// each disk whether the directory lies within its mount point: the one
/// with the longest mount point among those, the first such where lengths
/// tie; none where it lies within none of nonzero length.
pub open spec fn best_disk(disks: Seq<DiskSample>, within: Seq<bool>, n: nat) -> Option<int>
    decreases n,
{
    if n == 0 {
        None
    } else {
        let prev = best_disk(disks, within, (n - 1) as nat);
        let best_len: usize = match prev {
            Some(i) => disks[i].mount_point_len,
            None => 0,
        };
        if within[n - 1] && disks[n - 1].mount_point_len > best_len {
            Some(n - 1)
        } else {
            prev
        }
    }
}

/// `res` reports the disk that `best_disk` picks, or an unknown disk of no
/// size where it picks none.
pub open spec fn reports_disk(res: DiskStats, disks: Seq<DiskSample>, within: Seq<bool>) -> bool {
    match best_disk(disks, within, disks.len()) {
        Some(i) => res.disk_path@ == disks[i].mount_point@ && res.total_bytes == disks[i].total_bytes
            && res.available_bytes == disks[i].available_bytes,
        None => res.disk_path@ == "unknown"@ && res.total_bytes == 0 && res.available_bytes == 0,
    }
}

proof fn lemma_best_disk_range(disks: Seq<DiskSample>, within: Seq<bool>, n: nat)
    ensures
        best_disk(disks, within, n) matches Some(i) ==> 0 <= i < n,
    decreases n,
{
    if n > 0 {
        lemma_best_disk_range(disks, within, (n - 1) as nat);
    }
}

/// Picks the disk that a directory lies on, given for each disk whether the
/// directory lies within its mount point (see `best_disk`).
pub fn pick_disk(disks: &Vec<DiskSample>, within: &Vec<bool>) -> (res: DiskStats)
    requires
        within@.len() == disks@.len(),
    ensures
        reports_disk(res, disks@, within@),
{
    let mut best: Option<usize> = None;
    let mut best_match_len: usize = 0;
    let n = disks.len();
    for k in 0..n
        invariant
            n == disks@.len(),
            within@.len() == n,
            best == match best_disk(disks@, within@, k as nat) {
                Some(i) => Some(i as usize),
                None => None::<usize>,
            },
            best_match_len == match best_disk(disks@, within@, k as nat) {
                Some(i) => disks@[i].mount_point_len,
                None => 0,
            },
    {
        proof {
            lemma_best_disk_range(disks@, within@, k as nat);
        }
        let disk = &disks[k];
        if within[k] && disk.mount_point_len > best_match_len {
            best = Some(k);
            best_match_len = disk.mount_point_len;
        }
    }
    proof {
        lemma_best_disk_range(disks@, within@, n as nat);
    }
    match best {
        Some(i) => DiskStats {
            disk_path: disks[i].mount_point.clone(),
            total_bytes: disks[i].total_bytes,
            available_bytes: disks[i].available_bytes,
        },
        None => DiskStats { disk_path: text("unknown"), total_bytes: 0, available_bytes: 0 },
    }
}

/// Picks the disk that holds `dir`: tests with std's `Path::starts_with`
/// whether `dir` lies within each mount point, then picks the disk with the
/// longest such mount point as `pick_disk` does.
pub fn select_disk(dir: &str, disks: &Vec<DiskSample>) -> (res: DiskStats)
    ensures
        reports_disk(res, disks@, mounts_holding(dir@, disks@)),
{
    let mut within: Vec<bool> = Vec::new();
    let n = disks.len();
    for k in 0..n
        invariant
            n == disks@.len(),
            within@ == mounts_holding(dir@, disks@).take(k as int),
    {
        let inside = lies_within(dir, disks[k].mount_point.as_str());
        within.push(inside);
        assert(within@ =~= mounts_holding(dir@, disks@).take(k + 1));
    }
    assert(within@ =~= mounts_holding(dir@, disks@));
    pick_disk(disks, &within)
}

/// The engine figures from the outcomes of listing the collections and
/// counting the documents: a failed listing is reported first, whether or
/// not the count failed too; neither report carries the underlying error.
pub fn engine_stats(
    collections: Result<Vec<String>, ApplicationError>,
    total_documents: Result<usize, ApplicationError>,
) -> (res: Result<EngineStats, ApplicationError>)
    ensures
        collections is Err ==> (res matches Err(e) && e@ == AppErrorView::InfrastructureError(
            "Failed to retrieve collection count"@,
        )),
        collections is Ok && total_documents is Err ==> (res matches Err(e) && e@
            == AppErrorView::InfrastructureError("Failed to retrieve document count"@)),
        collections is Ok && total_documents is Ok ==> (res matches Ok(s) && s.total_collections
            == collections->Ok_0@.len() && s.total_documents == total_documents->Ok_0),
{
    let names = match collections {
        Ok(c) => c,
        Err(_) => {
            return Err(ApplicationError::InfrastructureError(text("Failed to retrieve collection count")));
        },
    };
    let n = match total_documents {
        Ok(n) => n,
        Err(_) => {
            return Err(ApplicationError::InfrastructureError(text("Failed to retrieve document count")));
        },
    };
    Ok(EngineStats { total_collections: names.len(), total_documents: n })
}

/// Reports statistics of the engine and the system.
pub struct StatsService {}

impl StatsService {
    pub fn new() -> (res: Self) {
        StatsService {}
    }

    /// Lists the collections and counts the documents, and combines the
    /// counts with what the system reports.
    pub fn get_stats<S: SchemaRepository, I: Index>(
        &self,
        schema_repo: &S,
        index: &I,
        system: SystemSnapshot,
    ) -> (res: Result<StatsResponse, ApplicationError>)
        requires
            schema_repo.wf(),
            index.wf(),
        ensures
            res matches Ok(r) ==> {
                &&& r.engine.total_collections == schema_repo.schemas().dom().len()
                &&& r.engine.total_documents == if total_documents(index.documents()) <= usize::MAX {
                    total_documents(index.documents())
                } else {
                    usize::MAX as nat
                }
                &&& r.memory == system.memory
                &&& r.system_info.os_name@ == match system.os_name {
                    Some(s) => s@,
                    None => "Unknown OS"@,
                }
                &&& r.system_info.os_version@ == match system.os_version {
                    Some(s) => s@,
                    None => "Unknown Version"@,
                }
                &&& reports_disk(r.disk, system.disks@, mounts_holding(system.current_dir@, system.disks@))
            },
            res matches Err(e) ==> (!S::reliable() && e@ == AppErrorView::InfrastructureError(
                "Failed to retrieve collection count"@,
            )) || (!I::reliable() && e@ == AppErrorView::InfrastructureError(
                "Failed to retrieve document count"@,
            )),
            I::reliable() ==> (res matches Err(e) ==> e@ == AppErrorView::InfrastructureError(
                "Failed to retrieve collection count"@,
            )),
            S::reliable() && I::reliable() ==> res is Ok,
    {
        let collections = schema_repo.list();
        let counted = index.get_total_document_count();
        let ghost listed = collections;
        let engine = match engine_stats(collections, counted) {
            Ok(e) => e,
            Err(e) => {
                return Err(e);
            },
        };
        proof {
            if let Ok(names) = listed {
                assert(names@.len() == schema_repo.schemas().dom().len());
                assert(engine.total_collections == names@.len());
            }
        }
        let disk = select_disk(system.current_dir.as_str(), &system.disks);
        let os_name = match system.os_name {
            Some(s) => s,
            None => text("Unknown OS"),
        };
        let os_version = match system.os_version {
            Some(s) => s,
            None => text("Unknown Version"),
        };
        let r = StatsResponse { system_info: SystemInfo { os_name, os_version }, memory: system.memory, disk, engine };
        Ok(r)
    }
}

} // verus!
