//! Configuration values that the library's logic reads, and the remapping of
//! shared-filesystem paths between the master's and a worker's view.
use vstd::prelude::*;
use crate::path::{FsPath, FsPathView, has_prefix, joined, suffix_after};

verus! {

/// One `[[jobs]]` entry: a library definition.
#[derive(Debug, Clone, PartialEq, Eq)]
pub struct JobConfig {
    pub name: String,
    pub enabled: bool,
    pub source_path: String,
    pub destination_path: String,
    pub lua_script: String,
    pub variables: Vec<(String, String)>,
}

/// The `[log]` section.
#[derive(Debug, Clone, PartialEq, Eq)]
pub struct LogConfig {
    pub level: String,
    pub file: Option<String>,
}

impl Default for LogConfig {
    fn default() -> (r: LogConfig)
        ensures
            r.level@ == "info"@,
            r.file is None,
    {
        LogConfig { level: String::from_str("info"), file: None }
    }
}

/// A pair of prefixes under which the same shared tree is seen by the
/// master and by a worker.
#[derive(Debug, Clone, PartialEq, Eq)]
pub struct FsRemap {
    pub master: FsPath,
    pub worker: FsPath,
}

pub ghost struct FsRemapView {
    pub master: FsPathView,
    pub worker: FsPathView,
}

impl View for FsRemap {
    type V = FsRemapView;

    open spec fn view(&self) -> FsRemapView {
        FsRemapView { master: self.master@, worker: self.worker@ }
    }
}

/// `p` moved from under `from` to under `to`; unchanged if it is not under `from`.
pub open spec fn moved(p: FsPathView, from: FsPathView, to: FsPathView) -> FsPathView {
    if has_prefix(p, from) {
        joined(to, suffix_after(p, from))
    } else {
        p
    }
}

/// The worker's view of the master's path `p`.
pub open spec fn to_worker(r: FsRemapView, p: FsPathView) -> FsPathView {
    moved(p, r.master, r.worker)
}

/// The master's view of the worker's path `p`.
pub open spec fn to_master(r: FsRemapView, p: FsPathView) -> FsPathView {
    moved(p, r.worker, r.master)
}

fn move_path(p: &FsPath, from: &FsPath, to: &FsPath) -> (r: FsPath)
    ensures
        r@ == moved(p@, from@, to@),
{
    match p.strip_prefix(from) {
        Some(rest) => to.join(&rest),
        None => p.duplicate(),
    }
}

impl FsRemap {
    pub fn map_to_master(&self, path: &FsPath) -> (r: FsPath)
        ensures
            r@ == to_master(self@, path@),
    {
        move_path(path, &self.worker, &self.master)
    }

    pub fn map_to_worker(&self, path: &FsPath) -> (r: FsPath)
        ensures
            r@ == to_worker(self@, path@),
    {
        move_path(path, &self.master, &self.worker)
    }
}

/// A path under `master`, taken to the worker, back to the master and to the
/// worker again, lands where the first move put it.
pub proof fn law_remap_round_trip(r: FsRemapView, p: FsPathView)
    requires
        has_prefix(p, r.master),
    ensures
        to_worker(r, to_master(r, to_worker(r, p))) == to_worker(r, p),
{
    let s = suffix_after(p, r.master);
    let w = to_worker(r, p);
    assert(w.parts =~= r.worker.parts + s.parts);
    assert(w.parts.take(r.worker.parts.len() as int) =~= r.worker.parts);
    assert(suffix_after(w, r.worker).parts =~= s.parts);
    let m = to_master(r, w);
    assert(m.parts =~= p.parts);
    assert(m == p);
}

/// All remaps applied in order, each to the result of the one before.
pub open spec fn remap_all_to_worker(rs: Seq<FsRemapView>, p: FsPathView) -> FsPathView
    decreases rs.len(),
{
    if rs.len() == 0 {
        p
    } else {
        to_worker(rs.last(), remap_all_to_worker(rs.drop_last(), p))
    }
}

pub open spec fn remap_all_to_master(rs: Seq<FsRemapView>, p: FsPathView) -> FsPathView
    decreases rs.len(),
{
    if rs.len() == 0 {
        p
    } else {
        to_master(rs.last(), remap_all_to_master(rs.drop_last(), p))
    }
}

pub open spec fn remaps_view(rs: Option<Vec<FsRemap>>) -> Seq<FsRemapView> {
    match rs {
        None => Seq::empty(),
        Some(v) => Seq::new(v@.len(), |i: int| v@[i]@),
    }
}

/// The worker's view of the master's path, through every configured remap in order.
pub fn remap_to_worker(path: &FsPath, remaps: &Option<Vec<FsRemap>>) -> (r: FsPath)
    ensures
        r@ == remap_all_to_worker(remaps_view(*remaps), path@),
{
    match remaps {
        None => path.duplicate(),
        Some(v) => {
            let ghost rs = remaps_view(*remaps);
            let mut acc = path.duplicate();
            let mut i: usize = 0;
            while i < v.len()
                invariant
                    i <= v@.len(),
                    rs == remaps_view(*remaps),
                    *remaps == Some(*v),
                    acc@ == remap_all_to_worker(rs.take(i as int), path@),
                decreases v@.len() - i,
            {
                acc = v[i].map_to_worker(&acc);
                assert(rs.take(i + 1).drop_last() =~= rs.take(i as int));
                i = i + 1;
            }
            assert(rs.take(i as int) =~= rs);
            acc
        },
    }
}

/// The master's view of the worker's path, through every configured remap in order.
pub fn remap_to_master(path: &FsPath, remaps: &Option<Vec<FsRemap>>) -> (r: FsPath)
    ensures
        r@ == remap_all_to_master(remaps_view(*remaps), path@),
{
    match remaps {
        None => path.duplicate(),
        Some(v) => {
            let ghost rs = remaps_view(*remaps);
            let mut acc = path.duplicate();
            let mut i: usize = 0;
            while i < v.len()
                invariant
                    i <= v@.len(),
                    rs == remaps_view(*remaps),
                    *remaps == Some(*v),
                    acc@ == remap_all_to_master(rs.take(i as int), path@),
                decreases v@.len() - i,
            {
                acc = v[i].map_to_master(&acc);
                assert(rs.take(i + 1).drop_last() =~= rs.take(i as int));
                i = i + 1;
            }
            assert(rs.take(i as int) =~= rs);
            acc
        },
    }
}

} // verus!
