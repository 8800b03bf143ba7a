//! The worker's side of a job: the variables a script sees, and where the
//! file it produced goes.
use vstd::prelude::*;
use crate::config::{FsRemap, remap_all_to_worker, remap_to_worker, remaps_view};
use crate::path::{FsPath, FsPathView, has_prefix, joined, parent_of, path_of_text, render, suffix_after};
use crate::wire::{JobMsg, Message, pairs_view};

verus! {

/// `v` without the entries whose key is `k`.
pub open spec fn without_key(v: Seq<(Seq<char>, Seq<char>)>, k: Seq<char>) -> Seq<(Seq<char>, Seq<char>)>
    decreases v.len(),
{
    if v.len() == 0 {
        v
    } else if v.last().0 == k {
        without_key(v.drop_last(), k)
    } else {
        without_key(v.drop_last(), k).push(v.last())
    }
}

/// Sets `key` to `value`, dropping what it held before.
pub fn set_var(vars: &mut Vec<(String, String)>, key: String, value: String)
    ensures
        pairs_view(final(vars)@) == without_key(pairs_view(old(vars)@), key@).push((key@, value@)),
{
    let ghost ov = pairs_view(old(vars)@);
    let mut out: Vec<(String, String)> = Vec::new();
    let mut i: usize = 0;
    while i < vars.len()
        invariant
            i <= vars@.len(),
            ov == pairs_view(vars@),
            pairs_view(out@) == without_key(ov.take(i as int), key@),
        decreases vars@.len() - i,
    {
        assert(ov.take(i + 1).drop_last() =~= ov.take(i as int));
        if vars[i].0 != key {
            let k = vars[i].0.clone();
            let v = vars[i].1.clone();
            out.push((k, v));
            assert(pairs_view(out@) =~= without_key(ov.take(i as int), key@).push(ov[i as int]));
        }
        i = i + 1;
    }
    assert(ov.take(i as int) =~= ov);
    let ghost before = pairs_view(out@);
    out.push((key, value));
    assert(pairs_view(out@) =~= before.push((key@, value@)));
    *vars = out;
}

/// The worker's view, as text, of a path that the master sent as text.
pub open spec fn worker_text(t: Seq<char>, remaps: Seq<crate::config::FsRemapView>) -> Seq<char> {
    render(remap_all_to_worker(remaps, path_of_text(t)))
}

pub open spec fn cachedir_key() -> Seq<char> {
    seq!['C', 'A', 'C', 'H', 'E', 'D', 'I', 'R']
}

pub open spec fn srcfile_key() -> Seq<char> {
    seq!['S', 'R', 'C', 'F', 'I', 'L', 'E']
}

pub open spec fn dstdir_key() -> Seq<char> {
    seq!['D', 'S', 'T', 'D', 'I', 'R']
}

pub open spec fn libraryroot_key() -> Seq<char> {
    seq!['L', 'I', 'B', 'R', 'A', 'R', 'Y', 'R', 'O', 'O', 'T']
}

/// The job's variables with the workspace and the job's three paths, seen
/// from the worker, added under their fixed names.
pub open spec fn script_vars(
    vars: Seq<(Seq<char>, Seq<char>)>,
    workspace: Seq<char>,
    file: Seq<char>,
    dst_dir: Seq<char>,
    library_root: Seq<char>,
    remaps: Seq<crate::config::FsRemapView>,
) -> Seq<(Seq<char>, Seq<char>)> {
    let v1 = without_key(vars, cachedir_key()).push((cachedir_key(), workspace));
    let v2 = without_key(v1, srcfile_key()).push((srcfile_key(), worker_text(file, remaps)));
    let v3 = without_key(v2, dstdir_key()).push((dstdir_key(), worker_text(dst_dir, remaps)));
    without_key(v3, libraryroot_key()).push((libraryroot_key(), worker_text(library_root, remaps)))
}

fn worker_path_text(t: &String, remaps: &Option<Vec<FsRemap>>) -> (r: String)
    ensures
        r@ == worker_text(t@, remaps_view(*remaps)),
{
    let p = FsPath::parse(t.as_str());
    let w = remap_to_worker(&p, remaps);
    w.render()
}

/// The variables a job's script sees: those the master sent, plus
/// `CACHEDIR` (the job's workspace) and `SRCFILE`, `DSTDIR`, `LIBRARYROOT`
/// remapped to the worker's view.
pub fn build_script_vars(spec: &JobMsg, workspace: &String, remaps: &Option<Vec<FsRemap>>) -> (r: Vec<(String, String)>)
    ensures
        pairs_view(r@) == script_vars(
            pairs_view(spec.vars@),
            workspace@,
            spec.file@,
            spec.dst_dir@,
            spec.library_root@,
            remaps_view(*remaps),
        ),
{
    let mut vars = crate::dispatch::copy_pairs(&spec.vars);
    let k1 = String::from_str("CACHEDIR");
    let k2 = String::from_str("SRCFILE");
    let k3 = String::from_str("DSTDIR");
    let k4 = String::from_str("LIBRARYROOT");
    proof {
        reveal_strlit("CACHEDIR");
        reveal_strlit("SRCFILE");
        reveal_strlit("DSTDIR");
        reveal_strlit("LIBRARYROOT");
    }
    assert(k1@ =~= cachedir_key());
    assert(k2@ =~= srcfile_key());
    assert(k3@ =~= dstdir_key());
    assert(k4@ =~= libraryroot_key());
    set_var(&mut vars, k1, workspace.clone());
    set_var(&mut vars, k2, worker_path_text(&spec.file, remaps));
    set_var(&mut vars, k3, worker_path_text(&spec.dst_dir, remaps));
    set_var(&mut vars, k4, worker_path_text(&spec.library_root, remaps));
    vars
}


/// Why a produced file could not be placed.
#[derive(Debug, Clone, PartialEq, Eq)]
pub enum PlacementError {
    /// The script named a file that does not exist.
    MissingOutput,
    /// The mode code is none of 1, 2 and 3.
    UnknownMode(u8),
    /// The source file does not lie under the library root.
    NotUnderLibraryRoot,
    /// The produced path has no last component.
    NoFileName,
}

/// The one-component relative path `name`.
pub open spec fn name_path(name: Seq<char>) -> FsPathView {
    FsPathView { absolute: false, parts: seq![name] }
}

/// The directory of the source file relative to the library root (empty
/// when the source is the root itself).
pub open spec fn relative_dir(src: FsPathView, root: FsPathView) -> FsPathView {
    let rel = suffix_after(src, root);
    if rel.parts.len() > 0 {
        parent_of(rel)
    } else {
        rel
    }
}

/// Where the produced file goes: mode 1 keeps the source's directory under
/// the library root below `dst`, mode 2 puts it straight in `dst`, mode 3
/// overwrites the source.
pub open spec fn placement(
    mode: u8,
    produced: FsPathView,
    src: FsPathView,
    root: FsPathView,
    dst: FsPathView,
) -> Result<FsPathView, PlacementError> {
    if mode == 1 {
        if !has_prefix(src, root) {
            Err(PlacementError::NotUnderLibraryRoot)
        } else if produced.parts.len() == 0 {
            Err(PlacementError::NoFileName)
        } else {
            Ok(joined(dst, joined(relative_dir(src, root), name_path(produced.parts.last()))))
        }
    } else if mode == 2 {
        if produced.parts.len() == 0 {
            Err(PlacementError::NoFileName)
        } else {
            Ok(joined(dst, name_path(produced.parts.last())))
        }
    } else if mode == 3 {
        Ok(src)
    } else {
        Err(PlacementError::UnknownMode(mode))
    }
}

/// Where the file the script produced must be copied.
pub fn output_destination(
    mode: u8,
    produced: &FsPath,
    src_file: &FsPath,
    library_root: &FsPath,
    dst_dir: &FsPath,
) -> (r: Result<FsPath, PlacementError>)
    ensures
        match r {
            Ok(d) => placement(mode, produced@, src_file@, library_root@, dst_dir@) == Ok::<
                FsPathView,
                PlacementError,
            >(d@),
            Err(e) => placement(mode, produced@, src_file@, library_root@, dst_dir@) == Err::<
                FsPathView,
                PlacementError,
            >(e),
        },
{
    if mode == 1 {
        let rel = match src_file.strip_prefix(library_root) {
            None => {
                return Err(PlacementError::NotUnderLibraryRoot);
            },
            Some(r) => r,
        };
        let name = match produced.file_name() {
            None => {
                return Err(PlacementError::NoFileName);
            },
            Some(n) => n,
        };
        let dir = match rel.parent() {
            Some(p) => p,
            None => rel,
        };
        let mut parts: Vec<String> = Vec::new();
        parts.push(name);
        let leaf = FsPath { absolute: false, parts };
        assert(leaf@.parts =~= seq![produced@.parts.last()]);
        Ok(dst_dir.join(&dir.join(&leaf)))
    } else if mode == 2 {
        let name = match produced.file_name() {
            None => {
                return Err(PlacementError::NoFileName);
            },
            Some(n) => n,
        };
        let mut parts: Vec<String> = Vec::new();
        parts.push(name);
        let leaf = FsPath { absolute: false, parts };
        assert(leaf@.parts =~= seq![produced@.parts.last()]);
        Ok(dst_dir.join(&leaf))
    } else if mode == 3 {
        Ok(src_file.duplicate())
    } else {
        Err(PlacementError::UnknownMode(mode))
    }
}

/// A placed file keeps its name, and in mode 1 lands in the source's
/// directory relative to the library root, below the destination; in mode
/// 2 it lands straight in the destination; in mode 3 it replaces the source.
pub proof fn law_placement(
    mode: u8,
    produced: FsPathView,
    src: FsPathView,
    root: FsPathView,
    dst: FsPathView,
)
    requires
        placement(mode, produced, src, root, dst) is Ok,
    ensures
        ({
            let d = placement(mode, produced, src, root, dst)->Ok_0;
            &&& mode == 1 ==> d.parts.last() == produced.parts.last() && parent_of(d) == joined(
                dst,
                relative_dir(src, root),
            )
            &&& mode == 2 ==> d == joined(dst, name_path(produced.parts.last()))
            &&& mode == 3 ==> d == src
        }),
{
    if mode == 1 {
        let d = placement(mode, produced, src, root, dst)->Ok_0;
        let rd = relative_dir(src, root);
        assert(d.parts =~= dst.parts + rd.parts + seq![produced.parts.last()]);
        assert(parent_of(d).parts =~= dst.parts + rd.parts);
    }
}

/// What the runner does once the script has finished.
#[derive(Debug)]
pub enum Completion {
    /// No output was declared: report completion without a file.
    NoOutput,
    /// Report the failure.
    Fail(PlacementError),
    /// Report copying, copy `from` to `to`, then report completion with `reported`.
    Copy { from: FsPath, to: FsPath, reported: String },
}

/// The runner's decision after a script that succeeded: `output` is what
/// the script declared (file and mode), `produced_exists` whether that file
/// is there. Paths of the job are taken to the worker's view first; mode 3
/// reports the source path as the master sent it.
pub fn plan_completion(
    spec: &JobMsg,
    remaps: &Option<Vec<FsRemap>>,
    output: &Option<(String, u8)>,
    produced_exists: bool,
) -> (r: Completion)
    ensures
        match output {
            None => r is NoOutput,
            Some((file, mode)) => {
                let produced = path_of_text(file@);
                let rs = remaps_view(*remaps);
                let src = remap_all_to_worker(rs, path_of_text(spec.file@));
                let root = remap_all_to_worker(rs, path_of_text(spec.library_root@));
                let dst = remap_all_to_worker(rs, path_of_text(spec.dst_dir@));
                if !produced_exists {
                    r == Completion::Fail(PlacementError::MissingOutput)
                } else {
                    match placement(*mode, produced, src, root, dst) {
                        Err(e) => r == Completion::Fail(e),
                        Ok(d) => r matches Completion::Copy { from, to, reported } && from@
                            == produced && to@ == d && reported@ == (if *mode == 3 {
                            spec.file@
                        } else {
                            render(d)
                        }),
                    }
                }
            },
        },
{
    match output {
        None => Completion::NoOutput,
        Some((file, mode)) => {
            if !produced_exists {
                return Completion::Fail(PlacementError::MissingOutput);
            }
            let produced = FsPath::parse(file.as_str());
            let src = remap_to_worker(&FsPath::parse(spec.file.as_str()), remaps);
            let root = remap_to_worker(&FsPath::parse(spec.library_root.as_str()), remaps);
            let dst = remap_to_worker(&FsPath::parse(spec.dst_dir.as_str()), remaps);
            match output_destination(*mode, &produced, &src, &root, &dst) {
                Err(e) => Completion::Fail(e),
                Ok(d) => {
                    let reported = if *mode == 3 {
                        spec.file.clone()
                    } else {
                        d.render()
                    };
                    Completion::Copy { from: produced, to: d, reported }
                },
            }
        },
    }
}


/// What the worker does with a message from the master.
#[derive(Debug)]
pub enum WorkerAction {
    /// Send this message back.
    Reply(Message),
    /// Run this job.
    Start(JobMsg),
    /// Nothing to do beyond noting the message.
    Note(Message),
}

/// A ping is answered with a pong and a job is started; anything else is
/// only noted.
pub fn on_master_message(msg: Message) -> (r: WorkerAction)
    ensures
        match msg {
            Message::Ping => r matches WorkerAction::Reply(m) && m == Message::Pong,
            Message::Job(j) => r matches WorkerAction::Start(x) && x == j,
            _ => r matches WorkerAction::Note(m) && m == msg,
        },
{
    match msg {
        Message::Ping => WorkerAction::Reply(Message::Pong),
        Message::Job(j) => WorkerAction::Start(j),
        other => WorkerAction::Note(other),
    }
}

} // verus!
