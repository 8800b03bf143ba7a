//! The master's dispatch bookkeeping: the connected workers, the jobs each
//! one holds, and the decisions taken on each event.
use vstd::prelude::*;
use crate::wire::{
    JobMsg, JobStatus, JobStatusMsg, JobStatusView, WorkerInfo, WorkerInfoView, opt_str_view,
};

verus! {

/// Where a dispatched job stands, as far as the master knows.
#[derive(Debug, Clone, Copy, PartialEq, Eq, Structural)]
pub enum TrackState {
    Sent,
    Running,
    Ended,
}

pub open spec fn is_active(s: TrackState) -> bool {
    s == TrackState::Sent || s == TrackState::Running
}

/// Everything a worker needs to run one job.
#[derive(Debug, Clone, PartialEq, Eq)]
pub struct JobContract {
    pub id: u64,
    pub src_file: String,
    pub dst_dir: String,
    pub vars: Vec<(String, String)>,
    pub script: String,
    pub library_root: String,
}

impl JobContract {
    pub fn new(
        id: u64,
        library_root: String,
        src_file: String,
        dst_dir: String,
        vars: Vec<(String, String)>,
        script: String,
    ) -> (r: JobContract)
        ensures
            r.id == id,
            r.library_root == library_root,
            r.src_file == src_file,
            r.dst_dir == dst_dir,
            r.vars == vars,
            r.script == script,
    {
        JobContract { id, src_file, dst_dir, vars, script, library_root }
    }
}

/// A dispatched job and what its worker reported of it.
pub struct JobTracking {
    pub contract: JobContract,
    pub events: Vec<JobStatus>,
    pub status: TrackState,
}

/// A connected worker and the jobs it was given.
pub struct PeerInfo {
    pub peer_id: Vec<u8>,
    pub info: WorkerInfo,
    pub jobs: Vec<JobTracking>,
}

pub ghost struct TrackView {
    pub id: u64,
    pub status: TrackState,
    pub events: Seq<JobStatusView>,
}

pub ghost struct PeerView {
    pub peer_id: Seq<u8>,
    pub info: WorkerInfoView,
    pub jobs: Seq<TrackView>,
}

pub open spec fn events_view(v: Seq<JobStatus>) -> Seq<JobStatusView> {
    Seq::new(v.len(), |i: int| v[i]@)
}

impl View for JobTracking {
    type V = TrackView;

    open spec fn view(&self) -> TrackView {
        TrackView { id: self.contract.id, status: self.status, events: events_view(self.events@) }
    }
}

pub open spec fn tracks_view(v: Seq<JobTracking>) -> Seq<TrackView> {
    Seq::new(v.len(), |i: int| v[i]@)
}

impl View for PeerInfo {
    type V = PeerView;

    open spec fn view(&self) -> PeerView {
        PeerView { peer_id: self.peer_id@, info: self.info@, jobs: tracks_view(self.jobs@) }
    }
}

pub open spec fn peers_view(v: Seq<PeerInfo>) -> Seq<PeerView> {
    Seq::new(v.len(), |i: int| v[i]@)
}

/// How many of the jobs are sent or running.
pub open spec fn active_count(jobs: Seq<TrackView>) -> nat
    decreases jobs.len(),
{
    if jobs.len() == 0 {
        0
    } else {
        active_count(jobs.drop_last()) + if is_active(jobs.last().status) {
            1nat
        } else {
            0nat
        }
    }
}

/// The ids of the jobs that are sent or running, in order.
pub open spec fn active_ids(jobs: Seq<TrackView>) -> Seq<u64>
    decreases jobs.len(),
{
    if jobs.len() == 0 {
        Seq::empty()
    } else if is_active(jobs.last().status) {
        active_ids(jobs.drop_last()).push(jobs.last().id)
    } else {
        active_ids(jobs.drop_last())
    }
}

pub open spec fn job_ids_unique(jobs: Seq<TrackView>) -> bool {
    forall|i: int, j: int| 0 <= i < j < jobs.len() ==> jobs[i].id != jobs[j].id
}

pub open spec fn peer_ids_unique(peers: Seq<PeerView>) -> bool {
    forall|i: int, j: int| 0 <= i < j < peers.len() ==> peers[i].peer_id != peers[j].peer_id
}

/// A peer never holds more sent or running jobs than it said it can run.
pub open spec fn within_capacity(p: PeerView) -> bool {
    active_count(p.jobs) <= p.info.simultaneous_jobs
}

pub open spec fn peers_wf(peers: Seq<PeerView>) -> bool {
    &&& peer_ids_unique(peers)
    &&& forall|i: int|
        0 <= i < peers.len() ==> job_ids_unique(#[trigger] peers[i].jobs) && within_capacity(
            peers[i],
        )
}

/// What the catalog must record after a job status.
#[derive(Debug, Clone, PartialEq, Eq)]
pub enum CatalogUpdate {
    Nothing,
    /// Back to `queued`, with its start time cleared.
    Requeue(u64),
    Fail(u64),
    Succeed(u64, Option<String>),
}

/// A row of the job queue as the dashboard shows it.
#[derive(Debug, Clone, PartialEq, Eq)]
pub struct JobQueueEntry {
    pub file: String,
    pub library: String,
    pub worker: String,
    pub status: String,
    pub milestone: String,
    pub progress: String,
    pub eta: String,
}

/// What the job manager broadcasts to its subscribers.
#[derive(Debug, Clone, PartialEq, Eq)]
pub enum ManagerEvent {
    PeerList {},
    JobQueue(Vec<JobQueueEntry>),
}

/// The master's dispatch state.
pub struct Dispatcher {
    peers: Vec<PeerInfo>,
}


fn decide(s: TrackState, status: &JobStatus, id: u64) -> (r: (TrackState, CatalogUpdate))
    ensures
        r.0 == next_state(s, status@),
        update_owed(r.1, id, s, status@),
{
    let active = s == TrackState::Sent || s == TrackState::Running;
    match status {
        JobStatus::Ack => {
            if s == TrackState::Sent {
                (TrackState::Running, CatalogUpdate::Nothing)
            } else {
                (s, CatalogUpdate::Nothing)
            }
        },
        JobStatus::Declined(_) => {
            if active {
                (TrackState::Ended, CatalogUpdate::Requeue(id))
            } else {
                (s, CatalogUpdate::Nothing)
            }
        },
        JobStatus::Error(_) => {
            if active {
                (TrackState::Ended, CatalogUpdate::Fail(id))
            } else {
                (s, CatalogUpdate::Nothing)
            }
        },
        JobStatus::Done { file } => {
            if active {
                let f = match file {
                    Some(x) => Some(x.clone()),
                    None => None,
                };
                (TrackState::Ended, CatalogUpdate::Succeed(id, f))
            } else {
                (s, CatalogUpdate::Nothing)
            }
        },
        _ => (s, CatalogUpdate::Nothing),
    }
}

/// Position of the peer with this transport identity, or -1.
pub open spec fn peer_index(peers: Seq<PeerView>, id: Seq<u8>) -> int
    decreases peers.len(),
{
    if peers.len() == 0 {
        -1
    } else if peers.last().peer_id == id {
        peers.len() - 1
    } else {
        peer_index(peers.drop_last(), id)
    }
}

/// Position of the job with this id, or -1.
pub open spec fn job_index(jobs: Seq<TrackView>, id: u128) -> int
    decreases jobs.len(),
{
    if jobs.len() == 0 {
        -1
    } else if jobs.last().id as u128 == id {
        jobs.len() - 1
    } else {
        job_index(jobs.drop_last(), id)
    }
}

/// The state a job moves to on a status: `Ack` starts a sent job; a refusal,
/// an error or completion ends an active one; nothing else moves it.
pub open spec fn next_state(s: TrackState, st: JobStatusView) -> TrackState {
    match st {
        JobStatusView::Ack => if s == TrackState::Sent {
            TrackState::Running
        } else {
            s
        },
        JobStatusView::Declined(_) | JobStatusView::Error(_) | JobStatusView::Done { .. } => {
            if is_active(s) {
                TrackState::Ended
            } else {
                s
            }
        },
        _ => s,
    }
}

/// The catalog write owed when the job `id`, in state `s`, receives `st`:
/// for an active job, a refusal puts it back in the queue, an error marks it
/// failed and completion marks it done; nothing else is written.
pub open spec fn update_owed(r: CatalogUpdate, id: u64, s: TrackState, st: JobStatusView) -> bool {
    let t = TrackView { id, status: s, events: Seq::empty() };
    match st {
        JobStatusView::Declined(_) => if is_active(t.status) {
            r == CatalogUpdate::Requeue(t.id)
        } else {
            r == CatalogUpdate::Nothing
        },
        JobStatusView::Error(_) => if is_active(t.status) {
            r == CatalogUpdate::Fail(t.id)
        } else {
            r == CatalogUpdate::Nothing
        },
        JobStatusView::Done { file } => if is_active(t.status) {
            r matches CatalogUpdate::Succeed(id, f) && id == t.id && opt_str_view(f) == file
        } else {
            r == CatalogUpdate::Nothing
        },
        _ => r == CatalogUpdate::Nothing,
    }
}

pub proof fn lemma_active_count_update(s: Seq<TrackView>, j: int, x: TrackView)
    requires
        0 <= j < s.len(),
    ensures
        active_count(s.update(j, x)) + (if is_active(s[j].status) {
            1nat
        } else {
            0nat
        }) == active_count(s) + (if is_active(x.status) {
            1nat
        } else {
            0nat
        }),
    decreases s.len(),
{
    let u = s.update(j, x);
    if j == s.len() - 1 {
        assert(u.drop_last() =~= s.drop_last());
    } else {
        assert(u.drop_last() =~= s.drop_last().update(j, x));
        lemma_active_count_update(s.drop_last(), j, x);
    }
}

proof fn lemma_peer_index(peers: Seq<PeerView>, id: Seq<u8>)
    ensures
        -1 <= peer_index(peers, id) < peers.len(),
        peer_index(peers, id) >= 0 ==> peers[peer_index(peers, id)].peer_id == id,
        peer_index(peers, id) < 0 ==> forall|k: int| 0 <= k < peers.len() ==> peers[k].peer_id != id,
    decreases peers.len(),
{
    if peers.len() > 0 {
        lemma_peer_index(peers.drop_last(), id);
        assert(forall|k: int| 0 <= k < peers.len() - 1 ==> peers[k] == peers.drop_last()[k]);
    }
}

proof fn lemma_job_index(jobs: Seq<TrackView>, id: u128)
    ensures
        -1 <= job_index(jobs, id) < jobs.len(),
        job_index(jobs, id) >= 0 ==> jobs[job_index(jobs, id)].id as u128 == id,
        job_index(jobs, id) < 0 ==> forall|k: int| 0 <= k < jobs.len() ==> jobs[k].id as u128 != id,
    decreases jobs.len(),
{
    if jobs.len() > 0 {
        lemma_job_index(jobs.drop_last(), id);
        assert(forall|k: int| 0 <= k < jobs.len() - 1 ==> jobs[k] == jobs.drop_last()[k]);
    }
}

fn count_active(jobs: &Vec<JobTracking>) -> (r: usize)
    ensures
        r == active_count(tracks_view(jobs@)),
{
    let ghost tv = tracks_view(jobs@);
    let mut n: usize = 0;
    let mut i: usize = 0;
    while i < jobs.len()
        invariant
            i <= jobs@.len(),
            tv == tracks_view(jobs@),
            n == active_count(tv.take(i as int)),
            n <= i,
        decreases jobs@.len() - i,
    {
        assert(tv.take(i + 1).drop_last() =~= tv.take(i as int));
        if jobs[i].status == TrackState::Sent || jobs[i].status == TrackState::Running {
            n = n + 1;
        }
        i = i + 1;
    }
    assert(tv.take(i as int) =~= tv);
    n
}

fn bytes_equal(a: &[u8], b: &[u8]) -> (r: bool)
    ensures
        r == (a@ == b@),
{
    if a.len() != b.len() {
        return false;
    }
    let mut i: usize = 0;
    while i < a.len()
        invariant
            i <= a@.len() == b@.len(),
            forall|k: int| 0 <= k < i ==> a@[k] == b@[k],
        decreases a@.len() - i,
    {
        if a[i] != b[i] {
            return false;
        }
        i = i + 1;
    }
    assert(a@ =~= b@);
    true
}

pub(crate) fn copy_pairs(v: &Vec<(String, String)>) -> (r: Vec<(String, String)>)
    ensures
        r@ == v@,
{
    let mut out: Vec<(String, String)> = Vec::new();
    let mut i: usize = 0;
    while i < v.len()
        invariant
            i <= v@.len(),
            out@ == v@.take(i as int),
        decreases v@.len() - i,
    {
        let k = v[i].0.clone();
        let x = v[i].1.clone();
        out.push((k, x));
        assert(out@ =~= v@.take(i + 1));
        i = i + 1;
    }
    assert(v@.take(i as int) =~= v@);
    out
}

impl View for Dispatcher {
    type V = Seq<PeerView>;

    closed spec fn view(&self) -> Seq<PeerView> {
        peers_view(self.peers@)
    }
}

impl Dispatcher {
    /// Peer identities are distinct, job ids are distinct within a peer, and
    /// no peer holds more sent or running jobs than it can run at once.
    pub open spec fn wf(&self) -> bool {
        peers_wf(self@)
    }

    pub fn new() -> (r: Dispatcher)
        ensures
            r@ == Seq::<PeerView>::empty(),
            r.wf(),
    {
        let r = Dispatcher { peers: Vec::new() };
        assert(r@ =~= Seq::<PeerView>::empty());
        r
    }

    fn find_peer(&self, peer_id: &[u8]) -> (r: Option<usize>)
        ensures
            match r {
                None => peer_index(self@, peer_id@) < 0,
                Some(i) => i as int == peer_index(self@, peer_id@),
            },
    {
        let ghost pv = self@;
        let mut j: usize = self.peers.len();
        assert(pv.take(j as int) =~= pv);
        while j > 0
            invariant
                j <= self.peers@.len(),
                pv == self@,
                pv.len() == self.peers@.len(),
                peer_index(pv, peer_id@) == peer_index(pv.take(j as int), peer_id@),
            decreases j,
        {
            assert(pv.take(j as int).drop_last() =~= pv.take(j - 1));
            assert(pv[j - 1] == self.peers@[j - 1]@);
            if bytes_equal(self.peers[j - 1].peer_id.as_slice(), peer_id) {
                return Some(j - 1);
            }
            j = j - 1;
        }
        None
    }

    /// The peer with the fewest sent or running jobs among those that can
    /// take one more; the first such in order of connection on a tie.
    pub fn select_peer(&self) -> (r: Option<usize>)
        ensures
            match r {
                None => forall|k: int|
                    0 <= k < self@.len() ==> active_count(#[trigger] self@[k].jobs)
                        >= self@[k].info.simultaneous_jobs,
                Some(i) => {
                    &&& i < self@.len()
                    &&& active_count(self@[i as int].jobs) < self@[i as int].info.simultaneous_jobs
                    &&& forall|k: int|
                        0 <= k < self@.len() && active_count(#[trigger] self@[k].jobs)
                            < self@[k].info.simultaneous_jobs ==> active_count(
                            self@[i as int].jobs,
                        ) <= active_count(self@[k].jobs)
                },
            },
    {
        let ghost pv = self@;
        let mut best: Option<usize> = None;
        let mut best_count: usize = 0;
        let mut i: usize = 0;
        while i < self.peers.len()
            invariant
                i <= self.peers@.len(),
                pv == self@,
                pv.len() == self.peers@.len(),
                match best {
                    None => forall|k: int|
                        0 <= k < i ==> active_count(#[trigger] pv[k].jobs)
                            >= pv[k].info.simultaneous_jobs,
                    Some(b) => {
                        &&& b < i
                        &&& best_count == active_count(pv[b as int].jobs)
                        &&& best_count < pv[b as int].info.simultaneous_jobs
                        &&& forall|k: int|
                            0 <= k < i && active_count(#[trigger] pv[k].jobs)
                                < pv[k].info.simultaneous_jobs ==> best_count <= active_count(
                                pv[k].jobs,
                            )
                    },
                },
            decreases self.peers@.len() - i,
        {
            assert(pv[i as int] == self.peers@[i as int]@);
            let n = count_active(&self.peers[i].jobs);
            if n < self.peers[i].info.simultaneous_jobs as usize {
                match best {
                    None => {
                        best = Some(i);
                        best_count = n;
                    },
                    Some(_) => {
                        if n < best_count {
                            best = Some(i);
                            best_count = n;
                        }
                    },
                }
            }
            i = i + 1;
        }
        best
    }

    /// Records that `contract` goes to the peer at `peer`, if that peer can
    /// take one more job, and gives the message to send it. A job of the same
    /// id already tracked there is replaced.
    pub fn assign(&mut self, peer: usize, contract: JobContract) -> (r: Option<JobMsg>)
        requires
            old(self).wf(),
            peer < old(self)@.len(),
        ensures
            final(self).wf(),
            r is Some <==> active_count(old(self)@[peer as int].jobs) < old(
                self,
            )@[peer as int].info.simultaneous_jobs,
            r is None ==> final(self)@ == old(self)@,
            r matches Some(m) ==> {
                let p = old(self)@[peer as int];
                let t = TrackView { id: contract.id, status: TrackState::Sent, events: Seq::empty() };
                let ji = job_index(p.jobs, contract.id as u128);
                &&& m.job_id == contract.id as u128
                &&& m.script == contract.script
                &&& m.vars@ == contract.vars@
                &&& m.file == contract.src_file
                &&& m.library_root == contract.library_root
                &&& m.dst_dir == contract.dst_dir
                &&& final(self)@ == old(self)@.update(
                    peer as int,
                    PeerView {
                        jobs: if ji >= 0 {
                            p.jobs.update(ji, t)
                        } else {
                            p.jobs.push(t)
                        },
                        ..p
                    },
                )
            },
    {
        let ghost old_view = self@;
        let ghost p = self@[peer as int];
        assert(p == self.peers@[peer as int]@);
        let n = count_active(&self.peers[peer].jobs);
        if n >= self.peers[peer].info.simultaneous_jobs as usize {
            return None;
        }
        let msg = JobMsg {
            job_id: contract.id as u128,
            script: contract.script.clone(),
            vars: copy_pairs(&contract.vars),
            file: contract.src_file.clone(),
            library_root: contract.library_root.clone(),
            dst_dir: contract.dst_dir.clone(),
        };
        let ghost t = TrackView { id: contract.id, status: TrackState::Sent, events: Seq::empty() };
        let id = contract.id;
        let tracking = JobTracking { contract, events: Vec::new(), status: TrackState::Sent };
        assert(tracking@ == t) by {
            assert(events_view(tracking.events@) =~= Seq::<JobStatusView>::empty());
        }
        let mut entry = self.peers.remove(peer);
        assert(entry@ == p);
        let ghost jobs_before = entry.jobs@;
        let mut j: usize = 0;
        let mut found: Option<usize> = None;
        proof {
            lemma_job_index(p.jobs, id as u128);
        }
        while j < entry.jobs.len()
            invariant
                j <= entry.jobs@.len(),
                entry.jobs@ == jobs_before,
                tracks_view(jobs_before) == p.jobs,
                p.jobs.len() == jobs_before.len(),
                found matches Some(k) ==> k < jobs_before.len() && p.jobs[k as int].id == id,
                found is None ==> forall|k: int| 0 <= k < j ==> p.jobs[k].id != id,
            decreases entry.jobs@.len() - j,
        {
            assert(p.jobs[j as int] == jobs_before[j as int]@);
            if found.is_none() && entry.jobs[j].contract.id == id {
                found = Some(j);
            }
            j = j + 1;
        }
        let ghost ji = job_index(p.jobs, id as u128);
        proof {
            assert(job_ids_unique(p.jobs)) by {
                assert(peers_wf(old_view));
                assert(old_view[peer as int] == p);
            }
            if found is Some {
                let k = found->Some_0 as int;
                assert(p.jobs[k].id as u128 == id as u128);
                assert(ji == k);
            } else {
                assert(ji < 0);
            }
        }
        match found {
            Some(k) => {
                let _old_track = entry.jobs.remove(k);
                entry.jobs.insert(k, tracking);
                assert(tracks_view(entry.jobs@) =~= p.jobs.update(k as int, t));
                proof {
                    lemma_active_count_update(p.jobs, k as int, t);
                }
            },
            None => {
                entry.jobs.push(tracking);
                assert(tracks_view(entry.jobs@) =~= p.jobs.push(t));
                assert(p.jobs.push(t).drop_last() =~= p.jobs);
            },
        }
        self.peers.insert(peer, entry);
        let ghost newp = PeerView {
            jobs: if ji >= 0 {
                p.jobs.update(ji, t)
            } else {
                p.jobs.push(t)
            },
            ..p
        };
        assert(self@ =~= old_view.update(peer as int, newp));
        proof {
            assert(peers_wf(old_view));
            assert(job_ids_unique(p.jobs)) by {
                assert(old_view[peer as int] == p);
            }
            assert(job_ids_unique(newp.jobs));
            assert forall|i: int| 0 <= i < self@.len() implies job_ids_unique(
                #[trigger] self@[i].jobs,
            ) && within_capacity(self@[i]) by {
                if i != peer as int {
                    assert(self@[i] == old_view[i]);
                }
            }
        }
        Some(msg)
    }

    /// A worker's handshake: the peer joins with no jobs. An earlier peer
    /// of the same identity is dropped.
    pub fn peer_connected(&mut self, peer_id: Vec<u8>, info: WorkerInfo)
        requires
            old(self).wf(),
        ensures
            final(self).wf(),
            final(self)@ == ({
                let i = peer_index(old(self)@, peer_id@);
                if i >= 0 {
                    old(self)@.remove(i)
                } else {
                    old(self)@
                }
            }).push(PeerView { peer_id: peer_id@, info: info@, jobs: Seq::empty() }),
    {
        let ghost old_view = self@;
        proof {
            lemma_peer_index(old_view, peer_id@);
        }
        let ghost kept = if peer_index(old_view, peer_id@) >= 0 {
            old_view.remove(peer_index(old_view, peer_id@))
        } else {
            old_view
        };
        match self.find_peer(peer_id.as_slice()) {
            Some(i) => {
                let _gone = self.peers.remove(i);
                assert(self@ =~= kept);
            },
            None => {},
        }
        assert(forall|k: int| 0 <= k < kept.len() ==> kept[k].peer_id != peer_id@);
        let entry = PeerInfo { peer_id, info, jobs: Vec::new() };
        let ghost np = PeerView { peer_id: entry.peer_id@, info: entry.info@, jobs: Seq::empty() };
        assert(entry@ == np) by {
            assert(tracks_view(entry.jobs@) =~= Seq::<TrackView>::empty());
        }
        self.peers.push(entry);
        assert(self@ =~= kept.push(np));
        proof {
            assert(peers_wf(old_view));
            assert forall|i: int, j: int| 0 <= i < j < self@.len() implies self@[i].peer_id
                != self@[j].peer_id by {
                if j < kept.len() {
                    let oi = if peer_index(old_view, np.peer_id) >= 0 && i >= peer_index(
                        old_view,
                        np.peer_id,
                    ) {
                        i + 1
                    } else {
                        i
                    };
                    let oj = if peer_index(old_view, np.peer_id) >= 0 && j >= peer_index(
                        old_view,
                        np.peer_id,
                    ) {
                        j + 1
                    } else {
                        j
                    };
                    assert(kept[i] == old_view[oi]);
                    assert(kept[j] == old_view[oj]);
                }
            }
            assert forall|i: int| 0 <= i < self@.len() implies job_ids_unique(
                #[trigger] self@[i].jobs,
            ) && within_capacity(self@[i]) by {
                if i < kept.len() {
                    let oi = if peer_index(old_view, np.peer_id) >= 0 && i >= peer_index(
                        old_view,
                        np.peer_id,
                    ) {
                        i + 1
                    } else {
                        i
                    };
                    assert(kept[i] == old_view[oi]);
                }
            }
        }
    }

    /// A worker is gone: its peer is dropped, and the ids of its sent or
    /// running jobs are returned, for the catalog to put back in the queue.
    pub fn peer_disconnected(&mut self, peer_id: &[u8]) -> (r: Vec<u64>)
        requires
            old(self).wf(),
        ensures
            final(self).wf(),
            ({
                let i = peer_index(old(self)@, peer_id@);
                if i >= 0 {
                    &&& r@ == active_ids(old(self)@[i].jobs)
                    &&& final(self)@ == old(self)@.remove(i)
                } else {
                    &&& r@ == Seq::<u64>::empty()
                    &&& final(self)@ == old(self)@
                }
            }),
    {
        let ghost old_view = self@;
        proof {
            lemma_peer_index(old_view, peer_id@);
        }
        let mut out: Vec<u64> = Vec::new();
        match self.find_peer(peer_id) {
            None => {
                return out;
            },
            Some(i) => {
                let entry = self.peers.remove(i);
                let ghost tv = tracks_view(entry.jobs@);
                assert(entry@ == old_view[i as int]);
                let mut j: usize = 0;
                while j < entry.jobs.len()
                    invariant
                        j <= entry.jobs@.len(),
                        tv == tracks_view(entry.jobs@),
                        out@ == active_ids(tv.take(j as int)),
                    decreases entry.jobs@.len() - j,
                {
                    assert(tv.take(j + 1).drop_last() =~= tv.take(j as int));
                    if entry.jobs[j].status == TrackState::Sent || entry.jobs[j].status
                        == TrackState::Running {
                        out.push(entry.jobs[j].contract.id);
                    }
                    j = j + 1;
                }
                assert(tv.take(j as int) =~= tv);
                assert(self@ =~= old_view.remove(i as int));
                proof {
                    assert(peers_wf(old_view));
                    assert forall|a: int| 0 <= a < self@.len() implies job_ids_unique(
                        #[trigger] self@[a].jobs,
                    ) && within_capacity(self@[a]) by {
                        if a < i {
                            assert(self@[a] == old_view[a]);
                        } else {
                            assert(self@[a] == old_view[a + 1]);
                        }
                    }
                    assert forall|a: int, b: int| 0 <= a < b < self@.len() implies self@[a].peer_id
                        != self@[b].peer_id by {
                        let oa = if a < i {
                            a
                        } else {
                            a + 1
                        };
                        let ob = if b < i {
                            b
                        } else {
                            b + 1
                        };
                        assert(self@[a] == old_view[oa]);
                        assert(self@[b] == old_view[ob]);
                    }
                }
                out
            },
        }
    }

    /// A job status from the peer `peer_id`: the status is added to the
    /// job's events, the job moves as `next_state` says, and the catalog
    /// write that `update_owed` names is returned. Unknown peers and jobs
    /// change nothing.
    pub fn job_status(&mut self, peer_id: &[u8], msg: JobStatusMsg) -> (r: CatalogUpdate)
        requires
            old(self).wf(),
        ensures
            final(self).wf(),
            ({
                let pi = peer_index(old(self)@, peer_id@);
                if pi < 0 {
                    final(self)@ == old(self)@ && r == CatalogUpdate::Nothing
                } else {
                    let p = old(self)@[pi];
                    let ji = job_index(p.jobs, msg.job_id);
                    if ji < 0 {
                        final(self)@ == old(self)@ && r == CatalogUpdate::Nothing
                    } else {
                        let t = p.jobs[ji];
                        &&& update_owed(r, t.id, t.status, msg@.status)
                        &&& final(self)@ == old(self)@.update(
                            pi,
                            PeerView {
                                jobs: p.jobs.update(
                                    ji,
                                    TrackView {
                                        status: next_state(t.status, msg@.status),
                                        events: t.events.push(msg@.status),
                                        ..t
                                    },
                                ),
                                ..p
                            },
                        )
                    }
                }
            }),
    {
        let ghost old_view = self@;
        proof {
            lemma_peer_index(old_view, peer_id@);
        }
        let pi = match self.find_peer(peer_id) {
            None => {
                return CatalogUpdate::Nothing;
            },
            Some(i) => i,
        };
        let ghost p = old_view[pi as int];
        let mut entry = self.peers.remove(pi);
        assert(entry@ == p);
        proof {
            lemma_job_index(p.jobs, msg.job_id);
            assert(peers_wf(old_view));
            assert(job_ids_unique(p.jobs));
        }
        let ghost jobs_before = entry.jobs@;
        let mut j: usize = 0;
        let mut found: Option<usize> = None;
        while j < entry.jobs.len()
            invariant
                j <= entry.jobs@.len(),
                entry.jobs@ == jobs_before,
                tracks_view(jobs_before) == p.jobs,
                p.jobs.len() == jobs_before.len(),
                found matches Some(k) ==> k < jobs_before.len() && p.jobs[k as int].id as u128
                    == msg.job_id,
                found is None ==> forall|k: int| 0 <= k < j ==> p.jobs[k].id as u128 != msg.job_id,
            decreases entry.jobs@.len() - j,
        {
            assert(p.jobs[j as int] == jobs_before[j as int]@);
            if found.is_none() && entry.jobs[j].contract.id as u128 == msg.job_id {
                found = Some(j);
            }
            j = j + 1;
        }
        let k = match found {
            None => {
                self.peers.insert(pi, entry);
                assert(self@ =~= old_view);
                return CatalogUpdate::Nothing;
            },
            Some(k) => k,
        };
        let ghost ji = job_index(p.jobs, msg.job_id);
        assert(ji == k as int);
        let ghost t = p.jobs[ji];
        let mut track = entry.jobs.remove(k);
        assert(track@ == t);
        let (state, update) = decide(track.status, &msg.status, track.contract.id);
        let ghost before_events = track.events@;
        track.status = state;
        track.events.push(msg.status);
        let ghost nt = TrackView {
            status: next_state(t.status, msg@.status),
            events: t.events.push(msg@.status),
            ..t
        };
        assert(track@ == nt) by {
            assert(events_view(track.events@) =~= events_view(before_events).push(msg@.status));
        }
        entry.jobs.insert(k, track);
        assert(tracks_view(entry.jobs@) =~= p.jobs.update(ji, nt));
        self.peers.insert(pi, entry);
        let ghost np = PeerView { jobs: p.jobs.update(ji, nt), ..p };
        assert(self@ =~= old_view.update(pi as int, np));
        proof {
            lemma_active_count_update(p.jobs, ji, nt);
            assert(job_ids_unique(np.jobs));
            assert forall|i: int| 0 <= i < self@.len() implies job_ids_unique(
                #[trigger] self@[i].jobs,
            ) && within_capacity(self@[i]) by {
                if i != pi as int {
                    assert(self@[i] == old_view[i]);
                }
            }
        }
        update
    }

    /// The identities of every connected peer, in order of connection.
    pub fn peer_ids(&self) -> (r: Vec<Vec<u8>>)
        ensures
            r@.len() == self@.len(),
            forall|k: int| 0 <= k < r@.len() ==> #[trigger] r@[k]@ == self@[k].peer_id,
    {
        let mut out: Vec<Vec<u8>> = Vec::new();
        let mut i: usize = 0;
        while i < self.peers.len()
            invariant
                i <= self.peers@.len(),
                out@.len() == i,
                forall|k: int| 0 <= k < i ==> #[trigger] out@[k]@ == self@[k].peer_id,
            decreases self.peers@.len() - i,
        {
            let id = vstd::slice::slice_to_vec(self.peers[i].peer_id.as_slice());
            out.push(id);
            i = i + 1;
        }
        out
    }
}

/// In every state the dispatcher can reach, no peer holds more sent or
/// running jobs than the `simultaneous_jobs` of its handshake.
pub proof fn law_capacity_respected(d: &Dispatcher)
    requires
        d.wf(),
    ensures
        forall|i: int|
            0 <= i < d@.len() ==> active_count(#[trigger] d@[i].jobs) <= d@[i].info.simultaneous_jobs,
{
    assert forall|i: int| 0 <= i < d@.len() implies active_count(#[trigger] d@[i].jobs)
        <= d@[i].info.simultaneous_jobs by {
        assert(within_capacity(d@[i]));
    }
}

/// Every sent or running job of a departing peer is among the ids that go
/// back to the queue, and nothing else is.
pub proof fn law_disconnect_requeues_active(jobs: Seq<TrackView>)
    ensures
        forall|k: int|
            0 <= k < jobs.len() && is_active(#[trigger] jobs[k].status) ==> active_ids(
                jobs,
            ).contains(jobs[k].id),
        forall|x: u64|
            #[trigger] active_ids(jobs).contains(x) ==> exists|k: int|
                0 <= k < jobs.len() && jobs[k].id == x && is_active(jobs[k].status),
    decreases jobs.len(),
{
    if jobs.len() > 0 {
        let init = jobs.drop_last();
        law_disconnect_requeues_active(init);
        assert forall|k: int|
            0 <= k < jobs.len() && is_active(#[trigger] jobs[k].status) implies active_ids(
            jobs,
        ).contains(jobs[k].id) by {
            if k < jobs.len() - 1 {
                assert(init[k] == jobs[k]);
                let w = choose|w: int| 0 <= w < active_ids(init).len() && active_ids(init)[w] == init[k].id;
                if is_active(jobs.last().status) {
                    assert(active_ids(jobs)[w] == jobs[k].id);
                }
            } else {
                assert(active_ids(jobs).last() == jobs[k].id);
            }
        }
        assert forall|x: u64| #[trigger] active_ids(jobs).contains(x) implies exists|k: int|
            0 <= k < jobs.len() && jobs[k].id == x && is_active(jobs[k].status) by {
            let w = choose|w: int| 0 <= w < active_ids(jobs).len() && active_ids(jobs)[w] == x;
            if is_active(jobs.last().status) && w == active_ids(jobs).len() - 1 {
                assert(jobs[jobs.len() - 1].id == x);
            } else {
                assert(active_ids(init)[w] == x);
                assert(active_ids(init).contains(x));
                let k = choose|k: int| 0 <= k < init.len() && init[k].id == x && is_active(init[k].status);
                assert(jobs[k] == init[k]);
            }
        }
    }
}

} // verus!
