//! The closed set of control messages exchanged between master and workers,
//! with their mathematical views.
use vstd::prelude::*;

verus! {

/// What a worker announces of itself in `Hello`.
#[derive(Debug, Clone, PartialEq)]
pub struct WorkerInfo {
    pub identifier: String,
    pub simultaneous_jobs: u8,
    pub sw_version: String,
}

pub ghost struct WorkerInfoView {
    pub identifier: Seq<char>,
    pub simultaneous_jobs: u8,
    pub sw_version: Seq<char>,
}

impl View for WorkerInfo {
    type V = WorkerInfoView;

    open spec fn view(&self) -> WorkerInfoView {
        WorkerInfoView {
            identifier: self.identifier@,
            simultaneous_jobs: self.simultaneous_jobs,
            sw_version: self.sw_version@,
        }
    }
}

/// The view of a list of `(key, value)` string pairs.
pub open spec fn pairs_view(v: Seq<(String, String)>) -> Seq<(Seq<char>, Seq<char>)> {
    Seq::new(v.len(), |i: int| (v[i].0@, v[i].1@))
}

/// The view of an optional string.
pub open spec fn opt_str_view(o: Option<String>) -> Option<Seq<char>> {
    match o {
        Some(s) => Some(s@),
        None => None,
    }
}

/// A job handed to a worker.
#[derive(Debug, Clone, PartialEq)]
pub struct JobMsg {
    pub job_id: u128,
    pub script: String,
    pub vars: Vec<(String, String)>,
    pub file: String,
    pub library_root: String,
    pub dst_dir: String,
}

pub ghost struct JobMsgView {
    pub job_id: u128,
    pub script: Seq<char>,
    pub vars: Seq<(Seq<char>, Seq<char>)>,
    pub file: Seq<char>,
    pub library_root: Seq<char>,
    pub dst_dir: Seq<char>,
}

impl View for JobMsg {
    type V = JobMsgView;

    open spec fn view(&self) -> JobMsgView {
        JobMsgView {
            job_id: self.job_id,
            script: self.script@,
            vars: pairs_view(self.vars@),
            file: self.file@,
            library_root: self.library_root@,
            dst_dir: self.dst_dir@,
        }
    }
}

/// Progress of a transcode. Times are in microseconds, `speed` in
/// thousandths of real time, `percentage` in whole percent.
#[derive(Debug, Clone, PartialEq)]
pub struct TranscodeProgress {
    pub frame: Option<u64>,
    pub fps: Option<u64>,
    pub cur_time_us: Option<u64>,
    pub percentage: Option<u64>,
    pub eta_us: Option<u64>,
    pub bitrate: Option<String>,
    pub speed_milli: Option<u64>,
}

pub ghost struct TranscodeProgressView {
    pub frame: Option<u64>,
    pub fps: Option<u64>,
    pub cur_time_us: Option<u64>,
    pub percentage: Option<u64>,
    pub eta_us: Option<u64>,
    pub bitrate: Option<Seq<char>>,
    pub speed_milli: Option<u64>,
}

impl View for TranscodeProgress {
    type V = TranscodeProgressView;

    open spec fn view(&self) -> TranscodeProgressView {
        TranscodeProgressView {
            frame: self.frame,
            fps: self.fps,
            cur_time_us: self.cur_time_us,
            percentage: self.percentage,
            eta_us: self.eta_us,
            bitrate: opt_str_view(self.bitrate),
            speed_milli: self.speed_milli,
        }
    }
}

/// What a worker reports about one job.
#[derive(Debug, Clone, PartialEq)]
pub enum JobStatus {
    Ack,
    Declined(String),
    Progress(TranscodeProgress),
    Copying,
    Milestone(String),
    Log(String),
    Error(String),
    Done { file: Option<String> },
}

pub ghost enum JobStatusView {
    Ack,
    Declined(Seq<char>),
    Progress(TranscodeProgressView),
    Copying,
    Milestone(Seq<char>),
    Log(Seq<char>),
    Error(Seq<char>),
    Done { file: Option<Seq<char>> },
}

impl View for JobStatus {
    type V = JobStatusView;

    open spec fn view(&self) -> JobStatusView {
        match self {
            JobStatus::Ack => JobStatusView::Ack,
            JobStatus::Declined(s) => JobStatusView::Declined(s@),
            JobStatus::Progress(p) => JobStatusView::Progress(p@),
            JobStatus::Copying => JobStatusView::Copying,
            JobStatus::Milestone(s) => JobStatusView::Milestone(s@),
            JobStatus::Log(s) => JobStatusView::Log(s@),
            JobStatus::Error(s) => JobStatusView::Error(s@),
            JobStatus::Done { file } => JobStatusView::Done { file: opt_str_view(*file) },
        }
    }
}

/// A timestamped job status, as a worker sends it.
#[derive(Debug, Clone, PartialEq)]
pub struct JobStatusMsg {
    pub timestamp: u64,
    pub job_id: u128,
    pub status: JobStatus,
}

pub ghost struct JobStatusMsgView {
    pub timestamp: u64,
    pub job_id: u128,
    pub status: JobStatusView,
}

impl View for JobStatusMsg {
    type V = JobStatusMsgView;

    open spec fn view(&self) -> JobStatusMsgView {
        JobStatusMsgView { timestamp: self.timestamp, job_id: self.job_id, status: self.status@ }
    }
}

/// Relies on std::time::SystemTime::elapsed, measured from the Unix epoch:
/// whole seconds since the epoch (0 if the clock reads earlier). Nothing is
/// promised of the value.
#[verifier::external_body]
fn unix_time_secs() -> u64 {
    std::time::UNIX_EPOCH.elapsed().map_or(0, |d| d.as_secs())
}

impl JobStatusMsg {
    /// A status stamped with the given time.
    pub fn new(timestamp: u64, job_id: u128, status: JobStatus) -> (r: JobStatusMsg)
        ensures
            r.timestamp == timestamp,
            r.job_id == job_id,
            r.status == status,
    {
        JobStatusMsg { timestamp, job_id, status }
    }

    fn now(job_id: u128, status: JobStatus) -> (r: JobStatusMsg)
        ensures
            r.job_id == job_id,
            r.status == status,
    {
        JobStatusMsg::new(unix_time_secs(), job_id, status)
    }

    pub fn job_ack(job_id: u128) -> (r: JobStatusMsg)
        ensures
            r.job_id == job_id,
            r.status == JobStatus::Ack,
    {
        JobStatusMsg::now(job_id, JobStatus::Ack)
    }

    pub fn job_declined(job_id: u128, reason: String) -> (r: JobStatusMsg)
        ensures
            r.job_id == job_id,
            r.status == JobStatus::Declined(reason),
    {
        JobStatusMsg::now(job_id, JobStatus::Declined(reason))
    }

    pub fn job_progress(job_id: u128, tp: TranscodeProgress) -> (r: JobStatusMsg)
        ensures
            r.job_id == job_id,
            r.status == JobStatus::Progress(tp),
    {
        JobStatusMsg::now(job_id, JobStatus::Progress(tp))
    }

    pub fn job_copying(job_id: u128) -> (r: JobStatusMsg)
        ensures
            r.job_id == job_id,
            r.status == JobStatus::Copying,
    {
        JobStatusMsg::now(job_id, JobStatus::Copying)
    }

    pub fn job_milestone(job_id: u128, m: String) -> (r: JobStatusMsg)
        ensures
            r.job_id == job_id,
            r.status == JobStatus::Milestone(m),
    {
        JobStatusMsg::now(job_id, JobStatus::Milestone(m))
    }

    pub fn job_log(job_id: u128, l: String) -> (r: JobStatusMsg)
        ensures
            r.job_id == job_id,
            r.status == JobStatus::Log(l),
    {
        JobStatusMsg::now(job_id, JobStatus::Log(l))
    }

    pub fn job_error(job_id: u128, e: String) -> (r: JobStatusMsg)
        ensures
            r.job_id == job_id,
            r.status == JobStatus::Error(e),
    {
        JobStatusMsg::now(job_id, JobStatus::Error(e))
    }

    pub fn job_done(job_id: u128, file: Option<String>) -> (r: JobStatusMsg)
        ensures
            r.job_id == job_id,
            r.status == (JobStatus::Done { file }),
    {
        JobStatusMsg::now(job_id, JobStatus::Done { file })
    }
}

/// A control message.
#[derive(Debug, Clone, PartialEq)]
pub enum Message {
    Hello(WorkerInfo),
    HelloAck,
    CancelJobs,
    Ping,
    Pong,
    Job(JobMsg),
    JobStatus(JobStatusMsg),
    Bye,
}

pub ghost enum MessageView {
    Hello(WorkerInfoView),
    HelloAck,
    CancelJobs,
    Ping,
    Pong,
    Job(JobMsgView),
    JobStatus(JobStatusMsgView),
    Bye,
}

impl View for Message {
    type V = MessageView;

    open spec fn view(&self) -> MessageView {
        match self {
            Message::Hello(w) => MessageView::Hello(w@),
            Message::HelloAck => MessageView::HelloAck,
            Message::CancelJobs => MessageView::CancelJobs,
            Message::Ping => MessageView::Ping,
            Message::Pong => MessageView::Pong,
            Message::Job(j) => MessageView::Job(j@),
            Message::JobStatus(s) => MessageView::JobStatus(s@),
            Message::Bye => MessageView::Bye,
        }
    }
}

impl Message {
    pub fn hello(wi: WorkerInfo) -> (r: Message)
        ensures
            r == Message::Hello(wi),
    {
        Message::Hello(wi)
    }

    pub fn ack() -> (r: Message)
        ensures
            r == Message::HelloAck,
    {
        Message::HelloAck
    }

    pub fn cancel_jobs() -> (r: Message)
        ensures
            r == Message::CancelJobs,
    {
        Message::CancelJobs
    }

    pub fn job_status(jsm: JobStatusMsg) -> (r: Message)
        ensures
            r == Message::JobStatus(jsm),
    {
        Message::JobStatus(jsm)
    }

    pub fn job(jm: JobMsg) -> (r: Message)
        ensures
            r == Message::Job(jm),
    {
        Message::Job(jm)
    }

    pub fn ping() -> (r: Message)
        ensures
            r == Message::Ping,
    {
        Message::Ping
    }

    pub fn pong() -> (r: Message)
        ensures
            r == Message::Pong,
    {
        Message::Pong
    }

    pub fn bye() -> (r: Message)
        ensures
            r == Message::Bye,
    {
        Message::Bye
    }
}

} // verus!
